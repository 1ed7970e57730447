use f4na::error::LexerError;
use f4na::import::{ImportExpander, ImportStep};
use f4na::tokenizer::{tokenize, Lexed, Token, TokenOf};

fn chars(s: &str) -> Vec<char> {
    s.chars().collect()
}

fn tokens(s: &str) -> Vec<Token> {
    match tokenize(chars(s)) {
        Lexed::Tokens(ts) => ts,
        other => panic!("lexing failed: {:?}", other),
    }
}

fn ident(s: &str) -> Token {
    TokenOf::Ident(s.to_string())
}

#[test]
fn tokenize_let_statement() {
    assert_eq!(
        tokens("let x = 5;"),
        vec![TokenOf::Let, ident("x"), TokenOf::Assign, TokenOf::Int(5), TokenOf::Eos, TokenOf::Eof]
    );
}

#[test]
fn tokenize_empty_text_is_just_eof() {
    assert_eq!(tokens(""), vec![TokenOf::Eof]);
}

#[test]
fn tokenize_trailing_white_space_is_a_bad_number() {
    // After the last token the scan skips the white space and then reads a number
    // of no digits.
    assert_eq!(tokenize(chars("let x = 5;\n")), Lexed::Failed(LexerError::BadNumber));
}

#[test]
fn tokenize_number_bases() {
    assert_eq!(
        tokens("0x1f 0b101 0o17 42;"),
        vec![TokenOf::Int(31), TokenOf::Int(5), TokenOf::Int(15), TokenOf::Int(42), TokenOf::Eos, TokenOf::Eof]
    );
}

#[test]
fn tokenize_float_keeps_its_text() {
    assert_eq!(tokens("1.50;"), vec![TokenOf::Float("1.50".to_string()), TokenOf::Eos, TokenOf::Eof]);
}

#[test]
fn tokenize_int_too_large_is_a_bad_number() {
    assert_eq!(tokenize(chars("99999999999999999999;")), Lexed::Failed(LexerError::BadNumber));
}

#[test]
fn tokenize_largest_int() {
    assert_eq!(tokens("9223372036854775807;"), vec![TokenOf::Int(i64::MAX), TokenOf::Eos, TokenOf::Eof]);
}

#[test]
fn tokenize_operators() {
    assert_eq!(
        tokens("a>=b>>c**d<=e<<f!=g==h||i&&j;"),
        vec![
            ident("a"),
            TokenOf::Ge,
            ident("b"),
            TokenOf::Shr,
            ident("c"),
            TokenOf::Pwr,
            ident("d"),
            TokenOf::Le,
            ident("e"),
            TokenOf::Shl,
            ident("f"),
            TokenOf::Neq,
            ident("g"),
            TokenOf::Eq,
            ident("h"),
            TokenOf::Logor,
            ident("i"),
            TokenOf::Logand,
            ident("j"),
            TokenOf::Eos,
            TokenOf::Eof,
        ]
    );
}

#[test]
fn tokenize_single_character_operators() {
    assert_eq!(
        tokens("(a+b-c*d/e%f)|g&h^~!i<j>k,[l]{m};"),
        vec![
            TokenOf::Lparen,
            ident("a"),
            TokenOf::Add,
            ident("b"),
            TokenOf::Min,
            ident("c"),
            TokenOf::Mul,
            ident("d"),
            TokenOf::Div,
            ident("e"),
            TokenOf::Mod,
            ident("f"),
            TokenOf::Rparen,
            TokenOf::Bitor,
            ident("g"),
            TokenOf::Bitand,
            ident("h"),
            TokenOf::Bitxor,
            TokenOf::Bnot,
            TokenOf::Not,
            ident("i"),
            TokenOf::Lt,
            ident("j"),
            TokenOf::Gt,
            ident("k"),
            TokenOf::Comma,
            TokenOf::Lbrack,
            ident("l"),
            TokenOf::Rbrack,
            TokenOf::Lbrace,
            ident("m"),
            TokenOf::Rbrace,
            TokenOf::Eos,
            TokenOf::Eof,
        ]
    );
}

#[test]
fn tokenize_keywords() {
    assert_eq!(
        tokens("fn f(a) { ret a; } if x { } elif y { } else { } while true { } false;"),
        vec![
            TokenOf::Fn,
            ident("f"),
            TokenOf::Lparen,
            ident("a"),
            TokenOf::Rparen,
            TokenOf::Lbrace,
            TokenOf::Ret,
            ident("a"),
            TokenOf::Eos,
            TokenOf::Rbrace,
            TokenOf::If,
            ident("x"),
            TokenOf::Lbrace,
            TokenOf::Rbrace,
            TokenOf::Elif,
            ident("y"),
            TokenOf::Lbrace,
            TokenOf::Rbrace,
            TokenOf::Else,
            TokenOf::Lbrace,
            TokenOf::Rbrace,
            TokenOf::While,
            TokenOf::Bool(true),
            TokenOf::Lbrace,
            TokenOf::Rbrace,
            TokenOf::Bool(false),
            TokenOf::Eos,
            TokenOf::Eof,
        ]
    );
}

#[test]
fn tokenize_string_literal() {
    assert_eq!(
        tokens("\"hi there\";"),
        vec![TokenOf::String("hi there".to_string()), TokenOf::Eos, TokenOf::Eof]
    );
}

#[test]
fn tokenize_unterminated_string_takes_the_rest() {
    assert_eq!(tokens("\"abc"), vec![TokenOf::String("abc".to_string()), TokenOf::Eof]);
}

#[test]
fn tokenize_identifier_with_underscore_and_digits() {
    assert_eq!(tokens("_a1b2;"), vec![ident("_a1b2"), TokenOf::Eos, TokenOf::Eof]);
}

#[test]
fn import_text_without_imports_is_unchanged() {
    let mut ex = ImportExpander::new(chars("let a = 1;"));
    assert_eq!(ex.next_action(), ImportStep::Done);
    assert_eq!(ex.source(), chars("let a = 1;"));
}

#[test]
fn import_by_name_asks_for_the_file_and_splices_it() {
    let mut ex = ImportExpander::new(chars("import lib;let b = a;"));
    assert_eq!(ex.next_action(), ImportStep::NeedFile("lib.f4na".to_string()));
    assert_eq!(ex.file_contents(Some(chars("let a = 1;"))), ImportStep::Done);
    assert_eq!(ex.source(), chars("let a = 1;\nlet b = a;"));
}

#[test]
fn import_by_quoted_path() {
    let mut ex = ImportExpander::new(chars("import \"dir/x.txt\";"));
    assert_eq!(ex.next_action(), ImportStep::NeedFile("dir/x.txt".to_string()));
    assert_eq!(ex.file_contents(Some(chars("y"))), ImportStep::Done);
    assert_eq!(ex.source(), chars("y\n"));
}

#[test]
fn import_of_the_same_file_twice_reads_it_once() {
    let mut ex = ImportExpander::new(chars("import a;import a;z"));
    assert_eq!(ex.next_action(), ImportStep::NeedFile("a.f4na".to_string()));
    assert_eq!(ex.file_contents(Some(chars("q"))), ImportStep::Done);
    assert_eq!(ex.source(), chars("q\nz"));
}

#[test]
fn import_of_a_missing_file_fails() {
    let mut ex = ImportExpander::new(chars("import nope;"));
    assert_eq!(ex.next_action(), ImportStep::NeedFile("nope.f4na".to_string()));
    assert_eq!(ex.file_contents(None), ImportStep::Failed(LexerError::FileNotFound("nope.f4na".to_string())));
}

#[test]
fn import_without_semicolon_fails() {
    let mut ex = ImportExpander::new(chars("import a x"));
    assert_eq!(ex.next_action(), ImportStep::NeedFile("a.f4na".to_string()));
    assert_eq!(ex.file_contents(Some(chars("q"))), ImportStep::Failed(LexerError::ExpectedToken(";".to_string())));
}

#[test]
fn import_without_a_name_fails() {
    let mut ex = ImportExpander::new(chars("import 5;"));
    assert_eq!(ex.next_action(), ImportStep::Failed(LexerError::ExpectedIdentifier));
}

#[test]
fn tokenize_keyword_ending_the_text_aborts() {
    // Taking a keyword reads the character after it, which must exist.
    assert_eq!(tokenize(chars("x = true")), Lexed::Aborted);
    assert_eq!(tokens("x = true;"), vec![ident("x"), TokenOf::Assign, TokenOf::Bool(true), TokenOf::Eos, TokenOf::Eof]);
}

#[test]
fn tokenize_two_character_operator_ending_the_text_aborts() {
    assert_eq!(tokenize(chars("a ==")), Lexed::Aborted);
    assert_eq!(tokenize(chars("a == b")), Lexed::Tokens(vec![ident("a"), TokenOf::Eq, ident("b"), TokenOf::Eof]));
}

#[test]
fn import_in_the_middle_is_replaced_by_the_file_and_a_newline() {
    let mut ex = ImportExpander::new(chars("let x = 1;import lib;y"));
    assert_eq!(ex.next_action(), ImportStep::NeedFile("lib.f4na".to_string()));
    assert_eq!(ex.file_contents(Some(chars("q"))), ImportStep::Done);
    assert_eq!(ex.source(), chars("let x = 1;q\ny"));
}

#[test]
fn import_read_before_is_dropped_where_it_stands() {
    let mut ex = ImportExpander::new(chars("import \"a\";b import \"a\";c"));
    assert_eq!(ex.next_action(), ImportStep::NeedFile("a".to_string()));
    assert_eq!(ex.file_contents(Some(chars("t"))), ImportStep::Done);
    assert_eq!(ex.source(), chars("t\nb c"));
}
