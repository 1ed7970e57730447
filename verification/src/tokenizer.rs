use vstd::prelude::*;

use crate::error::{LexerError, LexerErrorView};

verus! {

/// A token of the language.  The type parameter is the representation of text:
/// `String` in executable code ([`Token`]), `Seq<char>` in specifications
/// ([`TokenView`]).  A float literal is carried as its source text.
#[derive(Debug, PartialEq)]
pub enum TokenOf<S> {
    Fn,
    Ret,
    If,
    Elif,
    Else,
    While,
    Let,
    Lparen,
    Rparen,
    Lbrace,
    Rbrace,
    Lbrack,
    Rbrack,
    Logor,
    Logand,
    Eq,
    Neq,
    Gt,
    Lt,
    Ge,
    Le,
    Add,
    Min,
    Mul,
    Div,
    Mod,
    Pwr,
    Not,
    Bnot,
    Bitor,
    Bitxor,
    Bitand,
    Shl,
    Shr,
    Comma,
    Assign,
    Eos,
    Eof,
    Int(i64),
    Float(S),
    Bool(bool),
    String(S),
    Ident(S),
}

pub type Token = TokenOf<String>;

pub type TokenView = TokenOf<Seq<char>>;

impl View for TokenOf<String> {
    type V = TokenOf<Seq<char>>;

    open spec fn view(&self) -> TokenOf<Seq<char>> {
        match self {
            TokenOf::Fn => TokenOf::Fn,
            TokenOf::Ret => TokenOf::Ret,
            TokenOf::If => TokenOf::If,
            TokenOf::Elif => TokenOf::Elif,
            TokenOf::Else => TokenOf::Else,
            TokenOf::While => TokenOf::While,
            TokenOf::Let => TokenOf::Let,
            TokenOf::Lparen => TokenOf::Lparen,
            TokenOf::Rparen => TokenOf::Rparen,
            TokenOf::Lbrace => TokenOf::Lbrace,
            TokenOf::Rbrace => TokenOf::Rbrace,
            TokenOf::Lbrack => TokenOf::Lbrack,
            TokenOf::Rbrack => TokenOf::Rbrack,
            TokenOf::Logor => TokenOf::Logor,
            TokenOf::Logand => TokenOf::Logand,
            TokenOf::Eq => TokenOf::Eq,
            TokenOf::Neq => TokenOf::Neq,
            TokenOf::Gt => TokenOf::Gt,
            TokenOf::Lt => TokenOf::Lt,
            TokenOf::Ge => TokenOf::Ge,
            TokenOf::Le => TokenOf::Le,
            TokenOf::Add => TokenOf::Add,
            TokenOf::Min => TokenOf::Min,
            TokenOf::Mul => TokenOf::Mul,
            TokenOf::Div => TokenOf::Div,
            TokenOf::Mod => TokenOf::Mod,
            TokenOf::Pwr => TokenOf::Pwr,
            TokenOf::Not => TokenOf::Not,
            TokenOf::Bnot => TokenOf::Bnot,
            TokenOf::Bitor => TokenOf::Bitor,
            TokenOf::Bitxor => TokenOf::Bitxor,
            TokenOf::Bitand => TokenOf::Bitand,
            TokenOf::Shl => TokenOf::Shl,
            TokenOf::Shr => TokenOf::Shr,
            TokenOf::Comma => TokenOf::Comma,
            TokenOf::Assign => TokenOf::Assign,
            TokenOf::Eos => TokenOf::Eos,
            TokenOf::Eof => TokenOf::Eof,
            TokenOf::Int(n) => TokenOf::Int(*n),
            TokenOf::Float(s) => TokenOf::Float(s@),
            TokenOf::Bool(b) => TokenOf::Bool(*b),
            TokenOf::String(s) => TokenOf::String(s@),
            TokenOf::Ident(s) => TokenOf::Ident(s@),
        }
    }
}

/// The views of a sequence of tokens.
pub open spec fn tokens_view(ts: Seq<Token>) -> Seq<TokenView> {
    ts.map_values(|t: Token| t@)
}

impl TokenOf<String> {
    /// A copy of this token.
    pub fn duplicate(&self) -> (r: Token)
        ensures
            r@ == self@,
    {
        match self {
            TokenOf::Fn => TokenOf::Fn,
            TokenOf::Ret => TokenOf::Ret,
            TokenOf::If => TokenOf::If,
            TokenOf::Elif => TokenOf::Elif,
            TokenOf::Else => TokenOf::Else,
            TokenOf::While => TokenOf::While,
            TokenOf::Let => TokenOf::Let,
            TokenOf::Lparen => TokenOf::Lparen,
            TokenOf::Rparen => TokenOf::Rparen,
            TokenOf::Lbrace => TokenOf::Lbrace,
            TokenOf::Rbrace => TokenOf::Rbrace,
            TokenOf::Lbrack => TokenOf::Lbrack,
            TokenOf::Rbrack => TokenOf::Rbrack,
            TokenOf::Logor => TokenOf::Logor,
            TokenOf::Logand => TokenOf::Logand,
            TokenOf::Eq => TokenOf::Eq,
            TokenOf::Neq => TokenOf::Neq,
            TokenOf::Gt => TokenOf::Gt,
            TokenOf::Lt => TokenOf::Lt,
            TokenOf::Ge => TokenOf::Ge,
            TokenOf::Le => TokenOf::Le,
            TokenOf::Add => TokenOf::Add,
            TokenOf::Min => TokenOf::Min,
            TokenOf::Mul => TokenOf::Mul,
            TokenOf::Div => TokenOf::Div,
            TokenOf::Mod => TokenOf::Mod,
            TokenOf::Pwr => TokenOf::Pwr,
            TokenOf::Not => TokenOf::Not,
            TokenOf::Bnot => TokenOf::Bnot,
            TokenOf::Bitor => TokenOf::Bitor,
            TokenOf::Bitxor => TokenOf::Bitxor,
            TokenOf::Bitand => TokenOf::Bitand,
            TokenOf::Shl => TokenOf::Shl,
            TokenOf::Shr => TokenOf::Shr,
            TokenOf::Comma => TokenOf::Comma,
            TokenOf::Assign => TokenOf::Assign,
            TokenOf::Eos => TokenOf::Eos,
            TokenOf::Eof => TokenOf::Eof,
            TokenOf::Int(n) => TokenOf::Int(*n),
            TokenOf::Float(s) => TokenOf::Float(s.clone()),
            TokenOf::Bool(b) => TokenOf::Bool(*b),
            TokenOf::String(s) => TokenOf::String(s.clone()),
            TokenOf::Ident(s) => TokenOf::Ident(s.clone()),
        }
    }

    /// Whether two tokens are the same token.
    pub fn same(&self, other: &Token) -> (r: bool)
        ensures
            r == (self@ == other@),
    {
        match (self, other) {
            (TokenOf::Fn, TokenOf::Fn) => true,
            (TokenOf::Ret, TokenOf::Ret) => true,
            (TokenOf::If, TokenOf::If) => true,
            (TokenOf::Elif, TokenOf::Elif) => true,
            (TokenOf::Else, TokenOf::Else) => true,
            (TokenOf::While, TokenOf::While) => true,
            (TokenOf::Let, TokenOf::Let) => true,
            (TokenOf::Lparen, TokenOf::Lparen) => true,
            (TokenOf::Rparen, TokenOf::Rparen) => true,
            (TokenOf::Lbrace, TokenOf::Lbrace) => true,
            (TokenOf::Rbrace, TokenOf::Rbrace) => true,
            (TokenOf::Lbrack, TokenOf::Lbrack) => true,
            (TokenOf::Rbrack, TokenOf::Rbrack) => true,
            (TokenOf::Logor, TokenOf::Logor) => true,
            (TokenOf::Logand, TokenOf::Logand) => true,
            (TokenOf::Eq, TokenOf::Eq) => true,
            (TokenOf::Neq, TokenOf::Neq) => true,
            (TokenOf::Gt, TokenOf::Gt) => true,
            (TokenOf::Lt, TokenOf::Lt) => true,
            (TokenOf::Ge, TokenOf::Ge) => true,
            (TokenOf::Le, TokenOf::Le) => true,
            (TokenOf::Add, TokenOf::Add) => true,
            (TokenOf::Min, TokenOf::Min) => true,
            (TokenOf::Mul, TokenOf::Mul) => true,
            (TokenOf::Div, TokenOf::Div) => true,
            (TokenOf::Mod, TokenOf::Mod) => true,
            (TokenOf::Pwr, TokenOf::Pwr) => true,
            (TokenOf::Not, TokenOf::Not) => true,
            (TokenOf::Bnot, TokenOf::Bnot) => true,
            (TokenOf::Bitor, TokenOf::Bitor) => true,
            (TokenOf::Bitxor, TokenOf::Bitxor) => true,
            (TokenOf::Bitand, TokenOf::Bitand) => true,
            (TokenOf::Shl, TokenOf::Shl) => true,
            (TokenOf::Shr, TokenOf::Shr) => true,
            (TokenOf::Comma, TokenOf::Comma) => true,
            (TokenOf::Assign, TokenOf::Assign) => true,
            (TokenOf::Eos, TokenOf::Eos) => true,
            (TokenOf::Eof, TokenOf::Eof) => true,
            (TokenOf::Int(a), TokenOf::Int(b)) => *a == *b,
            (TokenOf::Float(a), TokenOf::Float(b)) => *a == *b,
            (TokenOf::Bool(a), TokenOf::Bool(b)) => *a == *b,
            (TokenOf::String(a), TokenOf::String(b)) => *a == *b,
            (TokenOf::Ident(a), TokenOf::Ident(b)) => *a == *b,
            _ => false,
        }
    }
}

// ---------------------------------------------------------------------------
// Character classes.  Source text is ASCII; on ASCII these agree with
// `char::is_whitespace`, `is_alphabetic`, `is_alphanumeric` and `is_ascii_digit`.
// ---------------------------------------------------------------------------

pub open spec fn is_ascii_text(s: Seq<char>) -> bool {
    forall|i: int| 0 <= i < s.len() ==> (s[i] as u32) < 128
}

pub open spec fn is_ws(c: char) -> bool {
    c == ' ' || ('\t' <= c && c <= '\r')
}

pub open spec fn is_alpha(c: char) -> bool {
    ('a' <= c && c <= 'z') || ('A' <= c && c <= 'Z')
}

pub open spec fn is_digit(c: char) -> bool {
    '0' <= c && c <= '9'
}

pub open spec fn is_alnum(c: char) -> bool {
    is_alpha(c) || is_digit(c)
}

/// A character that may continue an identifier.
pub open spec fn is_word_char(c: char) -> bool {
    is_alnum(c) || c == '_'
}

/// A digit of the given base (2, 8, 10 or 16).
pub open spec fn in_base(c: char, base: nat) -> bool {
    if base == 16 {
        is_digit(c) || ('a' <= c && c <= 'f') || ('A' <= c && c <= 'F')
    } else if base == 8 {
        '0' <= c && c <= '7'
    } else if base == 2 {
        c == '0' || c == '1'
    } else {
        is_digit(c)
    }
}

/// The numeric value of a digit character.
pub open spec fn digit_of(c: char) -> nat {
    if is_digit(c) {
        (c as u32 - '0' as u32) as nat
    } else if 'a' <= c && c <= 'f' {
        (c as u32 - 'a' as u32 + 10) as nat
    } else {
        (c as u32 - 'A' as u32 + 10) as nat
    }
}

/// The number that a string of digits denotes in a base.
pub open spec fn digits_value(d: Seq<char>, base: nat) -> nat
    decreases d.len(),
{
    if d.len() == 0 {
        0
    } else {
        digits_value(d.subrange(0, d.len() - 1), base) * base + digit_of(d[d.len() - 1])
    }
}

// ---------------------------------------------------------------------------
// Scanning positions.
// ---------------------------------------------------------------------------

/// The character at `i`, or NUL past the end of the text.
pub open spec fn char_at(s: Seq<char>, i: int) -> char {
    if 0 <= i < s.len() {
        s[i]
    } else {
        '\0'
    }
}

/// `w` occurs in `s` at position `i`.
pub open spec fn word_at(s: Seq<char>, i: int, w: Seq<char>) -> bool {
    0 <= i && i + w.len() <= s.len() && s.subrange(i, i + w.len()) == w
}

/// The first position at or after `i` that holds no white space.
pub open spec fn ws_end(s: Seq<char>, i: int) -> int
    decreases s.len() - i,
{
    if 0 <= i < s.len() && is_ws(s[i]) {
        ws_end(s, i + 1)
    } else {
        i
    }
}

/// The first position at or after `i` that holds no identifier character.
pub open spec fn word_end(s: Seq<char>, i: int) -> int
    decreases s.len() - i,
{
    if 0 <= i < s.len() && is_word_char(s[i]) {
        word_end(s, i + 1)
    } else {
        i
    }
}

/// The first position at or after `i` that holds no digit of `base`.
pub open spec fn digits_end(s: Seq<char>, i: int, base: nat) -> int
    decreases s.len() - i,
{
    if 0 <= i < s.len() && in_base(s[i], base) {
        digits_end(s, i + 1, base)
    } else {
        i
    }
}

/// The first position at or after `i` that holds a double quote, or the end.
pub open spec fn quote_end(s: Seq<char>, i: int) -> int
    decreases s.len() - i,
{
    if 0 <= i < s.len() && s[i] != '"' {
        quote_end(s, i + 1)
    } else {
        i
    }
}

pub open spec fn w_fn() -> Seq<char> { seq!['f', 'n'] }
pub open spec fn w_ret() -> Seq<char> { seq!['r', 'e', 't'] }
pub open spec fn w_if() -> Seq<char> { seq!['i', 'f'] }
pub open spec fn w_elif() -> Seq<char> { seq!['e', 'l', 'i', 'f'] }
pub open spec fn w_else() -> Seq<char> { seq!['e', 'l', 's', 'e'] }
pub open spec fn w_let() -> Seq<char> { seq!['l', 'e', 't'] }
pub open spec fn w_true() -> Seq<char> { seq!['t', 'r', 'u', 'e'] }
pub open spec fn w_false() -> Seq<char> { seq!['f', 'a', 'l', 's', 'e'] }
pub open spec fn w_while() -> Seq<char> { seq!['w', 'h', 'i', 'l', 'e'] }
pub open spec fn w_import() -> Seq<char> { seq!['i', 'm', 'p', 'o', 'r', 't'] }

/// Keyword `w` stands at `i`, not followed by an identifier character.
pub open spec fn kw_at(s: Seq<char>, i: int, w: Seq<char>) -> bool {
    word_at(s, i, w) && !is_word_char(char_at(s, i + w.len()))
}

pub open spec fn keyword_at(s: Seq<char>, i: int) -> bool {
    kw_at(s, i, w_fn()) || kw_at(s, i, w_ret()) || kw_at(s, i, w_elif()) || kw_at(s, i, w_else())
        || kw_at(s, i, w_if()) || kw_at(s, i, w_let()) || kw_at(s, i, w_true()) || kw_at(
        s,
        i,
        w_false(),
    ) || kw_at(s, i, w_while())
}

/// An identifier (not a keyword) starts at `i`.
pub open spec fn ident_at(s: Seq<char>, i: int) -> bool {
    (is_alpha(char_at(s, i)) || char_at(s, i) == '_') && !keyword_at(s, i)
}

// ---------------------------------------------------------------------------
// The token at a position.
// ---------------------------------------------------------------------------

/// Outcome of reading one token at a position.  `Abort` marks the inputs on which
/// reading the token would index past the end of the text, which stops the process.
pub enum ScanView {
    Tok(TokenView, int),
    BadNumber,
    Abort,
}

/// A token of `k` characters at `p`; the text must go on after it.
pub open spec fn fixed(s: Seq<char>, p: int, k: int, t: TokenView) -> ScanView {
    if p + k >= s.len() {
        ScanView::Abort
    } else {
        ScanView::Tok(t, p + k)
    }
}

pub open spec fn keyword_token(s: Seq<char>, p: int) -> ScanView {
    if word_at(s, p, w_fn()) {
        fixed(s, p, 2, TokenOf::Fn)
    } else if word_at(s, p, w_ret()) {
        fixed(s, p, 3, TokenOf::Ret)
    } else if word_at(s, p, w_if()) {
        fixed(s, p, 2, TokenOf::If)
    } else if word_at(s, p, w_elif()) {
        fixed(s, p, 4, TokenOf::Elif)
    } else if word_at(s, p, w_else()) {
        fixed(s, p, 4, TokenOf::Else)
    } else if word_at(s, p, w_let()) {
        fixed(s, p, 3, TokenOf::Let)
    } else if word_at(s, p, w_true()) {
        fixed(s, p, 4, TokenOf::Bool(true))
    } else if word_at(s, p, w_false()) {
        fixed(s, p, 5, TokenOf::Bool(false))
    } else {
        fixed(s, p, 5, TokenOf::While)
    }
}

/// An integer literal whose digits of `base` start at `start`.
pub open spec fn int_token(s: Seq<char>, start: int, base: nat) -> ScanView {
    let d = digits_end(s, start, base);
    let v = digits_value(s.subrange(start, d), base);
    if d == start || v > i64::MAX {
        ScanView::BadNumber
    } else {
        ScanView::Tok(TokenOf::Int(v as i64), d)
    }
}

pub open spec fn number_token(s: Seq<char>, p: int) -> ScanView {
    if word_at(s, p, seq!['0', 'x']) {
        if p + 2 >= s.len() { ScanView::Abort } else { int_token(s, p + 2, 16) }
    } else if word_at(s, p, seq!['0', 'o']) {
        if p + 2 >= s.len() { ScanView::Abort } else { int_token(s, p + 2, 8) }
    } else if word_at(s, p, seq!['0', 'b']) {
        if p + 2 >= s.len() { ScanView::Abort } else { int_token(s, p + 2, 2) }
    } else {
        let d = digits_end(s, p, 10);
        if char_at(s, d) == '.' {
            let f = digits_end(s, d + 1, 10);
            if f == p + 1 {
                ScanView::BadNumber
            } else {
                ScanView::Tok(TokenOf::Float(s.subrange(p, f)), f)
            }
        } else {
            int_token(s, p, 10)
        }
    }
}

/// The token that starts at `p`, a position that holds no white space.
pub open spec fn scan(s: Seq<char>, p: int) -> ScanView {
    let c = char_at(s, p);
    let d = char_at(s, p + 1);
    if c == '"' {
        let e = quote_end(s, p + 1);
        ScanView::Tok(TokenOf::String(s.subrange(p + 1, e)), if e < s.len() { e + 1 } else { e })
    } else if keyword_at(s, p) {
        keyword_token(s, p)
    } else if c == '(' {
        ScanView::Tok(TokenOf::Lparen, p + 1)
    } else if c == ')' {
        ScanView::Tok(TokenOf::Rparen, p + 1)
    } else if c == '{' {
        ScanView::Tok(TokenOf::Lbrace, p + 1)
    } else if c == '}' {
        ScanView::Tok(TokenOf::Rbrace, p + 1)
    } else if c == '[' {
        ScanView::Tok(TokenOf::Lbrack, p + 1)
    } else if c == ']' {
        ScanView::Tok(TokenOf::Rbrack, p + 1)
    } else if c == '|' && d == '|' {
        fixed(s, p, 2, TokenOf::Logor)
    } else if c == '&' && d == '&' {
        fixed(s, p, 2, TokenOf::Logand)
    } else if c == '=' && d == '=' {
        fixed(s, p, 2, TokenOf::Eq)
    } else if c == '!' && d == '=' {
        fixed(s, p, 2, TokenOf::Neq)
    } else if c == '|' {
        ScanView::Tok(TokenOf::Bitor, p + 1)
    } else if c == '&' {
        ScanView::Tok(TokenOf::Bitand, p + 1)
    } else if c == '^' {
        ScanView::Tok(TokenOf::Bitxor, p + 1)
    } else if c == '>' {
        if d == '=' {
            ScanView::Tok(TokenOf::Ge, p + 2)
        } else if d == '>' {
            ScanView::Tok(TokenOf::Shr, p + 2)
        } else {
            ScanView::Tok(TokenOf::Gt, p + 1)
        }
    } else if c == '<' {
        if d == '=' {
            ScanView::Tok(TokenOf::Le, p + 2)
        } else if d == '<' {
            ScanView::Tok(TokenOf::Shl, p + 2)
        } else {
            ScanView::Tok(TokenOf::Lt, p + 1)
        }
    } else if c == '+' {
        ScanView::Tok(TokenOf::Add, p + 1)
    } else if c == '-' {
        ScanView::Tok(TokenOf::Min, p + 1)
    } else if c == '*' {
        if d == '*' {
            ScanView::Tok(TokenOf::Pwr, p + 2)
        } else {
            ScanView::Tok(TokenOf::Mul, p + 1)
        }
    } else if c == '/' {
        ScanView::Tok(TokenOf::Div, p + 1)
    } else if c == '%' {
        ScanView::Tok(TokenOf::Mod, p + 1)
    } else if c == '!' {
        ScanView::Tok(TokenOf::Not, p + 1)
    } else if c == '~' {
        ScanView::Tok(TokenOf::Bnot, p + 1)
    } else if c == ',' {
        ScanView::Tok(TokenOf::Comma, p + 1)
    } else if c == '=' {
        ScanView::Tok(TokenOf::Assign, p + 1)
    } else if is_alpha(c) || c == '_' {
        let e = word_end(s, p);
        ScanView::Tok(TokenOf::Ident(s.subrange(p, e)), e)
    } else if c == ';' {
        ScanView::Tok(TokenOf::Eos, p + 1)
    } else {
        number_token(s, p)
    }
}

/// Outcome of lexing a whole text.
pub enum LexedView {
    Tokens(Seq<TokenView>),
    Failed(LexerErrorView),
    Aborted,
}

/// Lexing from `pos` on, with `acc` the tokens read so far.  Each round skips white
/// space and reads one token; the end of the text adds `Eof`.
pub open spec fn lex_from(s: Seq<char>, pos: int, acc: Seq<TokenView>) -> LexedView
    decreases s.len() - pos,
{
    if pos < 0 || pos >= s.len() {
        LexedView::Tokens(acc.push(TokenOf::Eof))
    } else {
        match scan(s, ws_end(s, pos)) {
            ScanView::Tok(t, n) => if pos < n <= s.len() {
                lex_from(s, n, acc.push(t))
            } else {
                LexedView::Aborted
            },
            ScanView::BadNumber => LexedView::Failed(LexerErrorView::BadNumber),
            ScanView::Abort => LexedView::Aborted,
        }
    }
}

/// The tokens of a text (after import expansion).
pub open spec fn lex_spec(s: Seq<char>) -> LexedView {
    lex_from(s, 0, Seq::empty())
}

} // verus!

verus! {

/// Appends one character to a string (`String::push`).  Trusted: the contract says
/// what std documents, that the character is added at the end.
#[verifier::external_body]
pub(crate) fn push_char(s: &mut String, c: char)
    ensures
        final(s)@ == old(s)@.push(c),
{
    s.push(c);
}

fn ws(c: char) -> (r: bool)
    ensures
        r == is_ws(c),
{
    c == ' ' || ('\t' <= c && c <= '\r')
}

fn alpha(c: char) -> (r: bool)
    ensures
        r == is_alpha(c),
{
    ('a' <= c && c <= 'z') || ('A' <= c && c <= 'Z')
}

fn digit(c: char) -> (r: bool)
    ensures
        r == is_digit(c),
{
    '0' <= c && c <= '9'
}

fn word_char(c: char) -> (r: bool)
    ensures
        r == is_word_char(c),
{
    alpha(c) || digit(c) || c == '_'
}

fn base_digit(c: char, base: u32) -> (r: bool)
    ensures
        r == in_base(c, base as nat),
{
    if base == 16 {
        digit(c) || ('a' <= c && c <= 'f') || ('A' <= c && c <= 'F')
    } else if base == 8 {
        '0' <= c && c <= '7'
    } else if base == 2 {
        c == '0' || c == '1'
    } else {
        digit(c)
    }
}

fn digit_val(c: char, base: u32) -> (r: u32)
    requires
        in_base(c, base as nat),
    ensures
        r == digit_of(c),
        r < 16,
        base == 10 || base == 8 || base == 2 ==> r < base,
{
    if digit(c) {
        (c as u32) - ('0' as u32)
    } else if 'a' <= c && c <= 'f' {
        (c as u32) - ('a' as u32) + 10
    } else {
        (c as u32) - ('A' as u32) + 10
    }
}

/// Outcome of reading one token.
enum Scanned {
    Tok(Token),
    BadNumber,
    Abort,
}

/// Lexer state: the text, the read position and the tokens read so far.
pub(crate) struct Tokenizer {
    pub(crate) pos: usize,
    pub(crate) src: Vec<char>,
    pub(crate) toks: Vec<Token>,
}

impl Tokenizer {
    pub(crate) open spec fn wf(&self) -> bool {
        self.pos <= self.src.len()
    }

    pub(crate) fn new(src: Vec<char>) -> (r: Self)
        ensures
            r.pos == 0,
            r.src@ == src@,
            r.toks@ == Seq::<Token>::empty(),
    {
        Tokenizer { pos: 0, src, toks: Vec::new() }
    }

    pub(crate) fn at_end(&self) -> (r: bool)
        ensures
            r == (self.pos >= self.src.len()),
    {
        self.pos >= self.src.len()
    }

    pub(crate) fn src_idx(&self, idx: usize) -> (r: Option<char>)
        ensures
            r == (if idx < self.src.len() { Some(self.src@[idx as int]) } else { None::<char> }),
    {
        if idx < self.src.len() {
            Some(self.src[idx])
        } else {
            None
        }
    }

    pub(crate) fn peek(&self) -> (r: char)
        ensures
            r == char_at(self.src@, self.pos as int),
    {
        if self.at_end() {
            '\0'
        } else {
            self.src[self.pos]
        }
    }

    pub(crate) fn peek_n(&self, n: usize) -> (r: char)
        requires
            self.wf(),
        ensures
            r == char_at(self.src@, self.pos + n),
    {
        if n >= self.src.len() - self.pos {
            '\0'
        } else {
            self.src[self.pos + n]
        }
    }

    pub(crate) fn advance(&mut self) -> (r: char)
        requires
            old(self).wf(),
        ensures
            final(self).wf(),
            final(self).src@ == old(self).src@,
            final(self).toks@ == old(self).toks@,
            old(self).pos >= old(self).src.len() ==> r == '\0' && final(self).pos == old(self).pos,
            old(self).pos < old(self).src.len() ==> r == old(self).src@[old(self).pos as int]
                && final(self).pos == old(self).pos + 1,
    {
        if self.at_end() {
            '\0'
        } else {
            let c = self.src[self.pos];
            self.pos = self.pos + 1;
            c
        }
    }

    /// Moves `n` characters on and returns the character found there; the text must
    /// go on past that position.
    pub(crate) fn advance_n(&mut self, n: usize) -> (r: char)
        requires
            old(self).wf(),
            old(self).pos >= old(self).src.len() || old(self).pos + n < old(self).src.len(),
        ensures
            final(self).wf(),
            final(self).src@ == old(self).src@,
            final(self).toks@ == old(self).toks@,
            old(self).pos >= old(self).src.len() ==> r == '\0' && final(self).pos == old(self).pos,
            old(self).pos < old(self).src.len() ==> final(self).pos == old(self).pos + n,
    {
        if self.at_end() {
            '\0'
        } else {
            let c = self.src[self.pos + n];
            self.pos = self.pos + n;
            c
        }
    }

    pub(crate) fn skip_ws(&mut self)
        requires
            old(self).wf(),
        ensures
            final(self).wf(),
            final(self).src@ == old(self).src@,
            final(self).toks@ == old(self).toks@,
            final(self).pos == ws_end(old(self).src@, old(self).pos as int),
    {
        while ws(self.peek())
            invariant
                self.wf(),
                self.src@ == old(self).src@,
                self.toks@ == old(self).toks@,
                ws_end(self.src@, self.pos as int) == ws_end(old(self).src@, old(self).pos as int),
            decreases self.src.len() - self.pos,
        {
            self.advance();
        }
    }

    pub(crate) fn push(&mut self, tk: Token)
        ensures
            final(self).pos == old(self).pos,
            final(self).src@ == old(self).src@,
            final(self).toks@ == old(self).toks@.push(tk),
    {
        self.toks.push(tk);
    }

    pub(crate) fn starts_with(&self, w: &Vec<char>) -> (r: bool)
        requires
            self.wf(),
        ensures
            r == word_at(self.src@, self.pos as int, w@),
    {
        if w.len() > self.src.len() - self.pos {
            return false;
        }
        let mut k: usize = 0;
        while k < w.len()
            invariant
                self.pos + w.len() <= self.src.len(),
                k <= w.len(),
                forall|j: int| 0 <= j < k ==> self.src@[self.pos + j] == w@[j],
            decreases w.len() - k,
        {
            if self.src[self.pos + k] != w[k] {
                assert(self.src@.subrange(self.pos as int, self.pos + w.len())[k as int] != w@[k as int]);
                return false;
            }
            k = k + 1;
        }
        assert(self.src@.subrange(self.pos as int, self.pos + w.len()) =~= w@);
        true
    }

    pub(crate) fn kw(&self, w: &Vec<char>) -> (r: bool)
        requires
            self.wf(),
        ensures
            r == kw_at(self.src@, self.pos as int, w@),
    {
        if !self.starts_with(w) {
            return false;
        }
        let next = self.peek_n(w.len());
        !word_char(next)
    }

    pub(crate) fn is_keyword(&self) -> (r: bool)
        requires
            self.wf(),
        ensures
            r == keyword_at(self.src@, self.pos as int),
    {
        self.kw(&vec!['f', 'n']) || self.kw(&vec!['r', 'e', 't']) || self.kw(&vec!['e', 'l', 'i', 'f'])
            || self.kw(&vec!['e', 'l', 's', 'e']) || self.kw(&vec!['i', 'f']) || self.kw(
            &vec!['l', 'e', 't'],
        ) || self.kw(&vec!['t', 'r', 'u', 'e']) || self.kw(&vec!['f', 'a', 'l', 's', 'e'])
            || self.kw(&vec!['w', 'h', 'i', 'l', 'e'])
    }

    pub(crate) fn is_ident(&self) -> (r: bool)
        requires
            self.wf(),
        ensures
            r == ident_at(self.src@, self.pos as int),
    {
        (alpha(self.peek()) || self.peek() == '_') && !self.is_keyword()
    }

    /// The text between two positions.
    pub(crate) fn text(&self, a: usize, b: usize) -> (r: String)
        requires
            a <= b <= self.src.len(),
        ensures
            r@ == self.src@.subrange(a as int, b as int),
    {
        let mut out = String::new();
        let mut i = a;
        while i < b
            invariant
                a <= i <= b <= self.src.len(),
                out@ == self.src@.subrange(a as int, i as int),
            decreases b - i,
        {
            push_char(&mut out, self.src[i]);
            assert(self.src@.subrange(a as int, i + 1) =~= self.src@.subrange(a as int, i as int).push(self.src@[i as int]));
            i = i + 1;
        }
        out
    }

    /// Reads an identifier after white space.
    pub(crate) fn parse_idname(&mut self) -> (r: Result<String, LexerError>)
        requires
            old(self).wf(),
        ensures
            final(self).wf(),
            final(self).src@ == old(self).src@,
            final(self).toks@ == old(self).toks@,
            ({
                let s = old(self).src@;
                let p = ws_end(s, old(self).pos as int);
                if is_alpha(char_at(s, p)) || char_at(s, p) == '_' {
                    &&& r is Ok
                    &&& r->Ok_0@ == s.subrange(p, word_end(s, p))
                    &&& final(self).pos == word_end(s, p)
                } else {
                    &&& r is Err
                    &&& r->Err_0@ == LexerErrorView::ExpectedIdentifier
                    &&& final(self).pos == p
                }
            }),
    {
        self.skip_ws();
        if !alpha(self.peek()) && self.peek() != '_' {
            return Err(LexerError::ExpectedIdentifier);
        }
        let start = self.pos;
        while word_char(self.peek())
            invariant
                self.wf(),
                self.src@ == old(self).src@,
                self.toks@ == old(self).toks@,
                start <= self.pos,
                word_end(self.src@, start as int) == word_end(self.src@, self.pos as int),
            decreases self.src.len() - self.pos,
        {
            self.advance();
        }
        Ok(self.text(start, self.pos))
    }
}

} // verus!

verus! {

proof fn lemma_digits_step(s: Seq<char>, start: int, i: int, base: nat)
    requires
        0 <= start <= i < s.len(),
    ensures
        digits_value(s.subrange(start, i + 1), base) == digits_value(s.subrange(start, i), base)
            * base + digit_of(s[i]),
{
    let t = s.subrange(start, i + 1);
    assert(t.subrange(0, t.len() - 1) =~= s.subrange(start, i));
}

proof fn lemma_value_grows(v: nat, base: nat, d: nat)
    requires
        base >= 1,
    ensures
        v * base + d >= v,
{
    assert(v * base >= v) by (nonlinear_arith)
        requires
            base >= 1,
    ;
}

impl Tokenizer {
    /// Reads the digits of `base` from the current position; the result is their
    /// value, or `None` where it exceeds `i64::MAX`.
    fn scan_digits(&mut self, base: u32) -> (r: Option<i64>)
        requires
            old(self).wf(),
            base == 2 || base == 8 || base == 10 || base == 16,
        ensures
            final(self).wf(),
            final(self).src@ == old(self).src@,
            final(self).toks@ == old(self).toks@,
            final(self).pos == digits_end(old(self).src@, old(self).pos as int, base as nat),
            ({
                let v = digits_value(
                    old(self).src@.subrange(old(self).pos as int, final(self).pos as int),
                    base as nat,
                );
                match r {
                    Some(n) => n == v,
                    None => v > i64::MAX,
                }
            }),
    {
        let start = self.pos;
        let mut acc: u64 = 0;
        let mut overflow = false;
        while base_digit(self.peek(), base)
            invariant
                self.wf(),
                self.src@ == old(self).src@,
                self.toks@ == old(self).toks@,
                start == old(self).pos,
                start <= self.pos,
                base == 2 || base == 8 || base == 10 || base == 16,
                digits_end(self.src@, start as int, base as nat) == digits_end(
                    self.src@,
                    self.pos as int,
                    base as nat,
                ),
                !overflow ==> acc == digits_value(
                    self.src@.subrange(start as int, self.pos as int),
                    base as nat,
                ) && acc <= i64::MAX,
                overflow ==> digits_value(
                    self.src@.subrange(start as int, self.pos as int),
                    base as nat,
                ) > i64::MAX,
            decreases self.src.len() - self.pos,
        {
            let c = self.peek();
            let d = digit_val(c, base);
            proof {
                lemma_digits_step(self.src@, start as int, self.pos as int, base as nat);
                lemma_value_grows(
                    digits_value(self.src@.subrange(start as int, self.pos as int), base as nat),
                    base as nat,
                    d as nat,
                );
            }
            if !overflow {
                assert(acc as u128 * base as u128 <= 0x7fff_ffff_ffff_ffff * 16) by (nonlinear_arith)
                    requires
                        acc <= 0x7fff_ffff_ffff_ffff,
                        base <= 16,
                ;
                let next: u128 = acc as u128 * base as u128 + d as u128;
                if next > 0x7fff_ffff_ffff_ffff {
                    overflow = true;
                } else {
                    acc = next as u64;
                }
            }
            self.advance();
        }
        if overflow {
            None
        } else {
            Some(acc as i64)
        }
    }

    /// Reads a number literal at the current position.
    fn scan_number(&mut self) -> (r: Scanned)
        requires
            old(self).wf(),
        ensures
            final(self).wf(),
            final(self).src@ == old(self).src@,
            final(self).toks@ == old(self).toks@,
            ({
                let sv = number_token(old(self).src@, old(self).pos as int);
                match r {
                    Scanned::Tok(t) => sv == ScanView::Tok(t@, final(self).pos as int),
                    Scanned::BadNumber => sv == ScanView::BadNumber,
                    Scanned::Abort => sv == ScanView::Abort,
                }
            }),
    {
        let base: u32 = if self.starts_with(&vec!['0', 'x']) {
            16
        } else if self.starts_with(&vec!['0', 'o']) {
            8
        } else if self.starts_with(&vec!['0', 'b']) {
            2
        } else {
            10
        };
        if base != 10 {
            if self.src.len() - self.pos <= 2 {
                return Scanned::Abort;
            }
            self.advance_n(2);
            let start = self.pos;
            let v = self.scan_digits(base);
            if self.pos == start {
                return Scanned::BadNumber;
            }
            return match v {
                Some(n) => Scanned::Tok(TokenOf::Int(n)),
                None => Scanned::BadNumber,
            };
        }
        let start = self.pos;
        let v = self.scan_digits(10);
        if self.peek() == '.' {
            proof {
                lemma_digits_end_bounds(self.src@, start as int, 10);
            }
            self.advance();
            while digit(self.peek())
                invariant
                    self.wf(),
                    self.src@ == old(self).src@,
                    self.toks@ == old(self).toks@,
                    start == old(self).pos,
                    start < self.pos,
                    digits_end(self.src@, self.pos as int, 10) == digits_end(
                        old(self).src@,
                        digits_end(old(self).src@, start as int, 10) + 1,
                        10,
                    ),
                decreases self.src.len() - self.pos,
            {
                self.advance();
            }
            if self.pos == start + 1 {
                return Scanned::BadNumber;
            }
            return Scanned::Tok(TokenOf::Float(self.text(start, self.pos)));
        }
        if self.pos == start {
            return Scanned::BadNumber;
        }
        match v {
            Some(n) => Scanned::Tok(TokenOf::Int(n)),
            None => Scanned::BadNumber,
        }
    }

    /// Takes a token of `k` characters, which must not end the text.
    fn take_fixed(&mut self, k: usize, t: Token) -> (r: Scanned)
        requires
            old(self).wf(),
            old(self).pos < old(self).src.len(),
        ensures
            final(self).wf(),
            final(self).src@ == old(self).src@,
            final(self).toks@ == old(self).toks@,
            ({
                let sv = fixed(old(self).src@, old(self).pos as int, k as int, t@);
                match r {
                    Scanned::Tok(u) => sv == ScanView::Tok(u@, final(self).pos as int),
                    Scanned::BadNumber => false,
                    Scanned::Abort => sv == ScanView::Abort,
                }
            }),
    {
        if k >= self.src.len() - self.pos {
            Scanned::Abort
        } else {
            self.advance_n(k);
            Scanned::Tok(t)
        }
    }

    /// Takes a token of one character.
    fn take_one(&mut self, t: Token) -> (r: Scanned)
        requires
            old(self).wf(),
            old(self).pos < old(self).src.len(),
        ensures
            final(self).wf(),
            final(self).src@ == old(self).src@,
            final(self).toks@ == old(self).toks@,
            final(self).pos == old(self).pos + 1,
            r == Scanned::Tok(t),
    {
        self.advance();
        Scanned::Tok(t)
    }

    /// Reads the token at the current position.
    #[verifier::rlimit(60)]
    fn scan_token(&mut self) -> (r: Scanned)
        requires
            old(self).wf(),
        ensures
            final(self).wf(),
            final(self).src@ == old(self).src@,
            final(self).toks@ == old(self).toks@,
            ({
                let sv = scan(old(self).src@, old(self).pos as int);
                match r {
                    Scanned::Tok(t) => sv == ScanView::Tok(t@, final(self).pos as int),
                    Scanned::BadNumber => sv == ScanView::BadNumber,
                    Scanned::Abort => sv == ScanView::Abort,
                }
            }),
    {
        let cr = self.peek();
        let nx = self.peek_n(1);
        if cr == '"' {
            self.advance();
            let start = self.pos;
            while self.peek() != '"' && !self.at_end()
                invariant
                    self.wf(),
                    self.src@ == old(self).src@,
                    self.toks@ == old(self).toks@,
                    start <= self.pos,
                    start == old(self).pos + 1,
                    quote_end(self.src@, start as int) == quote_end(self.src@, self.pos as int),
                decreases self.src.len() - self.pos,
            {
                self.advance();
            }
            let buf = self.text(start, self.pos);
            self.advance();
            Scanned::Tok(TokenOf::String(buf))
        } else if self.is_keyword() {
            if self.starts_with(&vec!['f', 'n']) {
                self.take_fixed(2, TokenOf::Fn)
            } else if self.starts_with(&vec!['r', 'e', 't']) {
                self.take_fixed(3, TokenOf::Ret)
            } else if self.starts_with(&vec!['i', 'f']) {
                self.take_fixed(2, TokenOf::If)
            } else if self.starts_with(&vec!['e', 'l', 'i', 'f']) {
                self.take_fixed(4, TokenOf::Elif)
            } else if self.starts_with(&vec!['e', 'l', 's', 'e']) {
                self.take_fixed(4, TokenOf::Else)
            } else if self.starts_with(&vec!['l', 'e', 't']) {
                self.take_fixed(3, TokenOf::Let)
            } else if self.starts_with(&vec!['t', 'r', 'u', 'e']) {
                self.take_fixed(4, TokenOf::Bool(true))
            } else if self.starts_with(&vec!['f', 'a', 'l', 's', 'e']) {
                self.take_fixed(5, TokenOf::Bool(false))
            } else {
                self.take_fixed(5, TokenOf::While)
            }
        } else if cr == '(' {
            self.take_one(TokenOf::Lparen)
        } else if cr == ')' {
            self.take_one(TokenOf::Rparen)
        } else if cr == '{' {
            self.take_one(TokenOf::Lbrace)
        } else if cr == '}' {
            self.take_one(TokenOf::Rbrace)
        } else if cr == '[' {
            self.take_one(TokenOf::Lbrack)
        } else if cr == ']' {
            self.take_one(TokenOf::Rbrack)
        } else if cr == '|' && nx == '|' {
            self.take_fixed(2, TokenOf::Logor)
        } else if cr == '&' && nx == '&' {
            self.take_fixed(2, TokenOf::Logand)
        } else if cr == '=' && nx == '=' {
            self.take_fixed(2, TokenOf::Eq)
        } else if cr == '!' && nx == '=' {
            self.take_fixed(2, TokenOf::Neq)
        } else if cr == '|' {
            self.take_one(TokenOf::Bitor)
        } else if cr == '&' {
            self.take_one(TokenOf::Bitand)
        } else if cr == '^' {
            self.take_one(TokenOf::Bitxor)
        } else if cr == '>' {
            self.advance();
            if self.peek() == '=' {
                self.advance();
                Scanned::Tok(TokenOf::Ge)
            } else if self.peek() == '>' {
                self.advance();
                Scanned::Tok(TokenOf::Shr)
            } else {
                Scanned::Tok(TokenOf::Gt)
            }
        } else if cr == '<' {
            self.advance();
            if self.peek() == '=' {
                self.advance();
                Scanned::Tok(TokenOf::Le)
            } else if self.peek() == '<' {
                self.advance();
                Scanned::Tok(TokenOf::Shl)
            } else {
                Scanned::Tok(TokenOf::Lt)
            }
        } else if cr == '+' {
            self.take_one(TokenOf::Add)
        } else if cr == '-' {
            self.take_one(TokenOf::Min)
        } else if cr == '*' {
            self.advance();
            if self.peek() == '*' {
                self.advance();
                Scanned::Tok(TokenOf::Pwr)
            } else {
                Scanned::Tok(TokenOf::Mul)
            }
        } else if cr == '/' {
            self.take_one(TokenOf::Div)
        } else if cr == '%' {
            self.take_one(TokenOf::Mod)
        } else if cr == '!' {
            self.take_one(TokenOf::Not)
        } else if cr == '~' {
            self.take_one(TokenOf::Bnot)
        } else if cr == ',' {
            self.take_one(TokenOf::Comma)
        } else if cr == '=' {
            self.take_one(TokenOf::Assign)
        } else if alpha(cr) || cr == '_' {
            match self.parse_idname() {
                Ok(ident) => Scanned::Tok(TokenOf::Ident(ident)),
                Err(_) => Scanned::BadNumber,
            }
        } else if cr == ';' {
            self.take_one(TokenOf::Eos)
        } else {
            self.scan_number()
        }
    }
}

/// Outcome of lexing a text: its tokens, a lexing error, or `Aborted` on the inputs
/// where reading a token would index past the end of the text (which stops the
/// process rather than returning).
#[derive(Debug, PartialEq)]
pub enum Lexed {
    Tokens(Vec<Token>),
    Failed(LexerError),
    Aborted,
}

impl View for Lexed {
    type V = LexedView;

    open spec fn view(&self) -> LexedView {
        match self {
            Lexed::Tokens(ts) => LexedView::Tokens(tokens_view(ts@)),
            Lexed::Failed(e) => LexedView::Failed(e@),
            Lexed::Aborted => LexedView::Aborted,
        }
    }
}

/// Splits a text (whose imports are already expanded) into tokens, ending with `Eof`.
pub fn tokenize(src: Vec<char>) -> (r: Lexed)
    requires
        is_ascii_text(src@),
    ensures
        r@ == lex_spec(src@),
{
    let ghost s = src@;
    let mut tk = Tokenizer::new(src);
    assert(tokens_view(tk.toks@) =~= Seq::<TokenView>::empty());
    while !tk.at_end()
        invariant
            tk.wf(),
            tk.src@ == s,
            s == src@,
            lex_from(s, tk.pos as int, tokens_view(tk.toks@)) == lex_spec(s),
        decreases tk.src.len() - tk.pos,
    {
        let ghost pos0 = tk.pos as int;
        let ghost acc0 = tokens_view(tk.toks@);
        assert(lex_from(s, pos0, acc0) == lex_spec(s));
        tk.skip_ws();
        proof {
            lemma_ws_end_bounds(s, pos0);
            lemma_scan_advances(s, ws_end(s, pos0));
        }
        match tk.scan_token() {
            Scanned::Tok(t) => {
                tk.push(t);
                assert(tokens_view(tk.toks@) =~= acc0.push(t@));
            },
            Scanned::BadNumber => {
                assert(lex_from(s, pos0, acc0) == LexedView::Failed(LexerErrorView::BadNumber));
                return Lexed::Failed(LexerError::BadNumber);
            },
            Scanned::Abort => {
                assert(lex_from(s, pos0, acc0) == LexedView::Aborted);
                return Lexed::Aborted;
            },
        }
    }
    let ghost acc = tokens_view(tk.toks@);
    tk.push(TokenOf::Eof);
    assert(tokens_view(tk.toks@) =~= acc.push(TokenOf::Eof));
    Lexed::Tokens(tk.toks)
}

proof fn lemma_ws_end_bounds(s: Seq<char>, i: int)
    requires
        0 <= i <= s.len(),
    ensures
        i <= ws_end(s, i) <= s.len(),
    decreases s.len() - i,
{
    if i < s.len() && is_ws(s[i]) {
        lemma_ws_end_bounds(s, i + 1);
    }
}

proof fn lemma_quote_end_bounds(s: Seq<char>, i: int)
    requires
        0 <= i <= s.len(),
    ensures
        i <= quote_end(s, i) <= s.len(),
    decreases s.len() - i,
{
    if i < s.len() && s[i] != '"' {
        lemma_quote_end_bounds(s, i + 1);
    }
}

proof fn lemma_word_end_bounds(s: Seq<char>, i: int)
    requires
        0 <= i <= s.len(),
    ensures
        i <= word_end(s, i) <= s.len(),
    decreases s.len() - i,
{
    if i < s.len() && is_word_char(s[i]) {
        lemma_word_end_bounds(s, i + 1);
    }
}

proof fn lemma_digits_end_bounds(s: Seq<char>, i: int, base: nat)
    requires
        0 <= i <= s.len(),
    ensures
        i <= digits_end(s, i, base) <= s.len(),
    decreases s.len() - i,
{
    if i < s.len() && in_base(s[i], base) {
        lemma_digits_end_bounds(s, i + 1, base);
    }
}

/// Every token read at a position ends after it and within the text.
pub proof fn lemma_scan_advances(s: Seq<char>, p: int)
    requires
        0 <= p <= s.len(),
    ensures
        scan(s, p) matches ScanView::Tok(_, n) ==> p < n <= s.len(),
{
    if p < s.len() {
        lemma_quote_end_bounds(s, p + 1);
    }
    if p < s.len() {
        lemma_word_end_bounds(s, p + 1);
    }
    lemma_digits_end_bounds(s, p, 10);
    if p + 2 <= s.len() {
        lemma_digits_end_bounds(s, p + 2, 16);
        lemma_digits_end_bounds(s, p + 2, 8);
        lemma_digits_end_bounds(s, p + 2, 2);
    }
    let d = digits_end(s, p, 10);
    if d < s.len() {
        lemma_digits_end_bounds(s, d + 1, 10);
    }
}

} // verus!

verus! {

/// A successful lexing ends with exactly one `Eof`, as the last token.
pub proof fn law_lex_ends_with_eof(s: Seq<char>)
    ensures
        lex_spec(s) matches LexedView::Tokens(ts) ==> {
            &&& ts.len() >= 1
            &&& ts.last() == TokenOf::<Seq<char>>::Eof
            &&& forall|i: int| 0 <= i < ts.len() - 1 ==> ts[i] != TokenOf::<Seq<char>>::Eof
        },
{
    lemma_lex_from_eof(s, 0, Seq::empty());
}

proof fn lemma_scan_not_eof(s: Seq<char>, p: int)
    ensures
        scan(s, p) matches ScanView::Tok(t, _) ==> t != TokenOf::<Seq<char>>::Eof,
{
}

proof fn lemma_lex_from_eof(s: Seq<char>, pos: int, acc: Seq<TokenView>)
    requires
        forall|i: int| 0 <= i < acc.len() ==> acc[i] != TokenOf::<Seq<char>>::Eof,
    ensures
        lex_from(s, pos, acc) matches LexedView::Tokens(ts) ==> {
            &&& ts.len() >= 1
            &&& ts.last() == TokenOf::<Seq<char>>::Eof
            &&& forall|i: int| 0 <= i < ts.len() - 1 ==> ts[i] != TokenOf::<Seq<char>>::Eof
        },
    decreases s.len() - pos,
{
    if 0 <= pos < s.len() {
        let p = ws_end(s, pos);
        lemma_scan_not_eof(s, p);
        if let ScanView::Tok(t, n) = scan(s, p) {
            if pos < n <= s.len() {
                let acc2 = acc.push(t);
                assert forall|i: int| 0 <= i < acc2.len() implies acc2[i] != TokenOf::<Seq<char>>::Eof by {
                    if i < acc.len() {
                        assert(acc2[i] == acc[i]);
                    }
                }
                lemma_lex_from_eof(s, n, acc2);
            }
        }
    } else {
        let ts = acc.push(TokenOf::Eof);
        assert forall|i: int| 0 <= i < ts.len() - 1 implies ts[i] != TokenOf::<Seq<char>>::Eof by {
            assert(ts[i] == acc[i]);
        }
    }
}

} // verus!
