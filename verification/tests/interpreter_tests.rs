use f4na::ast::{parse, AssignStmt, Expr, LetStmt, Parser, Stmt};
use f4na::ast_expr::parse_expr;
use f4na::ast_stmt::parse_stmt;
use f4na::error::{ParserError, RuntimeError};
use f4na::eval::Builtin;
use f4na::machine::{Action, FloatWork, Machine, PanicReason};
use f4na::tokenizer::{tokenize, Lexed, Token, TokenOf};
use f4na::value::Value;

fn lex(s: &str) -> Vec<Token> {
    match tokenize(s.chars().collect()) {
        Lexed::Tokens(ts) => ts,
        other => panic!("lexing failed: {:?}", other),
    }
}

fn program(s: &str) -> Vec<Stmt> {
    parse(lex(s)).expect("parse error")
}

fn show(v: &Value) -> String {
    v.to_text()
}

/// How a run ended, with what the program printed.
#[derive(Debug, PartialEq)]
enum End {
    Finished(Result<(), RuntimeError>),
    Panic(PanicReason),
    Float,
}

fn run(src: &str) -> (String, End) {
    let mut m = Machine::new(program(src));
    let mut out = String::new();
    loop {
        match m.step() {
            Action::Continue => {}
            Action::Builtin { func, args } => {
                match func {
                    Builtin::Print => args.iter().for_each(|a| out.push_str(&show(a))),
                    Builtin::Println => {
                        args.iter().for_each(|a| out.push_str(&show(a)));
                        out.push('\n');
                    }
                    other => panic!("unexpected built-in {:?}", other),
                }
                m.resume(Ok(Value::Int(0)));
            }
            Action::Float(_) => return (out, End::Float),
            Action::Panic(p) => return (out, End::Panic(p)),
            Action::Finished(r) => return (out, End::Finished(r)),
        }
    }
}

fn ok(src: &str) -> String {
    let (out, end) = run(src);
    assert_eq!(end, End::Finished(Ok(())), "output so far: {}", out);
    out
}

#[test]
fn parse_gives_precedence_to_multiplication() {
    let stmts = program("let x = 1 + 2 * 3;");
    assert_eq!(
        stmts,
        vec![Stmt::Let(LetStmt {
            name: "x".to_string(),
            expr: Expr::Binary {
                op: TokenOf::Add,
                left: Box::new(Expr::Literal { val: Value::Int(1) }),
                right: Box::new(Expr::Binary {
                    op: TokenOf::Mul,
                    left: Box::new(Expr::Literal { val: Value::Int(2) }),
                    right: Box::new(Expr::Literal { val: Value::Int(3) }),
                }),
            },
        })]
    );
}

#[test]
fn parse_assignment() {
    assert_eq!(
        program("x = 4;"),
        vec![Stmt::Assign(AssignStmt { name: "x".to_string(), expr: Expr::Literal { val: Value::Int(4) } })]
    );
}

#[test]
fn parse_requires_statement_end() {
    assert_eq!(
        parse(lex("let x = 1")),
        Err(ParserError::UnexpectedToken { expected: Some(TokenOf::Eos), got: TokenOf::Eof })
    );
}

#[test]
fn parse_expr_stops_before_semicolon() {
    let mut p = Parser { tokens: lex("a[1] ** 2;"), pos: 0, use_eos: true };
    let e = parse_expr(&mut p).expect("parse error");
    assert_eq!(
        e,
        Expr::Binary {
            op: TokenOf::Pwr,
            left: Box::new(Expr::Index {
                expr: Box::new(Expr::Ident { ident: "a".to_string() }),
                idx: Box::new(Expr::Literal { val: Value::Int(1) }),
            }),
            right: Box::new(Expr::Literal { val: Value::Int(2) }),
        }
    );
    assert_eq!(p.pos, 6);
}

#[test]
fn run_arithmetic() {
    assert_eq!(ok("println(1 + 2 * 3, \" \", 7 % 3, \" \", 1 << 4);"), "7 1 16\n");
}

#[test]
fn run_remainder_takes_the_sign_of_the_dividend() {
    assert_eq!(ok("println(0 - 7 % 3);"), "-1\n");
    assert_eq!(ok("let a = 0 - 7; println(a % 3);"), "-1\n");
}

#[test]
fn run_variables_and_assignment() {
    assert_eq!(ok("let x = 1; x = x + 41; println(x);"), "42\n");
}

#[test]
fn run_function_with_return() {
    assert_eq!(ok("fn add(a, b) { ret a + b; } println(add(2, 3));"), "5\n");
}

#[test]
fn run_function_without_return_gives_zero() {
    assert_eq!(ok("fn f() { let y = 1; } println(f());"), "0\n");
}

#[test]
fn run_error_inside_function_reaches_the_caller() {
    assert_eq!(
        run("fn f() { ret nope; } println(f());"),
        (String::new(), End::Finished(Err(RuntimeError::UnknownIdent("nope".to_string()))))
    );
}

#[test]
fn run_recursion() {
    assert_eq!(
        ok("fn fact(n) { if n <= 1 { ret 1; } ret n * fact(n - 1); } println(fact(10));"),
        "3628800\n"
    );
}

#[test]
fn run_function_sees_variables_of_its_declaration() {
    assert_eq!(ok("let a = 1; fn f() { ret a; } a = 2; println(f(), a);"), "12\n");
}

#[test]
fn run_while_loop() {
    assert_eq!(ok("let i = 0; while i < 3 { print(i); i = i + 1; } println();"), "012\n");
}

#[test]
fn run_if_elif_else() {
    let src = "fn k(x) { if x == 1 { ret \"one\"; } elif x == 2 { ret \"two\"; } else { ret \"many\"; } } \
               println(k(1), k(2), k(3));";
    assert_eq!(ok(src), "onetwomany\n");
}

#[test]
fn run_strings_and_built_ins() {
    assert_eq!(
        ok("let s = \"ab\" + \"cd\"; println(s, strlen(s), typeof(s), typeof(1), typeof(true), typeof({1}));"),
        "abcd4stringintboolarray\n"
    );
}

#[test]
fn run_arrays() {
    assert_eq!(ok("let a = {1, 2} + 3; println(a, a[2]);"), "{1, 2, 3 }3\n");
}

#[test]
fn run_logic_and_comparison() {
    assert_eq!(ok("println(1 < 2 && 2 >= 2, \" \", !true || 0, \" \", ~0);"), "true false -1\n");
}

#[test]
fn run_float_plus_int_is_a_type_error() {
    assert_eq!(run("let x = 1.5 + 2;").1, End::Finished(Err(RuntimeError::TypeError("Unknown type".to_string()))));
}

#[test]
fn run_unknown_variable_is_an_error() {
    assert_eq!(run("println(zz);").1, End::Finished(Err(RuntimeError::UnknownIdent("zz".to_string()))));
}

#[test]
fn run_assignment_to_unknown_variable_is_an_error() {
    assert_eq!(run("zz = 1;").1, End::Finished(Err(RuntimeError::UnknownIdent("zz".to_string()))));
}

#[test]
fn run_unknown_function_is_an_error() {
    assert_eq!(run("nope();").1, End::Finished(Err(RuntimeError::UnknownFunction("nope".to_string()))));
}

#[test]
fn run_wrong_argument_count() {
    assert_eq!(
        run("fn f(a) { ret a; } f(1, 2);").1,
        End::Finished(Err(RuntimeError::WrongArgCount { expected: 1, got: 2 }))
    );
    assert_eq!(run("strlen();").1, End::Finished(Err(RuntimeError::WrongArgCount { expected: 1, got: 0 })));
}

#[test]
fn run_type_errors() {
    assert_eq!(
        run("let x = \"a\" - 1;").1,
        End::Finished(Err(RuntimeError::TypeError("invalid types for -".to_string())))
    );
    assert_eq!(
        run("let x = 1 / 0;").1,
        End::Finished(Err(RuntimeError::TypeError("division by zero".to_string())))
    );
    assert_eq!(
        run("let x = 5[0];").1,
        End::Finished(Err(RuntimeError::TypeError("cannot index non-array type".to_string())))
    );
    assert_eq!(
        run("let x = \"a\" < 1;").1,
        End::Finished(Err(RuntimeError::TypeError("cannot compare strings with <".to_string())))
    );
}

#[test]
fn run_top_level_return_ends_the_program() {
    assert_eq!(run("ret 3; println(1);"), (String::new(), End::Finished(Err(RuntimeError::Return(Value::Int(3))))));
}

#[test]
fn run_index_out_of_bounds_stops() {
    assert_eq!(run("let a = {1}; println(a[5]);").1, End::Panic(PanicReason::IndexOutOfBounds { len: 1, index: 5 }));
}

#[test]
fn run_overflow_stops() {
    assert_eq!(run("let x = 9223372036854775807 + 1;").1, End::Panic(PanicReason::AddOverflow));
    assert_eq!(run("let x = 1 << 64;").1, End::Panic(PanicReason::ShlOverflow));
}

#[test]
fn run_unary_minus_is_not_evaluated() {
    assert_eq!(run("let x = 1; let y = -x;").1, End::Panic(PanicReason::BadExpression));
}

#[test]
fn run_float_work_is_asked_of_the_caller() {
    let mut m = Machine::new(program("let x = 2 + 1.5;"));
    let mut asked = None;
    for _ in 0..20 {
        match m.step() {
            Action::Continue => {}
            Action::Float(w) => {
                asked = Some(w);
                break;
            }
            other => panic!("unexpected action {:?}", other),
        }
    }
    assert_eq!(
        asked,
        Some(FloatWork::Binary { op: TokenOf::Add, left: Value::Int(2), right: Value::Float("1.5".to_string()) })
    );
    m.resume(Ok(Value::Float("3.5".to_string())));
    loop {
        match m.step() {
            Action::Continue => {}
            Action::Finished(r) => {
                assert_eq!(r, Ok(()));
                break;
            }
            other => panic!("unexpected action {:?}", other),
        }
    }
}

#[test]
fn run_built_in_request_carries_the_arguments() {
    let mut m = Machine::new(program("let s = input(\"name? \");"));
    loop {
        match m.step() {
            Action::Continue => {}
            Action::Builtin { func, args } => {
                assert_eq!(func, Builtin::Input);
                assert_eq!(args, vec![Value::String("name? ".to_string())]);
                break;
            }
            other => panic!("unexpected action {:?}", other),
        }
    }
}

#[test]
fn run_built_in_error_is_raised() {
    let mut m = Machine::new(program("println(1);"));
    loop {
        match m.step() {
            Action::Continue => {}
            Action::Builtin { .. } => m.resume(Err(RuntimeError::TypeError("io".to_string()))),
            Action::Finished(r) => {
                assert_eq!(r, Err(RuntimeError::TypeError("io".to_string())));
                break;
            }
            other => panic!("unexpected action {:?}", other),
        }
    }
}

#[test]
fn parse_caret_between_operands_is_not_taken() {
    // The `^` level of the grammar reads `&`, so `^` is never a binary operator.
    assert_eq!(
        parse(lex("let x = 1 ^ 2;")),
        Err(ParserError::UnexpectedToken { expected: Some(TokenOf::Eos), got: TokenOf::Bitxor })
    );
    assert_eq!(ok("println(6 & 3 | 8);"), "10\n");
}

#[test]
fn expect_reports_the_wanted_and_the_found_token() {
    let mut p = Parser { tokens: lex("a;"), pos: 0, use_eos: true };
    assert_eq!(
        p.expect(TokenOf::Lparen),
        Err(ParserError::UnexpectedToken { expected: Some(TokenOf::Lparen), got: TokenOf::Ident("a".to_string()) })
    );
    assert_eq!(p.pos, 0);
    assert_eq!(p.expect(TokenOf::Ident("a".to_string())), Ok(TokenOf::Ident("a".to_string())));
    assert_eq!(p.pos, 1);
}

#[test]
fn parse_stmt_errors() {
    let mut p1 = Parser {
        tokens: vec![TokenOf::Let, TokenOf::Int(1), TokenOf::Assign, TokenOf::Int(2), TokenOf::Eos, TokenOf::Eof],
        pos: 0,
        use_eos: true,
    };
    assert_eq!(parse_stmt(&mut p1), Err(ParserError::ExpectedIdent));
    let mut p2 = Parser {
        tokens: vec![TokenOf::Let, TokenOf::Ident("x".to_string()), TokenOf::Int(1), TokenOf::Eos, TokenOf::Eof],
        pos: 0,
        use_eos: true,
    };
    assert_eq!(parse_stmt(&mut p2), Err(ParserError::ExpectedToken(TokenOf::Assign)));
    let mut p3 = Parser {
        tokens: vec![TokenOf::Ident("x".to_string()), TokenOf::Assign, TokenOf::Int(1), TokenOf::Eof],
        pos: 0,
        use_eos: true,
    };
    assert_eq!(
        parse_stmt(&mut p3),
        Err(ParserError::UnexpectedToken { expected: Some(TokenOf::Eos), got: TokenOf::Eof })
    );
}

#[test]
fn parse_missing_operand_is_an_unexpected_token() {
    assert_eq!(parse(lex("let x = ;")), Err(ParserError::UnexpectedToken { expected: None, got: TokenOf::Eos }));
}
