use f4na::ast::{parse, AssignStmt, Expr, ExprStmt, ForICMStmt, ForInStmt, LetStmt, Stmt};
use f4na::error::RuntimeError;
use f4na::eval_expr::{eval_binary, eval_unary, Outcome};
use f4na::machine::{Action, Machine};
use f4na::tokenizer::{tokenize, Lexed, TokenOf};
use f4na::value::Value;

fn program(s: &str) -> Vec<Stmt> {
    match tokenize(s.chars().collect()) {
        Lexed::Tokens(ts) => parse(ts).expect("parse error"),
        other => panic!("lexing failed: {:?}", other),
    }
}

/// Runs a program whose only built-in calls are `print` and `println`.
fn run_stmts(stmts: Vec<Stmt>) -> (String, Result<(), RuntimeError>, Machine) {
    let mut m = Machine::new(stmts);
    let mut out = String::new();
    loop {
        match m.step() {
            Action::Continue => {}
            Action::Builtin { args, .. } => {
                args.iter().for_each(|a| out.push_str(&a.to_text()));
                m.resume(Ok(Value::Int(0)));
            }
            Action::Finished(r) => return (out, r, m),
            other => panic!("unexpected action {:?}", other),
        }
    }
}

fn ident(s: &str) -> Expr {
    Expr::Ident { ident: s.to_string() }
}

fn lit(n: i64) -> Expr {
    Expr::Literal { val: Value::Int(n) }
}

fn print_of(e: Expr) -> Stmt {
    Stmt::Expr(ExprStmt { expr: Expr::Call { ident: "print".to_string(), args: vec![e] } })
}

#[test]
fn halted_machine_stays_halted() {
    let (_, r, mut m) = run_stmts(program("let x = 1;"));
    assert_eq!(r, Ok(()));
    for _ in 0..3 {
        assert_eq!(m.step(), Action::Continue);
    }
    assert_eq!(m.env.vars.get(&"x".to_string()), Some(&Value::Int(1)));
}

#[test]
fn let_then_read_gives_the_value_back() {
    let (out, r, m) = run_stmts(program("let x = 7; print(x);"));
    assert_eq!((out.as_str(), r), ("7", Ok(())));
    assert_eq!(m.env.vars.get(&"x".to_string()), Some(&Value::Int(7)));
}

#[test]
fn return_restores_the_callers_variables() {
    let (out, r, _) = run_stmts(program("let a = 1; fn f() { let a = 5; ret a; } print(f(), a);"));
    assert_eq!((out.as_str(), r), ("51", Ok(())));
}

#[test]
fn for_in_over_integers_restores_the_variable() {
    let stmts = vec![
        Stmt::Let(LetStmt { name: "x".to_string(), expr: lit(9) }),
        Stmt::ForIn(ForInStmt { lhs: ident("x"), rhs: lit(3), block: vec![print_of(ident("x"))] }),
        print_of(ident("x")),
    ];
    let (out, r, _) = run_stmts(stmts);
    assert_eq!((out.as_str(), r), ("0129", Ok(())));
}

#[test]
fn for_in_over_a_new_name_removes_it_afterwards() {
    let stmts = vec![Stmt::ForIn(ForInStmt {
        lhs: ident("c"),
        rhs: Expr::Literal { val: Value::String("ab".to_string()) },
        block: vec![print_of(ident("c"))],
    })];
    let (out, r, m) = run_stmts(stmts);
    assert_eq!((out.as_str(), r), ("ab", Ok(())));
    assert!(!m.env.vars.contains_key(&"c".to_string()));
}

#[test]
fn for_in_over_an_array() {
    let stmts = vec![Stmt::ForIn(ForInStmt {
        lhs: ident("v"),
        rhs: Expr::ArrayLiteral { members: vec![lit(4), Expr::Literal { val: Value::Bool(true) }] },
        block: vec![print_of(ident("v"))],
    })];
    assert_eq!(run_stmts(stmts).0, "4true");
}

#[test]
fn for_in_over_a_bool_is_an_error() {
    let stmts = vec![Stmt::ForIn(ForInStmt {
        lhs: ident("v"),
        rhs: Expr::Literal { val: Value::Bool(true) },
        block: vec![],
    })];
    assert_eq!(run_stmts(stmts).1, Err(RuntimeError::TypeError("cannot use bool for 'for in'".to_string())));
}

#[test]
fn for_in_needs_a_name() {
    let stmts = vec![Stmt::ForIn(ForInStmt { lhs: lit(1), rhs: lit(2), block: vec![] })];
    assert_eq!(run_stmts(stmts).1, Err(RuntimeError::TypeError("expected identifier for 'for in'".to_string())));
}

#[test]
fn for_with_init_condition_and_step() {
    let stmts = vec![Stmt::ForICM(ForICMStmt {
        init: Box::new(Stmt::Let(LetStmt { name: "i".to_string(), expr: lit(0) })),
        cond: Expr::Binary { op: TokenOf::Lt, left: Box::new(ident("i")), right: Box::new(lit(3)) },
        fmod: Box::new(Stmt::Assign(AssignStmt {
            name: "i".to_string(),
            expr: Expr::Binary { op: TokenOf::Add, left: Box::new(ident("i")), right: Box::new(lit(1)) },
        })),
        block: vec![print_of(ident("i"))],
    })];
    let (out, r, m) = run_stmts(stmts);
    assert_eq!((out.as_str(), r), ("012", Ok(())));
    assert_eq!(m.env.vars.get(&"i".to_string()), Some(&Value::Int(3)));
}

#[test]
fn continue_and_break_do_nothing() {
    let stmts = vec![Stmt::Continue, print_of(lit(1)), Stmt::Break, print_of(lit(2))];
    assert_eq!(run_stmts(stmts).0, "12");
}

#[test]
fn equal_and_not_equal_are_opposite() {
    for (a, b) in [(Value::Int(1), Value::Bool(true)), (Value::Int(2), Value::Int(3))] {
        let eq = eval_binary(TokenOf::Eq, a.duplicate(), b.duplicate());
        let ne = eval_binary(TokenOf::Neq, a, b);
        match (eq, ne) {
            (Outcome::Done(Ok(Value::Bool(x))), Outcome::Done(Ok(Value::Bool(y)))) => assert_eq!(x, !y),
            other => panic!("unexpected outcomes {:?}", other),
        }
    }
}

#[test]
fn order_swaps() {
    let lt = eval_binary(TokenOf::Lt, Value::Int(1), Value::Bool(true));
    let gt = eval_binary(TokenOf::Gt, Value::Bool(true), Value::Int(1));
    assert_eq!(lt, Outcome::Done(Ok(Value::Bool(false))));
    assert_eq!(lt, gt);
    let le = eval_binary(TokenOf::Le, Value::Int(1), Value::Int(1));
    let ge = eval_binary(TokenOf::Ge, Value::Int(1), Value::Int(1));
    assert_eq!(le, Outcome::Done(Ok(Value::Bool(true))));
    assert_eq!(le, ge);
}

#[test]
fn logic_commutes() {
    let a = eval_binary(TokenOf::Logand, Value::Int(3), Value::String("s".to_string()));
    let b = eval_binary(TokenOf::Logand, Value::String("s".to_string()), Value::Int(3));
    assert_eq!(a, Outcome::Done(Ok(Value::Bool(false))));
    assert_eq!(a, b);
    let c = eval_binary(TokenOf::Logor, Value::Int(0), Value::Bool(true));
    let d = eval_binary(TokenOf::Logor, Value::Bool(true), Value::Int(0));
    assert_eq!(c, Outcome::Done(Ok(Value::Bool(true))));
    assert_eq!(c, d);
}

#[test]
fn integer_arithmetic_commutes() {
    assert_eq!(eval_binary(TokenOf::Add, Value::Int(2), Value::Int(40)), Outcome::Done(Ok(Value::Int(42))));
    assert_eq!(eval_binary(TokenOf::Add, Value::Int(40), Value::Int(2)), Outcome::Done(Ok(Value::Int(42))));
    assert_eq!(eval_binary(TokenOf::Mul, Value::Int(-3), Value::Int(5)), Outcome::Done(Ok(Value::Int(-15))));
    assert_eq!(eval_binary(TokenOf::Mul, Value::Int(5), Value::Int(-3)), Outcome::Done(Ok(Value::Int(-15))));
}

#[test]
fn not_twice_gives_the_value_back() {
    for v in [Value::Int(41), Value::Int(i64::MIN), Value::Bool(false)] {
        let once = match eval_unary(TokenOf::Not, v.duplicate()) {
            Outcome::Done(Ok(w)) => w,
            other => panic!("unexpected outcome {:?}", other),
        };
        assert_eq!(eval_unary(TokenOf::Not, once), Outcome::Done(Ok(v)));
    }
}

#[test]
fn plain_expression_evaluates_to_its_value() {
    let (out, r, _) = run_stmts(program("let a = {10, 20, 30}; let b = a[1] + 2 * 3 - a[0]; print(b);"));
    assert_eq!((out.as_str(), r), ("16", Ok(())));
}

#[test]
fn float_condition_is_asked_of_the_caller() {
    let mut m = Machine::new(program("if 0.5 { print(1); }"));
    loop {
        match m.step() {
            Action::Continue => {}
            Action::Float(w) => {
                assert_eq!(w, f4na::machine::FloatWork::Truth(Value::Float("0.5".to_string())));
                break;
            }
            other => panic!("unexpected action {:?}", other),
        }
    }
    m.resume(Ok(Value::Bool(true)));
    loop {
        match m.step() {
            Action::Continue => {}
            Action::Builtin { args, .. } => {
                assert_eq!(args, vec![Value::Int(1)]);
                m.resume(Ok(Value::Int(0)));
            }
            Action::Finished(r) => {
                assert_eq!(r, Ok(()));
                break;
            }
            other => panic!("unexpected action {:?}", other),
        }
    }
}

#[test]
fn call_binds_each_parameter_to_its_argument() {
    let (out, r, _) = run_stmts(program("let c = 5; let a = 100; fn g(a, b) { ret a - b + c; } print(g(10, 3));"));
    assert_eq!((out.as_str(), r), ("12", Ok(())));
}

#[test]
fn call_without_return_restores_the_callers_variables() {
    let (out, r, m) = run_stmts(program("let k = 1; fn g(a) { let z = a; k = 7; } print(g(5), k);"));
    assert_eq!((out.as_str(), r), ("01", Ok(())));
    assert!(!m.env.vars.contains_key(&"z".to_string()));
    assert!(!m.env.vars.contains_key(&"a".to_string()));
    assert_eq!(m.env.vars.entries.len(), 1);
}

#[test]
fn error_in_a_call_restores_the_callers_variables_and_goes_on() {
    let mut m = Machine::new(program("let k = 1; fn h() { let q = 2; ret undef; } h();"));
    let r = loop {
        match m.step() {
            Action::Continue => {}
            Action::Finished(r) => break r,
            other => panic!("unexpected action {:?}", other),
        }
    };
    assert_eq!(r, Err(RuntimeError::UnknownIdent("undef".to_string())));
    assert_eq!(m.env.vars.get(&"k".to_string()), Some(&Value::Int(1)));
    assert!(!m.env.vars.contains_key(&"q".to_string()));
}

#[test]
fn for_in_after_a_call_without_return_restores_the_right_value() {
    let stmts = vec![
        Stmt::Let(LetStmt { name: "x".to_string(), expr: lit(9) }),
        program("fn g() { let x = 4; }").pop().unwrap(),
        Stmt::ForIn(ForInStmt {
            lhs: ident("x"),
            rhs: Expr::Call { ident: "g".to_string(), args: vec![] },
            block: vec![print_of(ident("x"))],
        }),
        print_of(ident("x")),
    ];
    let (out, r, _) = run_stmts(stmts);
    assert_eq!((out.as_str(), r), ("9", Ok(())));
}

/// Runs `first` to its end, then `second` in the variables `first` left, if
/// `first` ended without error.
fn run_in_turn(first: &str, second: &str) -> (String, Result<(), RuntimeError>, Machine) {
    let (out1, r1, mut m) = run_stmts(program(first));
    if r1.is_err() {
        return (out1, r1, m);
    }
    m.stack = vec![f4na::machine::Frame::Block { stmts: program(second), next: 0 }];
    m.ctrl = f4na::machine::Ctrl::Done;
    let mut out = out1;
    loop {
        match m.step() {
            Action::Continue => {}
            Action::Builtin { args, .. } => {
                args.iter().for_each(|a| out.push_str(&a.to_text()));
                m.resume(Ok(Value::Int(0)));
            }
            Action::Finished(r) => return (out, r, m),
            other => panic!("unexpected action {:?}", other),
        }
    }
}

#[test]
fn concatenated_blocks_run_as_one_after_the_other() {
    let first = "let a = 1; fn f(x) { ret x * 10; } print(a);";
    let second = "a = f(a + 1); print(a);";
    let (out_all, r_all, m_all) = run_stmts(program(&format!("{} {}", first, second)));
    let (out_turn, r_turn, m_turn) = run_in_turn(first, second);
    assert_eq!(out_all, "120");
    assert_eq!((out_all, r_all), (out_turn, r_turn));
    assert_eq!(m_all.env.vars.get(&"a".to_string()), Some(&Value::Int(20)));
    assert_eq!(m_turn.env.vars.get(&"a".to_string()), Some(&Value::Int(20)));
}

#[test]
fn an_error_in_the_first_block_skips_the_second() {
    let first = "print(1); let b = nope;";
    let second = "print(2);";
    let (out_all, r_all, _) = run_stmts(program(&format!("{} {}", first, second)));
    let (out_turn, r_turn, _) = run_in_turn(first, second);
    assert_eq!(out_all, "1");
    assert_eq!(r_all, Err(RuntimeError::UnknownIdent("nope".to_string())));
    assert_eq!((out_all, r_all), (out_turn, r_turn));
}
