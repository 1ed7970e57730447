use f4na::build_env::{build_env, c_strlen, c_typeof};
use f4na::error::RuntimeError;
use f4na::eval::{Builtin, BuiltinFn};
use f4na::table::Table;
use f4na::value::Value;

fn type_error(s: &str) -> Result<Value, RuntimeError> {
    Err(RuntimeError::TypeError(s.to_string()))
}

fn s(x: &str) -> Value {
    Value::String(x.to_string())
}

#[test]
fn add_values() {
    assert_eq!(Value::Int(2).add(Value::Int(3)), Ok(Value::Int(5)));
    assert_eq!(s("ab").add(s("c")), Ok(s("abc")));
    assert_eq!(Value::Array(vec![Value::Int(1)]).add(s("x")), Ok(Value::Array(vec![Value::Int(1), s("x")])));
    assert_eq!(Value::Bool(true).add(Value::Int(1)), type_error("Unknown type"));
}

#[test]
fn subtract_and_multiply() {
    assert_eq!(Value::Int(2).sub(Value::Int(5)), Ok(Value::Int(-3)));
    assert_eq!(Value::Int(-4).mul(Value::Int(6)), Ok(Value::Int(-24)));
    assert_eq!(s("a").sub(Value::Int(1)), type_error("invalid types for -"));
    assert_eq!(s("a").mul(Value::Int(1)), type_error("invalid types for *"));
}

#[test]
fn divide_by_zero_and_bad_types() {
    assert_eq!(Value::Int(1).div(Value::Int(0)), type_error("division by zero"));
    assert_eq!(s("a").div(Value::Int(2)), type_error("invalid types for /"));
}

#[test]
fn remainder() {
    assert_eq!(Value::Int(7).rem(Value::Int(3)), Ok(Value::Int(1)));
    assert_eq!(Value::Int(-7).rem(Value::Int(3)), Ok(Value::Int(-1)));
    assert_eq!(Value::Int(7).rem(Value::Int(-3)), Ok(Value::Int(1)));
    assert_eq!(Value::Int(7).rem(Value::Int(0)), type_error("modulo by zero"));
    assert_eq!(Value::Bool(true).rem(Value::Int(2)), type_error("% requires integers"));
}

#[test]
fn negation_and_not() {
    assert_eq!(Value::Int(5).neg(), Ok(Value::Int(-5)));
    assert_eq!(s("a").neg(), type_error("unary - requires numeric type"));
    assert_eq!(Value::Bool(true).not(), Ok(Value::Bool(false)));
    assert_eq!(Value::Int(0).not(), Ok(Value::Int(-1)));
    assert_eq!(Value::Int(5).not(), Ok(Value::Int(-6)));
    assert_eq!(s("a").not(), type_error("! requires bool or int"));
    assert_eq!(Value::Int(5).bitwise_not(), Ok(Value::Int(-6)));
    assert_eq!(Value::Bool(true).bitwise_not(), type_error("~ requires integer"));
}

#[test]
fn bit_operations() {
    assert_eq!(Value::Int(0b1100).bitor(Value::Int(0b1010)), Ok(Value::Int(0b1110)));
    assert_eq!(Value::Int(0b1100).bitand(Value::Int(0b1010)), Ok(Value::Int(0b1000)));
    assert_eq!(Value::Int(0b1100).bitxor(Value::Int(0b1010)), Ok(Value::Int(0b0110)));
    assert_eq!(Value::Int(3).shl(Value::Int(4)), Ok(Value::Int(48)));
    assert_eq!(Value::Int(-16).shr(Value::Int(2)), Ok(Value::Int(-4)));
    assert_eq!(s("a").bitor(Value::Int(1)), type_error("| requires integers"));
    assert_eq!(s("a").bitand(Value::Int(1)), type_error("& requires integers"));
    assert_eq!(s("a").bitxor(Value::Int(1)), type_error("^ requires integers"));
    assert_eq!(s("a").shl(Value::Int(1)), type_error("<< requires integers"));
    assert_eq!(s("a").shr(Value::Int(1)), type_error(">> requires integers"));
}

#[test]
fn power_of_non_numbers_is_an_error() {
    assert_eq!(s("a").pow(Value::Int(2)), type_error("** requires numeric types"));
}

#[test]
fn logic() {
    assert_eq!(Value::Int(2).logic_and(Value::Bool(true)), Ok(Value::Bool(true)));
    assert_eq!(Value::Int(0).logic_or(s("x")), Ok(Value::Bool(false)));
    assert_eq!(Value::Bool(false).logic_or(Value::Int(-1)), Ok(Value::Bool(true)));
}

#[test]
fn conversions() {
    assert_eq!(Value::Bool(true).as_int(), 1);
    assert_eq!(s("9").as_int(), 0);
    assert_eq!(Value::Int(-3).as_bool(), true);
    assert_eq!(Value::Array(vec![]).as_bool(), false);
}

#[test]
fn comparisons() {
    assert_eq!(s("a").val_eq(s("a")), Ok(Value::Bool(true)));
    assert_eq!(s("a").val_ne(s("b")), Ok(Value::Bool(true)));
    assert_eq!(s("a").val_eq(Value::Int(1)), type_error("cannot compare string with different type"));
    assert_eq!(Value::Bool(true).val_eq(Value::Int(1)), Ok(Value::Bool(true)));
    assert_eq!(Value::Int(1).val_lt(Value::Int(2)), Ok(Value::Bool(true)));
    assert_eq!(Value::Int(1).val_gt(Value::Int(2)), Ok(Value::Bool(false)));
    assert_eq!(Value::Int(2).val_le(Value::Int(2)), Ok(Value::Bool(true)));
    assert_eq!(Value::Bool(false).val_ge(Value::Int(1)), Ok(Value::Bool(false)));
    assert_eq!(s("a").val_ge(s("a")), type_error("cannot compare strings with >="));
    assert_eq!(Value::Int(1).val_le(s("a")), type_error("cannot compare strings with <="));
}

#[test]
fn duplicate_is_a_deep_copy() {
    let v = Value::Array(vec![Value::Int(1), Value::Array(vec![s("x"), Value::Float("2.5".to_string())])]);
    assert_eq!(v.duplicate(), v);
}

#[test]
fn default_value_is_zero() {
    assert_eq!(Value::default(), Value::Int(0));
}

#[test]
fn strlen_counts_bytes() {
    assert_eq!(c_strlen(vec![s("héllo")]), Value::Int(6));
    assert_eq!(c_strlen(vec![Value::Int(5)]), Value::Int(0));
}

#[test]
fn typeof_names_types() {
    assert_eq!(c_typeof(vec![Value::Float("1.0".to_string())]), s("float"));
    assert_eq!(c_typeof(vec![Value::Array(vec![])]), s("array"));
}

#[test]
fn build_env_has_the_built_in_functions() {
    let env = build_env().expect("environment");
    assert_eq!(env.bfnlut.entries.len(), 14);
    assert_eq!(env.bfnlut.get(&"input".to_string()), Some(&BuiltinFn { nargs: 1, fnc: Builtin::Input }));
    assert_eq!(env.bfnlut.get(&"print".to_string()), Some(&BuiltinFn { nargs: -1, fnc: Builtin::Print }));
    assert_eq!(env.bfnlut.get(&"platformid".to_string()), Some(&BuiltinFn { nargs: 0, fnc: Builtin::Platformid }));
    assert_eq!(env.bfnlut.get(&"nope".to_string()), None);
    assert!(env.vars.entries.is_empty());
    assert!(env.ufnlut.entries.is_empty());
}

#[test]
fn table_insert_get_remove() {
    let mut t: Table<Value> = Table::new();
    t.insert("a".to_string(), Value::Int(1));
    t.insert("b".to_string(), Value::Int(2));
    t.insert("a".to_string(), Value::Int(3));
    assert_eq!(t.entries.len(), 2);
    assert_eq!(t.get(&"a".to_string()), Some(&Value::Int(3)));
    assert!(t.contains_key(&"b".to_string()));
    t.remove(&"b".to_string());
    assert!(!t.contains_key(&"b".to_string()));
    assert_eq!(t.find(&"a".to_string()), Some(0));
}

#[test]
fn printed_text_of_values() {
    assert_eq!(Value::Int(-42).to_text(), "-42");
    assert_eq!(Value::Int(i64::MIN).to_text(), "-9223372036854775808");
    assert_eq!(Value::Int(0).to_text(), "0");
    assert_eq!(Value::Bool(false).to_text(), "false");
    assert_eq!(s("hi").to_text(), "hi");
    assert_eq!(Value::Float("2.5".to_string()).to_text(), "2.5");
    assert_eq!(Value::Array(vec![]).to_text(), "{}");
    assert_eq!(
        Value::Array(vec![Value::Int(1), Value::Array(vec![s("a"), Value::Bool(true)])]).to_text(),
        "{1, {a, true } }"
    );
}

#[test]
fn val_ne_negates_val_eq() {
    for (a, b) in [(Value::Int(3), Value::Bool(true)), (s("x"), s("x")), (s("x"), Value::Int(0))] {
        let eq = a.duplicate().val_eq(b.duplicate());
        let ne = a.val_ne(b);
        match (eq, ne) {
            (Ok(Value::Bool(x)), Ok(Value::Bool(y))) => assert_eq!(x, !y),
            (Err(_), Err(_)) => {}
            other => panic!("unexpected results {:?}", other),
        }
    }
}

#[test]
fn val_gt_is_swapped_val_lt() {
    assert_eq!(Value::Int(5).val_gt(Value::Bool(true)), Value::Bool(true).val_lt(Value::Int(5)));
    assert_eq!(Value::Int(5).val_gt(Value::Bool(true)), Ok(Value::Bool(true)));
    assert_eq!(Value::Int(1).val_ge(Value::Int(1)), Value::Int(1).val_le(Value::Int(1)));
    assert!(s("a").val_gt(Value::Int(1)).is_err() && Value::Int(1).val_lt(s("a")).is_err());
}
