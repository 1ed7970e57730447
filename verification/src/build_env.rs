use vstd::prelude::*;

use crate::eval::{Builtin, BuiltinFn, Environment};
use crate::table::Table;
use crate::value::{msg, Value, ValueView};

verus! {

pub open spec fn bf(nargs: isize, fnc: Builtin) -> BuiltinFn {
    BuiltinFn { nargs, fnc }
}

/// The built-in functions by name.
pub open spec fn builtin_table() -> Map<Seq<char>, BuiltinFn> {
    Map::empty()
        .insert("print"@, bf(-1isize, Builtin::Print))
        .insert("println"@, bf(-1isize, Builtin::Println))
        .insert("input"@, bf(1, Builtin::Input))
        .insert("syscall"@, bf(-1isize, Builtin::Syscall))
        .insert("strlen"@, bf(1, Builtin::Strlen))
        .insert("typeof"@, bf(1, Builtin::Typeof))
        .insert("platformid"@, bf(0, Builtin::Platformid))
        .insert("sin"@, bf(1, Builtin::Sin))
        .insert("cos"@, bf(1, Builtin::Cos))
        .insert("tan"@, bf(1, Builtin::Tan))
        .insert("abs"@, bf(1, Builtin::Abs))
        .insert("sqrt"@, bf(1, Builtin::Sqrt))
        .insert("log"@, bf(1, Builtin::Log))
        .insert("log10"@, bf(1, Builtin::Log10))
}

/// The environment a program starts in: no variables, no declared functions, and
/// the built-in functions.
pub fn build_env() -> (r: Option<Environment>)
    ensures
        r matches Some(env) && env.wf() && env@.vars == Map::<Seq<char>, ValueView>::empty()
            && env@.ufns == Map::<Seq<char>, crate::eval::UserFnView>::empty() && env@.bfns
            == builtin_table(),
{
    let mut b: Table<BuiltinFn> = Table::new();
    b.insert(msg("print"), BuiltinFn { nargs: -1, fnc: Builtin::Print });
    b.insert(msg("println"), BuiltinFn { nargs: -1, fnc: Builtin::Println });
    b.insert(msg("input"), BuiltinFn { nargs: 1, fnc: Builtin::Input });
    b.insert(msg("syscall"), BuiltinFn { nargs: -1, fnc: Builtin::Syscall });
    b.insert(msg("strlen"), BuiltinFn { nargs: 1, fnc: Builtin::Strlen });
    b.insert(msg("typeof"), BuiltinFn { nargs: 1, fnc: Builtin::Typeof });
    b.insert(msg("platformid"), BuiltinFn { nargs: 0, fnc: Builtin::Platformid });
    b.insert(msg("sin"), BuiltinFn { nargs: 1, fnc: Builtin::Sin });
    b.insert(msg("cos"), BuiltinFn { nargs: 1, fnc: Builtin::Cos });
    b.insert(msg("tan"), BuiltinFn { nargs: 1, fnc: Builtin::Tan });
    b.insert(msg("abs"), BuiltinFn { nargs: 1, fnc: Builtin::Abs });
    b.insert(msg("sqrt"), BuiltinFn { nargs: 1, fnc: Builtin::Sqrt });
    b.insert(msg("log"), BuiltinFn { nargs: 1, fnc: Builtin::Log });
    b.insert(msg("log10"), BuiltinFn { nargs: 1, fnc: Builtin::Log10 });
    Some(Environment { vars: Table::new(), bfnlut: b, ufnlut: Table::new() })
}

/// `strlen`: the length in bytes of a string, 0 for any other value.
pub open spec fn spec_strlen(v: ValueView) -> ValueView {
    match v {
        ValueView::Str(s) => ValueView::Int((vstd::utf8::encode_utf8(s).len() as usize) as i64),
        _ => ValueView::Int(0),
    }
}

pub fn c_strlen(args: Vec<Value>) -> (r: Value)
    requires
        args.len() >= 1,
    ensures
        r@ == spec_strlen(args@[0]@),
{
    match &args[0] {
        Value::String(s) => Value::Int(#[verifier::truncate] (s.as_str().len() as i64)),
        _ => Value::Int(0),
    }
}

/// `typeof`: the name of a value's type.
pub open spec fn spec_typeof(v: ValueView) -> ValueView {
    match v {
        ValueView::Int(_) => ValueView::Str("int"@),
        ValueView::Float(_) => ValueView::Str("float"@),
        ValueView::Str(_) => ValueView::Str("string"@),
        ValueView::Bool(_) => ValueView::Str("bool"@),
        ValueView::Array(_) => ValueView::Str("array"@),
    }
}

pub fn c_typeof(args: Vec<Value>) -> (r: Value)
    requires
        args.len() >= 1,
    ensures
        r@ == spec_typeof(args@[0]@),
{
    match &args[0] {
        Value::Int(_) => Value::String(msg("int")),
        Value::Float(_) => Value::String(msg("float")),
        Value::String(_) => Value::String(msg("string")),
        Value::Bool(_) => Value::String(msg("bool")),
        Value::Array(_) => Value::String(msg("array")),
    }
}

} // verus!
