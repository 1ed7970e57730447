use vstd::prelude::*;

verus! {

/// A run-time value of the language.  A float is carried as the decimal text of a
/// number in the syntax that Rust's `f64` parser accepts; its arithmetic is not
/// done by this library.
#[derive(Debug, PartialEq)]
pub enum Value {
    Int(i64),
    Float(String),
    Bool(bool),
    String(String),
    Array(Vec<Value>),
}

/// Mathematical counterpart of [`Value`].
pub enum ValueView {
    Int(i64),
    Float(Seq<char>),
    Bool(bool),
    Str(Seq<char>),
    Array(Seq<ValueView>),
}

pub open spec fn value_view(v: Value) -> ValueView
    decreases v,
{
    match v {
        Value::Int(n) => ValueView::Int(n),
        Value::Float(s) => ValueView::Float(s@),
        Value::Bool(b) => ValueView::Bool(b),
        Value::String(s) => ValueView::Str(s@),
        Value::Array(a) => ValueView::Array(values_view(a@)),
    }
}

pub open spec fn values_view(vs: Seq<Value>) -> Seq<ValueView>
    decreases vs,
{
    if vs.len() == 0 {
        Seq::empty()
    } else {
        values_view(vs.subrange(0, vs.len() - 1)).push(value_view(vs[vs.len() - 1]))
    }
}

impl View for Value {
    type V = ValueView;

    open spec fn view(&self) -> ValueView {
        value_view(*self)
    }
}

} // verus!

verus! {

use crate::error::{RuntimeError, RuntimeErrorView};

pub proof fn lemma_values_view_push(vs: Seq<Value>, v: Value)
    ensures
        values_view(vs.push(v)) == values_view(vs).push(v@),
{
    assert(vs.push(v).subrange(0, vs.len() as int) =~= vs);
}

pub proof fn lemma_values_view_index(vs: Seq<Value>)
    ensures
        values_view(vs).len() == vs.len(),
        forall|i: int| 0 <= i < vs.len() ==> #[trigger] values_view(vs)[i] == vs[i]@,
    decreases vs.len(),
{
    if vs.len() > 0 {
        let pre = vs.subrange(0, vs.len() - 1);
        lemma_values_view_index(pre);
        assert forall|i: int| 0 <= i < vs.len() implies #[trigger] values_view(vs)[i] == vs[i]@ by {
            if i < vs.len() - 1 {
                assert(pre[i] == vs[i]);
            }
        }
    }
}

/// The view of an operation's result.
pub open spec fn vres(r: Result<Value, RuntimeError>) -> Result<ValueView, RuntimeErrorView> {
    match r {
        Ok(v) => Ok(v@),
        Err(e) => Err(e@),
    }
}

pub open spec fn type_error(msg: &str) -> Result<ValueView, RuntimeErrorView> {
    Err(RuntimeErrorView::TypeError(msg@))
}

/// A message string.
pub(crate) fn msg(s: &str) -> (r: String)
    ensures
        r@ == s@,
{
    s.to_string()
}

pub(crate) fn type_err(s: &str) -> (r: RuntimeError)
    ensures
        r@ == RuntimeErrorView::TypeError(s@),
{
    RuntimeError::TypeError(msg(s))
}

/// Rust's remainder: it takes the sign of the dividend.
pub open spec fn trunc_rem(a: int, b: int) -> int {
    if a >= 0 {
        a % b
    } else {
        -((-a) % b)
    }
}

/// Bitwise complement of a two's-complement integer.
pub open spec fn complement(n: i64) -> i64 {
    (-n - 1) as i64
}

fn complement_exec(n: i64) -> (r: i64)
    ensures
        r == complement(n),
{
    let r = !n;
    assert(r == -n - 1) by (bit_vector)
        requires
            r == !n,
    ;
    r
}

pub open spec fn is_float(v: ValueView) -> bool {
    v is Float
}

pub open spec fn is_num(v: ValueView) -> bool {
    v is Int || v is Float
}

pub open spec fn fits_i64(n: int) -> bool {
    i64::MIN <= n <= i64::MAX
}

// ---------------------------------------------------------------------------
// Arithmetic.  Where a float takes part the result is a float computed outside
// this library; each operation names those cases (`*_float`).  Integer overflow,
// which stops the process, is named too (`*_overflow`).
// ---------------------------------------------------------------------------

pub open spec fn add_float(a: ValueView, b: ValueView) -> bool {
    (a is Float && b is Float) || (a is Int && b is Float)
}

pub open spec fn add_overflow(a: ValueView, b: ValueView) -> bool {
    a is Int && b is Int && !fits_i64(a->Int_0 + b->Int_0)
}

pub open spec fn spec_add(a: ValueView, b: ValueView) -> Result<ValueView, RuntimeErrorView> {
    match (a, b) {
        (ValueView::Int(l), ValueView::Int(r)) => Ok(ValueView::Int((l + r) as i64)),
        (ValueView::Str(l), ValueView::Str(r)) => Ok(ValueView::Str(l + r)),
        (ValueView::Array(l), _) => Ok(ValueView::Array(l.push(b))),
        _ => type_error("Unknown type"),
    }
}

/// Floats in `-`, `*`: any pair of numbers with a float.
pub open spec fn arith_float(a: ValueView, b: ValueView) -> bool {
    is_num(a) && is_num(b) && (a is Float || b is Float)
}

pub open spec fn sub_overflow(a: ValueView, b: ValueView) -> bool {
    a is Int && b is Int && !fits_i64(a->Int_0 - b->Int_0)
}

pub open spec fn spec_sub(a: ValueView, b: ValueView) -> Result<ValueView, RuntimeErrorView> {
    match (a, b) {
        (ValueView::Int(l), ValueView::Int(r)) => Ok(ValueView::Int((l - r) as i64)),
        _ => type_error("invalid types for -"),
    }
}

pub open spec fn mul_overflow(a: ValueView, b: ValueView) -> bool {
    a is Int && b is Int && !fits_i64(a->Int_0 * b->Int_0)
}

pub open spec fn spec_mul(a: ValueView, b: ValueView) -> Result<ValueView, RuntimeErrorView> {
    match (a, b) {
        (ValueView::Int(l), ValueView::Int(r)) => Ok(ValueView::Int((l * r) as i64)),
        _ => type_error("invalid types for *"),
    }
}

/// Division of numbers gives a float, except an integer division by zero.
pub open spec fn div_float(a: ValueView, b: ValueView) -> bool {
    is_num(a) && is_num(b) && !(a is Int && b == ValueView::Int(0))
}

pub open spec fn spec_div(a: ValueView, b: ValueView) -> Result<ValueView, RuntimeErrorView> {
    if a is Int && b == ValueView::Int(0) {
        type_error("division by zero")
    } else {
        type_error("invalid types for /")
    }
}

pub open spec fn rem_overflow(a: ValueView, b: ValueView) -> bool {
    a is Int && b is Int && b->Int_0 == -1 && a->Int_0 == i64::MIN
}

pub open spec fn spec_rem(a: ValueView, b: ValueView) -> Result<ValueView, RuntimeErrorView> {
    match (a, b) {
        (ValueView::Int(_), ValueView::Int(0)) => type_error("modulo by zero"),
        (ValueView::Int(l), ValueView::Int(r)) => Ok(ValueView::Int(trunc_rem(l as int, r as int) as i64)),
        _ => type_error("% requires integers"),
    }
}

pub open spec fn neg_overflow(a: ValueView) -> bool {
    a == ValueView::Int(i64::MIN)
}

pub open spec fn spec_neg(a: ValueView) -> Result<ValueView, RuntimeErrorView> {
    match a {
        ValueView::Int(n) => Ok(ValueView::Int((-n) as i64)),
        _ => type_error("unary - requires numeric type"),
    }
}

pub open spec fn spec_not(a: ValueView) -> Result<ValueView, RuntimeErrorView> {
    match a {
        ValueView::Bool(b) => Ok(ValueView::Bool(!b)),
        ValueView::Int(n) => Ok(ValueView::Int(complement(n))),
        _ => type_error("! requires bool or int"),
    }
}

pub open spec fn spec_bitor(a: ValueView, b: ValueView) -> Result<ValueView, RuntimeErrorView> {
    match (a, b) {
        (ValueView::Int(l), ValueView::Int(r)) => Ok(ValueView::Int(l | r)),
        _ => type_error("| requires integers"),
    }
}

pub open spec fn spec_bitxor(a: ValueView, b: ValueView) -> Result<ValueView, RuntimeErrorView> {
    match (a, b) {
        (ValueView::Int(l), ValueView::Int(r)) => Ok(ValueView::Int(l ^ r)),
        _ => type_error("^ requires integers"),
    }
}

pub open spec fn spec_bitand(a: ValueView, b: ValueView) -> Result<ValueView, RuntimeErrorView> {
    match (a, b) {
        (ValueView::Int(l), ValueView::Int(r)) => Ok(ValueView::Int(l & r)),
        _ => type_error("& requires integers"),
    }
}

/// A shift by a negative amount or by 64 or more stops the process.
pub open spec fn shift_overflow(a: ValueView, b: ValueView) -> bool {
    a is Int && b is Int && !(0 <= b->Int_0 < 64)
}

pub open spec fn spec_shl(a: ValueView, b: ValueView) -> Result<ValueView, RuntimeErrorView> {
    match (a, b) {
        (ValueView::Int(l), ValueView::Int(r)) => Ok(ValueView::Int(l << (r as u32))),
        _ => type_error("<< requires integers"),
    }
}

pub open spec fn spec_shr(a: ValueView, b: ValueView) -> Result<ValueView, RuntimeErrorView> {
    match (a, b) {
        (ValueView::Int(l), ValueView::Int(r)) => Ok(ValueView::Int(l >> (r as u32))),
        _ => type_error(">> requires integers"),
    }
}

/// `**` of two numbers is computed in floating point.
pub open spec fn pow_float(a: ValueView, b: ValueView) -> bool {
    is_num(a) && is_num(b)
}

pub open spec fn spec_pow(a: ValueView, b: ValueView) -> Result<ValueView, RuntimeErrorView> {
    type_error("** requires numeric types")
}

pub open spec fn spec_bitwise_not(a: ValueView) -> Result<ValueView, RuntimeErrorView> {
    match a {
        ValueView::Int(n) => Ok(ValueView::Int(complement(n))),
        _ => type_error("~ requires integer"),
    }
}

// ---------------------------------------------------------------------------
// Conversions.
// ---------------------------------------------------------------------------

/// Truth of a value that is not a float.
pub open spec fn spec_as_bool(v: ValueView) -> bool {
    match v {
        ValueView::Bool(b) => b,
        ValueView::Int(n) => n != 0,
        _ => false,
    }
}

/// Integer of a value that is not a float.
pub open spec fn spec_as_int(v: ValueView) -> i64 {
    match v {
        ValueView::Int(n) => n,
        ValueView::Bool(b) => if b { 1 } else { 0 },
        _ => 0,
    }
}

/// Largest magnitude up to which every integer converts to `f64` exactly.
pub open spec fn exact_bound() -> int {
    0x20_0000_0000_0000
}

/// The number a value stands for in comparisons, where it is exact: integers up
/// to 2^53 in magnitude, booleans, and arrays (as zero).
pub open spec fn exact_number(v: ValueView) -> bool {
    match v {
        ValueView::Int(n) => -exact_bound() <= n <= exact_bound(),
        ValueView::Float(_) => false,
        _ => true,
    }
}

pub open spec fn number_of(v: ValueView) -> int {
    match v {
        ValueView::Int(n) => n as int,
        ValueView::Bool(b) => if b { 1 } else { 0 },
        _ => 0,
    }
}

/// An order comparison (`<`, `>`, `<=`, `>=`) that needs floating point.
pub open spec fn cmp_float(a: ValueView, b: ValueView) -> bool {
    !(a is Str) && !(b is Str) && !(exact_number(a) && exact_number(b))
}

} // verus!

verus! {

use crate::error::RuntimeError as RtErr;

impl Value {
    /// A deep copy of the value.
    pub fn duplicate(&self) -> (r: Value)
        ensures
            r@ == self@,
        decreases self,
    {
        match self {
            Value::Int(n) => Value::Int(*n),
            Value::Float(s) => Value::Float(s.clone()),
            Value::Bool(b) => Value::Bool(*b),
            Value::String(s) => Value::String(s.clone()),
            Value::Array(a) => Value::Array(duplicate_values(a)),
        }
    }

    pub fn add(self, b: Value) -> (r: Result<Value, RtErr>)
        requires
            !add_float(self@, b@),
            !add_overflow(self@, b@),
        ensures
            vres(r) == spec_add(self@, b@),
    {
        match (self, b) {
            (Value::Int(l), Value::Int(r)) => Ok(Value::Int(l + r)),
            (Value::String(l), Value::String(r)) => Ok(Value::String(l.concat(r.as_str()))),
            (Value::Array(l), b) => {
                let mut arr = l;
                proof {
                    lemma_values_view_push(arr@, b);
                }
                arr.push(b);
                Ok(Value::Array(arr))
            },
            _ => Err(type_err("Unknown type")),
        }
    }

    pub fn sub(self, b: Value) -> (r: Result<Value, RtErr>)
        requires
            !arith_float(self@, b@),
            !sub_overflow(self@, b@),
        ensures
            vres(r) == spec_sub(self@, b@),
    {
        match (self, b) {
            (Value::Int(l), Value::Int(r)) => Ok(Value::Int(l - r)),
            _ => Err(type_err("invalid types for -")),
        }
    }

    pub fn mul(self, b: Value) -> (r: Result<Value, RtErr>)
        requires
            !arith_float(self@, b@),
            !mul_overflow(self@, b@),
        ensures
            vres(r) == spec_mul(self@, b@),
    {
        match (self, b) {
            (Value::Int(l), Value::Int(r)) => Ok(Value::Int(l * r)),
            _ => Err(type_err("invalid types for *")),
        }
    }

    pub fn div(self, b: Value) -> (r: Result<Value, RtErr>)
        requires
            !div_float(self@, b@),
        ensures
            vres(r) == spec_div(self@, b@),
    {
        match (self, b) {
            (Value::Int(_), Value::Int(0)) => Err(type_err("division by zero")),
            _ => Err(type_err("invalid types for /")),
        }
    }

    pub fn rem(self, b: Value) -> (r: Result<Value, RtErr>)
        requires
            !rem_overflow(self@, b@),
        ensures
            vres(r) == spec_rem(self@, b@),
    {
        match (self, b) {
            (Value::Int(_), Value::Int(0)) => Err(type_err("modulo by zero")),
            (Value::Int(l), Value::Int(r)) => Ok(Value::Int(l % r)),
            _ => Err(type_err("% requires integers")),
        }
    }

    pub fn neg(self) -> (r: Result<Value, RtErr>)
        requires
            !(self@ is Float),
            !neg_overflow(self@),
        ensures
            vres(r) == spec_neg(self@),
    {
        match self {
            Value::Int(n) => Ok(Value::Int(-n)),
            _ => Err(type_err("unary - requires numeric type")),
        }
    }

    pub fn not(self) -> (r: Result<Value, RtErr>)
        ensures
            vres(r) == spec_not(self@),
    {
        match self {
            Value::Bool(b) => Ok(Value::Bool(!b)),
            Value::Int(n) => Ok(Value::Int(complement_exec(n))),
            _ => Err(type_err("! requires bool or int")),
        }
    }

    pub fn bitor(self, b: Value) -> (r: Result<Value, RtErr>)
        ensures
            vres(r) == spec_bitor(self@, b@),
    {
        match (self, b) {
            (Value::Int(l), Value::Int(r)) => Ok(Value::Int(l | r)),
            _ => Err(type_err("| requires integers")),
        }
    }

    pub fn bitxor(self, b: Value) -> (r: Result<Value, RtErr>)
        ensures
            vres(r) == spec_bitxor(self@, b@),
    {
        match (self, b) {
            (Value::Int(l), Value::Int(r)) => Ok(Value::Int(l ^ r)),
            _ => Err(type_err("^ requires integers")),
        }
    }

    pub fn bitand(self, b: Value) -> (r: Result<Value, RtErr>)
        ensures
            vres(r) == spec_bitand(self@, b@),
    {
        match (self, b) {
            (Value::Int(l), Value::Int(r)) => Ok(Value::Int(l & r)),
            _ => Err(type_err("& requires integers")),
        }
    }

    pub fn shl(self, b: Value) -> (r: Result<Value, RtErr>)
        requires
            !shift_overflow(self@, b@),
        ensures
            vres(r) == spec_shl(self@, b@),
    {
        match (self, b) {
            (Value::Int(l), Value::Int(r)) => Ok(Value::Int(l << (r as u32))),
            _ => Err(type_err("<< requires integers")),
        }
    }

    pub fn shr(self, b: Value) -> (r: Result<Value, RtErr>)
        requires
            !shift_overflow(self@, b@),
        ensures
            vres(r) == spec_shr(self@, b@),
    {
        match (self, b) {
            (Value::Int(l), Value::Int(r)) => Ok(Value::Int(l >> (r as u32))),
            _ => Err(type_err(">> requires integers")),
        }
    }

    /// `**` where one side is not a number: the type error.  (Powers of numbers are
    /// computed in floating point.)
    pub fn pow(self, b: Value) -> (r: Result<Value, RtErr>)
        requires
            !pow_float(self@, b@),
        ensures
            vres(r) == spec_pow(self@, b@),
    {
        Err(type_err("** requires numeric types"))
    }

    pub fn bitwise_not(self) -> (r: Result<Value, RtErr>)
        ensures
            vres(r) == spec_bitwise_not(self@),
    {
        match self {
            Value::Int(n) => Ok(Value::Int(complement_exec(n))),
            _ => Err(type_err("~ requires integer")),
        }
    }

    pub fn logic_and(self, b: Value) -> (r: Result<Value, RtErr>)
        requires
            !(self@ is Float),
            !(b@ is Float),
        ensures
            vres(r) == Ok::<ValueView, RuntimeErrorView>(
                ValueView::Bool(spec_as_bool(self@) && spec_as_bool(b@)),
            ),
    {
        Ok(Value::Bool(self.as_bool() && b.as_bool()))
    }

    pub fn logic_or(self, b: Value) -> (r: Result<Value, RtErr>)
        requires
            !(self@ is Float),
            !(b@ is Float),
        ensures
            vres(r) == Ok::<ValueView, RuntimeErrorView>(
                ValueView::Bool(spec_as_bool(self@) || spec_as_bool(b@)),
            ),
    {
        Ok(Value::Bool(self.as_bool() || b.as_bool()))
    }

    pub fn as_int(&self) -> (r: i64)
        requires
            !(self@ is Float),
        ensures
            r == spec_as_int(self@),
    {
        match self {
            Value::Int(n) => *n,
            Value::Bool(b) => if *b { 1 } else { 0 },
            _ => 0,
        }
    }

    pub fn as_bool(&self) -> (r: bool)
        requires
            !(self@ is Float),
        ensures
            r == spec_as_bool(self@),
    {
        match self {
            Value::Bool(b) => *b,
            Value::Int(n) => *n != 0,
            _ => false,
        }
    }
}

/// Deep copies of values.
pub fn duplicate_values(a: &Vec<Value>) -> (r: Vec<Value>)
    ensures
        values_view(r@) == values_view(a@),
    decreases a@,
{
    let mut out: Vec<Value> = Vec::new();
    let mut i: usize = 0;
    while i < a.len()
        invariant
            i <= a.len(),
            values_view(out@) == values_view(a@.subrange(0, i as int)),
        decreases a.len() - i,
    {
        proof {
            assert(decreases_to!(a@ => a@[i as int]));
        }
        let v = a[i].duplicate();
        proof {
            lemma_values_view_push(out@, v);
            lemma_values_view_push(a@.subrange(0, i as int), a@[i as int]);
            assert(a@.subrange(0, i + 1) =~= a@.subrange(0, i as int).push(a@[i as int]));
        }
        out.push(v);
        i = i + 1;
    }
    assert(a@.subrange(0, a.len() as int) =~= a@);
    out
}

} // verus!

verus! {

use crate::error::RuntimeError as RErr;

/// The error of a comparison of a string with something else, or `None`.
pub open spec fn string_mismatch(a: ValueView, b: ValueView) -> bool {
    a is Str || b is Str
}

pub open spec fn spec_val_eq(a: ValueView, b: ValueView, equal: bool) -> Result<ValueView, RuntimeErrorView> {
    match (a, b) {
        (ValueView::Str(l), ValueView::Str(r)) => Ok(ValueView::Bool((l == r) == equal)),
        _ => if string_mismatch(a, b) {
            type_error("cannot compare string with different type")
        } else {
            Ok(ValueView::Bool((number_of(a) == number_of(b)) == equal))
        },
    }
}

/// The order comparisons, by kind: 0 `<`, 1 `>`, 2 `<=`, 3 `>=`.
pub open spec fn order_holds(kind: int, x: int, y: int) -> bool {
    if kind == 0 {
        x < y
    } else if kind == 1 {
        x > y
    } else if kind == 2 {
        x <= y
    } else {
        x >= y
    }
}

pub open spec fn spec_val_order(a: ValueView, b: ValueView, kind: int, msg: &str) -> Result<ValueView, RuntimeErrorView> {
    if string_mismatch(a, b) {
        type_error(msg)
    } else {
        Ok(ValueView::Bool(order_holds(kind, number_of(a), number_of(b))))
    }
}

fn number_exec(v: &Value) -> (r: i64)
    requires
        !(v@ is Float),
    ensures
        r as int == number_of(v@),
{
    match v {
        Value::Int(n) => *n,
        Value::Bool(b) => if *b { 1 } else { 0 },
        _ => 0,
    }
}

impl Value {
    pub fn val_eq(self, b: Value) -> (r: Result<Value, RErr>)
        requires
            !cmp_float(self@, b@),
        ensures
            vres(r) == spec_val_eq(self@, b@, true),
    {
        match (&self, &b) {
            (Value::String(l), Value::String(r)) => Ok(Value::Bool(*l == *r)),
            (Value::String(_), _) | (_, Value::String(_)) => Err(type_err("cannot compare string with different type")),
            _ => Ok(Value::Bool(number_exec(&self) == number_exec(&b))),
        }
    }

    pub fn val_ne(self, b: Value) -> (r: Result<Value, RErr>)
        requires
            !cmp_float(self@, b@),
        ensures
            vres(r) == spec_val_eq(self@, b@, false),
    {
        match (&self, &b) {
            (Value::String(l), Value::String(r)) => Ok(Value::Bool(*l != *r)),
            (Value::String(_), _) | (_, Value::String(_)) => Err(type_err("cannot compare string with different type")),
            _ => Ok(Value::Bool(number_exec(&self) != number_exec(&b))),
        }
    }

    pub fn val_lt(self, b: Value) -> (r: Result<Value, RErr>)
        requires
            !cmp_float(self@, b@),
        ensures
            vres(r) == spec_val_order(self@, b@, 0, "cannot compare strings with <"),
    {
        match (&self, &b) {
            (Value::String(_), _) | (_, Value::String(_)) => Err(type_err("cannot compare strings with <")),
            _ => Ok(Value::Bool(number_exec(&self) < number_exec(&b))),
        }
    }

    pub fn val_gt(self, b: Value) -> (r: Result<Value, RErr>)
        requires
            !cmp_float(self@, b@),
        ensures
            vres(r) == spec_val_order(self@, b@, 1, "cannot compare strings with >"),
    {
        match (&self, &b) {
            (Value::String(_), _) | (_, Value::String(_)) => Err(type_err("cannot compare strings with >")),
            _ => Ok(Value::Bool(number_exec(&self) > number_exec(&b))),
        }
    }

    pub fn val_le(self, b: Value) -> (r: Result<Value, RErr>)
        requires
            !cmp_float(self@, b@),
        ensures
            vres(r) == spec_val_order(self@, b@, 2, "cannot compare strings with <="),
    {
        match (&self, &b) {
            (Value::String(_), _) | (_, Value::String(_)) => Err(type_err("cannot compare strings with <=")),
            _ => Ok(Value::Bool(number_exec(&self) <= number_exec(&b))),
        }
    }

    pub fn val_ge(self, b: Value) -> (r: Result<Value, RErr>)
        requires
            !cmp_float(self@, b@),
        ensures
            vres(r) == spec_val_order(self@, b@, 3, "cannot compare strings with >="),
    {
        match (&self, &b) {
            (Value::String(_), _) | (_, Value::String(_)) => Err(type_err("cannot compare strings with >=")),
            _ => Ok(Value::Bool(number_exec(&self) >= number_exec(&b))),
        }
    }
}

impl Default for Value {
    fn default() -> (r: Self)
        ensures
            r@ == ValueView::Int(0),
    {
        Value::Int(0)
    }
}

} // verus!
