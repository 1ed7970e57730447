use vstd::prelude::*;

use crate::ast::{duplicate_block, duplicate_names, lemma_exprs_index, Expr, ExprView, Token, TokenOf};
use crate::build_env::{c_strlen, c_typeof};
use crate::error::RuntimeError;
use crate::eval::{duplicate_vars, Builtin, VarLUT};
use crate::machine::{
    applied, apply_binary, apply_unary, begin_call, bind, floats_in, frame_wf, has_float,
    lemma_floats_in_grows, lemma_frames_push, step_eval, Action, Applied, Ctrl, FloatWork,
    FloatWorkView, Frame, Machine, PanicReason,
};
use crate::value::{
    add_float, add_overflow, arith_float, cmp_float, div_float, exact_number, lemma_values_view_index,
    mul_overflow, neg_overflow, rem_overflow, shift_overflow, sub_overflow, values_view, vres,
    Value, ValueView,
};

verus! {

// ---------------------------------------------------------------------------
// Operators on values, as the evaluator applies them.
// ---------------------------------------------------------------------------

/// Whether a value holds a float somewhere.
pub fn holds_float(v: &Value) -> (r: bool)
    ensures
        r == has_float(v@),
    decreases v,
{
    match v {
        Value::Float(_) => true,
        Value::Array(a) => {
            assert(v@ == ValueView::Array(values_view(a@)));
            any_float(a)
        },
        Value::Int(_) => false,
        Value::Bool(_) => false,
        Value::String(_) => false,
    }
}

/// Whether one of the values holds a float.
fn any_float(a: &Vec<Value>) -> (r: bool)
    ensures
        r == has_float(ValueView::Array(values_view(a@))),
    decreases a@,
{
    proof {
        lemma_values_view_index(a@);
    }
    let ghost vs = values_view(a@);
    let mut i: usize = 0;
    while i < a.len()
        invariant
            i <= a.len(),
            vs == values_view(a@),
            vs.len() == a.len(),
            forall|j: int| 0 <= j < a.len() ==> #[trigger] vs[j] == a@[j]@,
            !floats_in(vs, i as int),
        decreases a.len() - i,
    {
        proof {
            assert(decreases_to!(a@ => a@[i as int]));
        }
        if holds_float(&a[i]) {
            assert(floats_in(vs, i + 1));
            proof {
                lemma_floats_in_grows(vs, i + 1, vs.len() as int);
            }
            return true;
        }
        assert(!floats_in(vs, i + 1));
        i = i + 1;
    }
    false
}

/// Whether two values are the same value.
pub fn values_equal(a: &Value, b: &Value) -> (r: bool)
    ensures
        r == (a@ == b@),
    decreases a,
{
    match (a, b) {
        (Value::Int(x), Value::Int(y)) => *x == *y,
        (Value::Float(x), Value::Float(y)) => *x == *y,
        (Value::Bool(x), Value::Bool(y)) => *x == *y,
        (Value::String(x), Value::String(y)) => *x == *y,
        (Value::Array(x), Value::Array(y)) => arrays_equal(x, y),
        _ => false,
    }
}

fn arrays_equal(a: &Vec<Value>, b: &Vec<Value>) -> (r: bool)
    ensures
        r == (values_view(a@) == values_view(b@)),
    decreases a@,
{
    proof {
        lemma_values_view_index(a@);
        lemma_values_view_index(b@);
    }
    if a.len() != b.len() {
        return false;
    }
    let mut i: usize = 0;
    while i < a.len()
        invariant
            i <= a.len(),
            a.len() == b.len(),
            values_view(a@).len() == a.len(),
            values_view(b@).len() == b.len(),
            forall|j: int| 0 <= j < a.len() ==> #[trigger] values_view(a@)[j] == a@[j]@,
            forall|j: int| 0 <= j < b.len() ==> #[trigger] values_view(b@)[j] == b@[j]@,
            forall|j: int| 0 <= j < i ==> #[trigger] values_view(a@)[j] == values_view(b@)[j],
        decreases a.len() - i,
    {
        proof {
            assert(decreases_to!(a@ => a@[i as int]));
        }
        if !values_equal(&a[i], &b[i]) {
            assert(values_view(a@)[i as int] != values_view(b@)[i as int]);
            return false;
        }
        i = i + 1;
    }
    assert(values_view(a@) =~= values_view(b@));
    true
}

pub(crate) fn is_float(v: &Value) -> (r: bool)
    ensures
        r == (v@ is Float),
{
    match v {
        Value::Float(_) => true,
        _ => false,
    }
}

fn is_num(v: &Value) -> (r: bool)
    ensures
        r == crate::value::is_num(v@),
{
    match v {
        Value::Int(_) | Value::Float(_) => true,
        _ => false,
    }
}

fn is_exact(v: &Value) -> (r: bool)
    ensures
        r == exact_number(v@),
{
    match v {
        Value::Int(n) => -0x20_0000_0000_0000 <= *n && *n <= 0x20_0000_0000_0000,
        Value::Float(_) => false,
        _ => true,
    }
}

/// Whether an order comparison needs floating point.
fn compares_float(a: &Value, b: &Value) -> (r: bool)
    ensures
        r == cmp_float(a@, b@),
{
    let sa = match a {
        Value::String(_) => true,
        _ => false,
    };
    let sb = match b {
        Value::String(_) => true,
        _ => false,
    };
    !sa && !sb && !(is_exact(a) && is_exact(b))
}

fn adds_float(a: &Value, b: &Value) -> (r: bool)
    ensures
        r == add_float(a@, b@),
{
    (is_float(a) && is_float(b)) || (matches!(a, Value::Int(_)) && is_float(b))
}

fn arith_with_float(a: &Value, b: &Value) -> (r: bool)
    ensures
        r == arith_float(a@, b@),
{
    is_num(a) && is_num(b) && (is_float(a) || is_float(b))
}

fn divides_float(a: &Value, b: &Value) -> (r: bool)
    ensures
        r == div_float(a@, b@),
{
    let int_by_zero = match (a, b) {
        (Value::Int(_), Value::Int(y)) => *y == 0,
        _ => false,
    };
    is_num(a) && is_num(b) && !int_by_zero
}

fn add_overflows(a: &Value, b: &Value) -> (r: bool)
    ensures
        r == add_overflow(a@, b@),
{
    match (a, b) {
        (Value::Int(x), Value::Int(y)) => x.checked_add(*y).is_none(),
        _ => false,
    }
}

fn sub_overflows(a: &Value, b: &Value) -> (r: bool)
    ensures
        r == sub_overflow(a@, b@),
{
    match (a, b) {
        (Value::Int(x), Value::Int(y)) => x.checked_sub(*y).is_none(),
        _ => false,
    }
}

fn mul_overflows(a: &Value, b: &Value) -> (r: bool)
    ensures
        r == mul_overflow(a@, b@),
{
    match (a, b) {
        (Value::Int(x), Value::Int(y)) => x.checked_mul(*y).is_none(),
        _ => false,
    }
}

fn rem_overflows(a: &Value, b: &Value) -> (r: bool)
    ensures
        r == rem_overflow(a@, b@),
{
    match (a, b) {
        (Value::Int(x), Value::Int(y)) => *y == -1 && *x == i64::MIN,
        _ => false,
    }
}

fn shift_overflows(a: &Value, b: &Value) -> (r: bool)
    ensures
        r == shift_overflow(a@, b@),
{
    match (a, b) {
        (Value::Int(_), Value::Int(y)) => !(0 <= *y && *y < 64),
        _ => false,
    }
}

fn neg_overflows(a: &Value) -> (r: bool)
    ensures
        r == neg_overflow(a@),
{
    match a {
        Value::Int(x) => *x == i64::MIN,
        _ => false,
    }
}

/// What applying an operator gave.
#[derive(Debug, PartialEq)]
pub enum Outcome {
    /// A value or an error.
    Done(Result<Value, RuntimeError>),
    /// Floating-point work for the caller.
    Float(FloatWork),
    /// A stop of the process.
    Panic(PanicReason),
}

/// `o` is the outcome `a`, with `w` the float work asked where it is one.
pub open spec fn outcome_is(o: Outcome, a: Applied, w: FloatWorkView) -> bool {
    match a {
        Applied::Result(r) => o matches Outcome::Done(x) && vres(x) == r,
        Applied::Float => o matches Outcome::Float(f) && f@ == w,
        Applied::Panic(p) => o matches Outcome::Panic(q) && q == p,
    }
}

fn binary_work(op: Token, l: Value, r: Value) -> (o: Outcome)
    ensures
        o matches Outcome::Float(f) && f@ == (FloatWorkView::Binary { op: op@, left: l@, right: r@ }),
{
    Outcome::Float(FloatWork::Binary { op, left: l, right: r })
}

/// A binary operator applied to two values.
pub fn eval_binary(op: Token, l: Value, r: Value) -> (o: Outcome)
    ensures
        outcome_is(o, apply_binary(op@, l@, r@), FloatWorkView::Binary { op: op@, left: l@, right: r@ }),
{
    match op {
        TokenOf::Logor => if is_float(&l) || is_float(&r) {
            binary_work(op, l, r)
        } else {
            Outcome::Done(l.logic_or(r))
        },
        TokenOf::Logand => if is_float(&l) || is_float(&r) {
            binary_work(op, l, r)
        } else {
            Outcome::Done(l.logic_and(r))
        },
        TokenOf::Eq => if holds_float(&l) && holds_float(&r) {
            binary_work(op, l, r)
        } else {
            Outcome::Done(Ok(Value::Bool(values_equal(&l, &r))))
        },
        TokenOf::Neq => if holds_float(&l) && holds_float(&r) {
            binary_work(op, l, r)
        } else {
            Outcome::Done(Ok(Value::Bool(!values_equal(&l, &r))))
        },
        TokenOf::Gt => if compares_float(&l, &r) {
            binary_work(op, l, r)
        } else {
            Outcome::Done(l.val_gt(r))
        },
        TokenOf::Lt => if compares_float(&l, &r) {
            binary_work(op, l, r)
        } else {
            Outcome::Done(l.val_lt(r))
        },
        TokenOf::Ge => if compares_float(&l, &r) {
            binary_work(op, l, r)
        } else {
            Outcome::Done(l.val_ge(r))
        },
        TokenOf::Le => if compares_float(&l, &r) {
            binary_work(op, l, r)
        } else {
            Outcome::Done(l.val_le(r))
        },
        TokenOf::Min => if arith_with_float(&l, &r) {
            binary_work(op, l, r)
        } else if sub_overflows(&l, &r) {
            Outcome::Panic(PanicReason::SubOverflow)
        } else {
            Outcome::Done(l.sub(r))
        },
        TokenOf::Add => if adds_float(&l, &r) {
            binary_work(op, l, r)
        } else if add_overflows(&l, &r) {
            Outcome::Panic(PanicReason::AddOverflow)
        } else {
            Outcome::Done(l.add(r))
        },
        TokenOf::Mul => if arith_with_float(&l, &r) {
            binary_work(op, l, r)
        } else if mul_overflows(&l, &r) {
            Outcome::Panic(PanicReason::MulOverflow)
        } else {
            Outcome::Done(l.mul(r))
        },
        TokenOf::Div => if divides_float(&l, &r) {
            binary_work(op, l, r)
        } else {
            Outcome::Done(l.div(r))
        },
        TokenOf::Mod => if rem_overflows(&l, &r) {
            Outcome::Panic(PanicReason::RemOverflow)
        } else {
            Outcome::Done(l.rem(r))
        },
        TokenOf::Pwr => if is_num(&l) && is_num(&r) {
            binary_work(op, l, r)
        } else {
            Outcome::Done(l.pow(r))
        },
        TokenOf::Bitor => Outcome::Done(l.bitor(r)),
        TokenOf::Bitand => Outcome::Done(l.bitand(r)),
        TokenOf::Bitxor => Outcome::Done(l.bitxor(r)),
        TokenOf::Shl => if shift_overflows(&l, &r) {
            Outcome::Panic(PanicReason::ShlOverflow)
        } else {
            Outcome::Done(l.shl(r))
        },
        TokenOf::Shr => if shift_overflows(&l, &r) {
            Outcome::Panic(PanicReason::ShrOverflow)
        } else {
            Outcome::Done(l.shr(r))
        },
        _ => Outcome::Panic(PanicReason::BadExpression),
    }
}

/// A prefix operator applied to a value.
pub fn eval_unary(op: Token, v: Value) -> (o: Outcome)
    ensures
        outcome_is(o, apply_unary(op@, v@), FloatWorkView::Unary { op: op@, arg: v@ }),
{
    match op {
        TokenOf::Not => Outcome::Done(v.not()),
        TokenOf::Add => if is_float(&v) {
            Outcome::Float(FloatWork::Unary { op, arg: v })
        } else if neg_overflows(&v) {
            Outcome::Panic(PanicReason::NegOverflow)
        } else {
            Outcome::Done(v.neg())
        },
        TokenOf::Bnot => Outcome::Done(v.bitwise_not()),
        _ => Outcome::Panic(PanicReason::BadExpression),
    }
}

// ---------------------------------------------------------------------------
// The machine's steps on expressions.
// ---------------------------------------------------------------------------

impl Machine {
    /// Puts a frame on the stack.
    pub(crate) fn push_frame(&mut self, f: Frame)
        requires
            old(self).wf(),
            frame_wf(f),
        ensures
            final(self).wf(),
            final(self).env == old(self).env,
            final(self).ctrl == old(self).ctrl,
            final(self)@.stack == old(self)@.stack.push(f@),
    {
        proof {
            lemma_frames_push(self.stack@, f);
        }
        self.stack.push(f);
    }

    /// Carries an operator's outcome on: a value or an error goes on, float work is
    /// asked of the caller, a stop ends the run.
    pub(crate) fn settle(&mut self, o: Outcome, Ghost(ap): Ghost<Applied>, Ghost(w): Ghost<FloatWorkView>) -> (a: Action)
        requires
            old(self).wf(),
            outcome_is(o, ap, w),
        ensures
            final(self).wf(),
            (final(self)@, a@) == applied(old(self)@.env, old(self)@.stack, ap, w),
    {
        match o {
            Outcome::Done(Ok(v)) => {
                self.ctrl = Ctrl::Val(v);
                Action::Continue
            },
            Outcome::Done(Err(e)) => {
                self.ctrl = Ctrl::Raise(e);
                Action::Continue
            },
            Outcome::Float(f) => {
                self.ctrl = Ctrl::Wait;
                Action::Float(f)
            },
            Outcome::Panic(p) => {
                self.ctrl = Ctrl::Halted;
                Action::Panic(p)
            },
        }
    }

    /// Calls a function by name with evaluated arguments: a built-in one first, then
    /// one the program declared.
    pub(crate) fn eval_call(&mut self, ident: String, args: Vec<Value>) -> (a: Action)
        requires
            old(self).wf(),
        ensures
            final(self).wf(),
            (final(self)@, a@) == begin_call(old(self)@.env, old(self)@.stack, ident@, values_view(args@)),
    {
        proof {
            lemma_values_view_index(args@);
        }
        match self.env.bfnlut.get(&ident) {
            Some(fr) => {
                let f = *fr;
                if f.nargs == -1 || f.nargs as usize == args.len() {
                    if (f.fnc == Builtin::Strlen || f.fnc == Builtin::Typeof) && args.len() == 0 {
                        self.ctrl = Ctrl::Halted;
                        Action::Panic(PanicReason::IndexOutOfBounds { len: 0, index: 0 })
                    } else if f.fnc == Builtin::Strlen {
                        self.ctrl = Ctrl::Val(c_strlen(args));
                        Action::Continue
                    } else if f.fnc == Builtin::Typeof {
                        self.ctrl = Ctrl::Val(c_typeof(args));
                        Action::Continue
                    } else {
                        self.ctrl = Ctrl::Wait;
                        Action::Builtin { func: f.fnc, args }
                    }
                } else {
                    self.ctrl = Ctrl::Raise(RuntimeError::WrongArgCount { expected: f.nargs as usize, got: args.len() });
                    Action::Continue
                }
            },
            None => self.call_declared(ident, args),
        }
    }

    /// Calls a function the program declared: its parameters are bound in the
    /// variables it was declared with, and its body runs; the caller's variables wait
    /// in a frame.
    fn call_declared(&mut self, ident: String, args: Vec<Value>) -> (a: Action)
        requires
            old(self).wf(),
            !old(self)@.env.bfns.contains_key(ident@),
        ensures
            final(self).wf(),
            (final(self)@, a@) == begin_call(old(self)@.env, old(self)@.stack, ident@, values_view(args@)),
    {
        proof {
            lemma_values_view_index(args@);
        }
        let (names, body, base) = match self.env.ufnlut.get(&ident) {
            Some(uf) => {
                if uf.args.len() != args.len() {
                    let expected = uf.args.len();
                    self.ctrl = Ctrl::Raise(RuntimeError::WrongArgCount { expected, got: args.len() });
                    return Action::Continue;
                }
                (duplicate_names(&uf.args), duplicate_block(&uf.body), duplicate_vars(&uf.vars))
            },
            None => {
                self.ctrl = Ctrl::Raise(RuntimeError::UnknownFunction(ident));
                return Action::Continue;
            },
        };
        let ghost f = self@.env.ufns[ident@];
        let ghost ns = crate::ast::names_view(names@);
        let ghost vs = values_view(args@);
        let mut vars: VarLUT = base;
        let mut i: usize = 0;
        while i < args.len()
            invariant
                i <= args.len(),
                names@.len() == args.len(),
                ns == crate::ast::names_view(names@),
                ns == f.args,
                vs == values_view(args@),
                vs.len() == args.len(),
                forall|j: int| 0 <= j < args.len() ==> #[trigger] vs[j] == args@[j]@,
                vars.wf(),
                vars@ == bind(f.vars, ns.take(i as int), vs.take(i as int)),
            decreases args.len() - i,
        {
            vars.insert(names[i].clone(), args[i].duplicate());
            proof {
                assert(ns.take(i + 1).drop_last() =~= ns.take(i as int));
                assert(vs.take(i + 1).drop_last() =~= vs.take(i as int));
            }
            i = i + 1;
        }
        proof {
            assert(ns.take(args.len() as int) =~= ns);
            assert(vs.take(args.len() as int) =~= vs);
        }
        let mut saved = vars;
        std::mem::swap(&mut saved, &mut self.env.vars);
        self.push_frame(Frame::CallBody { saved });
        self.push_frame(Frame::Block { stmts: body, next: 0 });
        self.ctrl = Ctrl::Done;
        Action::Continue
    }
}

/// Takes an expression up: an operand or the callee's arguments are evaluated
/// first, with the rest of the work kept in a frame; a name or a literal gives its
/// value at once.
pub fn eval_expr(m: &mut Machine, e: Expr) -> (a: Action)
    requires
        old(m).wf(),
    ensures
        final(m).wf(),
        (final(m)@, a@) == step_eval(old(m)@.env, old(m)@.stack, e@),
{
    match e {
        Expr::Binary { op, left, right } => {
            m.push_frame(Frame::BinaryLeft { op, right: *right });
            m.ctrl = Ctrl::Eval(*left);
            Action::Continue
        },
        Expr::Unary { op, arg } => {
            m.push_frame(Frame::Unary { op });
            m.ctrl = Ctrl::Eval(*arg);
            Action::Continue
        },
        Expr::Call { ident, args } => {
            if args.len() == 0 {
                let none: Vec<Value> = Vec::new();
                assert(values_view(none@) =~= Seq::<ValueView>::empty());
                assert(crate::ast::exprs_view(args@) =~= Seq::<ExprView>::empty());
                m.eval_call(ident, none)
            } else {
                proof {
                    lemma_exprs_index(args@);
                }
                let first = args[0].duplicate();
                let none: Vec<Value> = Vec::new();
                assert(values_view(none@) =~= Seq::<ValueView>::empty());
                m.push_frame(Frame::CallArgs { ident, args, next: 1, done: none });
                m.ctrl = Ctrl::Eval(first);
                    Action::Continue
            }
        },
        Expr::Index { expr, idx } => {
            m.push_frame(Frame::IndexBase { idx: *idx });
            m.ctrl = Ctrl::Eval(*expr);
            Action::Continue
        },
        Expr::Ident { ident } => {
            eval_ident(m, ident)
        },
        Expr::Literal { val } => {
            m.ctrl = Ctrl::Val(val);
            Action::Continue
        },
        Expr::ArrayLiteral { members } => {
            if members.len() == 0 {
                let none: Vec<Value> = Vec::new();
                assert(values_view(none@) =~= Seq::<ValueView>::empty());
                assert(crate::ast::exprs_view(members@) =~= Seq::<ExprView>::empty());
                m.ctrl = Ctrl::Val(Value::Array(none));
                Action::Continue
            } else {
                proof {
                    lemma_exprs_index(members@);
                }
                let first = members[0].duplicate();
                let none: Vec<Value> = Vec::new();
                assert(values_view(none@) =~= Seq::<ValueView>::empty());
                m.push_frame(Frame::ArrayItems { members, next: 1, done: none });
                m.ctrl = Ctrl::Eval(first);
                    Action::Continue
            }
        },
    }
}

/// A name gives the value of its variable.
fn eval_ident(m: &mut Machine, ident: String) -> (a: Action)
    requires
        old(m).wf(),
    ensures
        final(m).wf(),
        (final(m)@, a@) == step_eval(old(m)@.env, old(m)@.stack, ExprView::Ident { ident: ident@ }),
{
    match m.env.vars.get(&ident) {
        Some(v) => {
            let x = v.duplicate();
            m.ctrl = Ctrl::Val(x);
        },
        None => {
            m.ctrl = Ctrl::Raise(RuntimeError::UnknownIdent(ident));
        },
    }
    Action::Continue
}

} // verus!
