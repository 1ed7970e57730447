use vstd::prelude::*;

use crate::ast::{ExprView, StmtView, TokenOf};
use crate::error::RuntimeErrorView;
use crate::eval::EnvView;
use crate::machine::{
    applied, apply_binary, apply_unary, bind, cont, mv, next_item, spec_resume, spec_step, start_for, step_done,
    step_eval, step_raise, ActionView, Applied, CtrlView, FloatWorkView, ForItemsView, FrameView, MachineView,
};
use crate::value::{cmp_float, complement, spec_not, spec_val_eq, spec_val_order, ValueView};

verus! {

/// A machine that has stopped, or waits for its caller's answer, stays as it is
/// when stepped.
pub proof fn law_halted_stays(m: MachineView)
    requires
        m.ctrl is Halted || m.ctrl is Wait,
    ensures
        spec_step(m) == (m, ActionView::Continue),
{
}

/// `let name = value;` binds the name, and reading the name then gives the value
/// back; nothing else changes.
pub proof fn law_let_then_read(env: EnvView, stack: Seq<FrameView>, name: Seq<char>, val: ValueView)
    ensures
        ({
            let (m1, a1) = spec_step(mv(env, CtrlView::Exec(StmtView::Let { name, expr: ExprView::Literal { val } }), stack));
            let (m2, a2) = spec_step(m1);
            let (m3, a3) = spec_step(m2);
            let env2 = EnvView { vars: env.vars.insert(name, val), ..env };
            &&& a1 is Continue && a2 is Continue && a3 is Continue
            &&& m3 == mv(env2, CtrlView::Done, stack)
            &&& step_eval(env2, stack, ExprView::Ident { ident: name }) == cont(mv(env2, CtrlView::Val(val), stack))
        }),
{
    assert(stack.push(FrameView::Let { name }).drop_last() =~= stack);
}

/// Assigning to a name that has no variable raises `UnknownIdent` and leaves the
/// variables as they were.
pub proof fn law_assign_needs_variable(env: EnvView, stack: Seq<FrameView>, name: Seq<char>, val: ValueView)
    requires
        !env.vars.contains_key(name),
    ensures
        ({
            let (m1, _) = spec_step(mv(env, CtrlView::Exec(StmtView::Assign { name, expr: ExprView::Literal { val } }), stack));
            let (m2, _) = spec_step(m1);
            let (m3, _) = spec_step(m2);
            m3 == mv(env, CtrlView::Raise(RuntimeErrorView::UnknownIdent(name)), stack)
        }),
{
    assert(stack.push(FrameView::Assign { name }).drop_last() =~= stack);
}

/// Assigning to a variable replaces its value, as `let` does.
pub proof fn law_assign_replaces(env: EnvView, stack: Seq<FrameView>, name: Seq<char>, val: ValueView)
    requires
        env.vars.contains_key(name),
    ensures
        ({
            let (m1, _) = spec_step(mv(env, CtrlView::Exec(StmtView::Assign { name, expr: ExprView::Literal { val } }), stack));
            let (m2, _) = spec_step(m1);
            let (m3, _) = spec_step(m2);
            m3 == mv(EnvView { vars: env.vars.insert(name, val), ..env }, CtrlView::Done, stack)
        }),
{
    assert(stack.push(FrameView::Assign { name }).drop_last() =~= stack);
}

/// A `ret` inside a called function gives its value to the caller, whose variables
/// come back.
pub proof fn law_return_restores_caller(
    env: EnvView,
    stack: Seq<FrameView>,
    saved: Map<Seq<char>, ValueView>,
    v: ValueView,
)
    ensures
        step_raise(env, stack.push(FrameView::CallBody { saved }), RuntimeErrorView::Return(v))
            == cont(mv(EnvView { vars: saved, ..env }, CtrlView::Val(v), stack)),
{
    assert(stack.push(FrameView::CallBody { saved }).drop_last() =~= stack);
}

/// Every way out of a call gives the caller's variables back: a body that ends
/// without `ret` gives 0, and an error raised in the body goes on to the caller.
pub proof fn law_call_restores_caller(
    env: EnvView,
    stack: Seq<FrameView>,
    saved: Map<Seq<char>, ValueView>,
    e: RuntimeErrorView,
)
    requires
        !(e is Return),
    ensures
        step_raise(env, stack.push(FrameView::CallBody { saved }), e)
            == cont(mv(EnvView { vars: saved, ..env }, CtrlView::Raise(e), stack)),
        step_done(env, stack.push(FrameView::CallBody { saved }))
            == cont(mv(EnvView { vars: saved, ..env }, CtrlView::Val(ValueView::Int(0)), stack)),
{
    assert(stack.push(FrameView::CallBody { saved }).drop_last() =~= stack);
}

/// When a `for ... in` loop runs out of values, its variable is put back as it was
/// before the loop: the earlier value, or no variable.
pub proof fn law_for_restores_variable(
    env: EnvView,
    stack: Seq<FrameView>,
    name: Seq<char>,
    items: ForItemsView,
    prior: Option<ValueView>,
    body: Seq<StmtView>,
)
    requires
        next_item(items) is None,
    ensures
        ({
            let (m, _) = step_done(env, stack.push(FrameView::ForLoop { name, items, prior, body }));
            &&& m.stack == stack
            &&& m.ctrl is Done
            &&& (prior matches Some(p) ==> m.env.vars == env.vars.insert(name, p))
            &&& (prior is None ==> !m.env.vars.contains_key(name) && m.env.vars == env.vars.remove(name))
        }),
{
    assert(stack.push(FrameView::ForLoop { name, items, prior, body }).drop_last() =~= stack);
}

/// The caller's answer lands where the machine waited: a value as the value of the
/// pending work, an error as a raised error.
pub proof fn law_resume_delivers(m: MachineView, answer: Result<ValueView, RuntimeErrorView>)
    ensures
        spec_resume(m, answer).env == m.env,
        spec_resume(m, answer).stack == m.stack,
        answer matches Ok(v) ==> spec_resume(m, answer).ctrl == CtrlView::Val(v),
        answer matches Err(e) ==> spec_resume(m, answer).ctrl == CtrlView::Raise(e),
{
}

/// An operator applied to two literals evaluates, in five steps, to what the
/// operator gives on their values, with the stack as it was.
pub proof fn law_binary_of_literals(
    env: EnvView,
    stack: Seq<FrameView>,
    op: crate::ast::TokenView,
    a: ValueView,
    b: ValueView,
)
    ensures
        ({
            let e = ExprView::Binary {
                op,
                left: Box::new(ExprView::Literal { val: a }),
                right: Box::new(ExprView::Literal { val: b }),
            };
            let (m1, _) = spec_step(mv(env, CtrlView::Eval(e), stack));
            let (m2, _) = spec_step(m1);
            let (m3, _) = spec_step(m2);
            let (m4, _) = spec_step(m3);
            spec_step(m4) == applied(env, stack, apply_binary(op, a, b), FloatWorkView::Binary { op, left: a, right: b })
        }),
{
    assert(stack.push(FrameView::BinaryLeft { op, right: ExprView::Literal { val: b } }).drop_last() =~= stack);
    assert(stack.push(FrameView::BinaryRight { op, left: a }).drop_last() =~= stack);
}

/// `==` and `!=` give opposite answers on values that are not both floats.
pub proof fn law_eq_ne_opposite(a: ValueView, b: ValueView)
    requires
        apply_binary(TokenOf::Eq, a, b) is Result,
    ensures
        apply_binary(TokenOf::Eq, a, b) matches Applied::Result(Ok(ValueView::Bool(x)))
            && apply_binary(TokenOf::Neq, a, b) == Applied::Result(Ok(ValueView::Bool(!x))),
{
}

/// `a < b` and `b > a` agree, as do `a <= b` and `b >= a`, where no string takes part.
pub proof fn law_order_swaps(a: ValueView, b: ValueView)
    requires
        !(a is Str),
        !(b is Str),
    ensures
        apply_binary(TokenOf::Lt, a, b) == apply_binary(TokenOf::Gt, b, a),
        apply_binary(TokenOf::Le, a, b) == apply_binary(TokenOf::Ge, b, a),
{
}

/// `&&` and `||` do not depend on the order of their operands.
pub proof fn law_logic_commutes(a: ValueView, b: ValueView)
    ensures
        apply_binary(TokenOf::Logand, a, b) == apply_binary(TokenOf::Logand, b, a),
        apply_binary(TokenOf::Logor, a, b) == apply_binary(TokenOf::Logor, b, a),
{
}

/// Integer addition and multiplication do not depend on the order of the operands,
/// overflow included.
pub proof fn law_int_arith_commutes(x: i64, y: i64)
    ensures
        apply_binary(TokenOf::Add, ValueView::Int(x), ValueView::Int(y))
            == apply_binary(TokenOf::Add, ValueView::Int(y), ValueView::Int(x)),
        apply_binary(TokenOf::Mul, ValueView::Int(x), ValueView::Int(y))
            == apply_binary(TokenOf::Mul, ValueView::Int(y), ValueView::Int(x)),
{
    assert(x * y == y * x) by (nonlinear_arith);
}

/// `!` applied twice gives back a boolean or an integer.
pub proof fn law_not_not(v: ValueView)
    requires
        v is Bool || v is Int,
    ensures
        spec_not(v) matches Ok(w) && spec_not(w) == Ok::<ValueView, RuntimeErrorView>(v),
{
    if let ValueView::Int(n) = v {
        assert(complement(complement(n)) == n);
    }
}

// ---------------------------------------------------------------------------
// Runs of several steps.
// ---------------------------------------------------------------------------

/// The machine after `n` steps.
pub open spec fn steps(m: MachineView, n: nat) -> MachineView
    decreases n,
{
    if n == 0 {
        m
    } else {
        steps(spec_step(m).0, (n - 1) as nat)
    }
}

pub proof fn lemma_steps_add(m: MachineView, a: nat, b: nat)
    ensures
        steps(m, a + b) == steps(steps(m, a), b),
    decreases a,
{
    if a > 0 {
        lemma_steps_add(spec_step(m).0, (a - 1) as nat, b);
        assert((a + b - 1) as nat == ((a - 1) as nat + b));
    }
}

pub proof fn lemma_one_step(m: MachineView)
    ensures
        steps(m, 1) == spec_step(m).0,
{
    reveal_with_fuel(steps, 2);
}

/// The value of an expression built from literals, variables, operators and
/// indexing, where every part has a value (no error, no float work, no stop) and
/// no function is called.
pub open spec fn plain_value(env: EnvView, e: ExprView) -> Option<ValueView>
    decreases e,
{
    match e {
        ExprView::Literal { val } => Some(val),
        ExprView::Ident { ident } => if env.vars.contains_key(ident) {
            Some(env.vars[ident])
        } else {
            None
        },
        ExprView::Binary { op, left, right } => match (plain_value(env, *left), plain_value(env, *right)) {
            (Some(a), Some(b)) => match apply_binary(op, a, b) {
                Applied::Result(Ok(x)) => Some(x),
                _ => None,
            },
            _ => None,
        },
        ExprView::Unary { op, arg } => match plain_value(env, *arg) {
            Some(a) => match apply_unary(op, a) {
                Applied::Result(Ok(x)) => Some(x),
                _ => None,
            },
            None => None,
        },
        ExprView::Index { expr, idx } => match (plain_value(env, *expr), plain_value(env, *idx)) {
            (Some(ValueView::Array(vs)), Some(ValueView::Int(i))) => if 0 <= i < vs.len() {
                Some(vs[i as int])
            } else {
                None
            },
            _ => None,
        },
        _ => None,
    }
}

/// The number of steps the machine takes to evaluate such an expression.
proof fn eval_steps(env: EnvView, stack: Seq<FrameView>, e: ExprView) -> (n: nat)
    requires
        plain_value(env, e) is Some,
    ensures
        steps(mv(env, CtrlView::Eval(e), stack), n) == mv(env, CtrlView::Val(plain_value(env, e)->Some_0), stack),
    decreases e,
{
    let m0 = mv(env, CtrlView::Eval(e), stack);
    match e {
        ExprView::Literal { val } => {
            lemma_one_step(m0);
            1
        },
        ExprView::Ident { ident } => {
            lemma_one_step(m0);
            1
        },
        ExprView::Binary { op, left, right } => {
            let a = plain_value(env, *left)->Some_0;
            let b = plain_value(env, *right)->Some_0;
            let s1 = stack.push(FrameView::BinaryLeft { op, right: *right });
            let s2 = stack.push(FrameView::BinaryRight { op, left: a });
            assert(s1.drop_last() =~= stack);
            assert(s2.drop_last() =~= stack);
            let n1 = eval_steps(env, s1, *left);
            let n2 = eval_steps(env, s2, *right);
            let m1 = mv(env, CtrlView::Eval(*left), s1);
            let m2 = mv(env, CtrlView::Val(a), s1);
            let m3 = mv(env, CtrlView::Eval(*right), s2);
            let m4 = mv(env, CtrlView::Val(b), s2);
            lemma_one_step(m0);
            lemma_one_step(m2);
            lemma_one_step(m4);
            lemma_steps_add(m0, 1, n1);
            lemma_steps_add(m0, 1 + n1, 1);
            lemma_steps_add(m0, 1 + n1 + 1, n2);
            lemma_steps_add(m0, 1 + n1 + 1 + n2, 1);
            1 + n1 + 1 + n2 + 1
        },
        ExprView::Unary { op, arg } => {
            let a = plain_value(env, *arg)->Some_0;
            let s1 = stack.push(FrameView::Unary { op });
            assert(s1.drop_last() =~= stack);
            let n1 = eval_steps(env, s1, *arg);
            let m2 = mv(env, CtrlView::Val(a), s1);
            lemma_one_step(m0);
            lemma_one_step(m2);
            lemma_steps_add(m0, 1, n1);
            lemma_steps_add(m0, 1 + n1, 1);
            1 + n1 + 1
        },
        ExprView::Index { expr, idx } => {
            let vs = plain_value(env, *expr)->Some_0->Array_0;
            let i = plain_value(env, *idx)->Some_0;
            let s1 = stack.push(FrameView::IndexBase { idx: *idx });
            let s2 = stack.push(FrameView::IndexPos { arr: vs });
            assert(s1.drop_last() =~= stack);
            assert(s2.drop_last() =~= stack);
            let n1 = eval_steps(env, s1, *expr);
            let n2 = eval_steps(env, s2, *idx);
            let m2 = mv(env, CtrlView::Val(ValueView::Array(vs)), s1);
            let m4 = mv(env, CtrlView::Val(i), s2);
            lemma_one_step(m0);
            lemma_one_step(m2);
            lemma_one_step(m4);
            lemma_steps_add(m0, 1, n1);
            lemma_steps_add(m0, 1 + n1, 1);
            lemma_steps_add(m0, 1 + n1 + 1, n2);
            lemma_steps_add(m0, 1 + n1 + 1 + n2, 1);
            1 + n1 + 1 + n2 + 1
        },
        _ => 0,
    }
}

/// An expression of literals, variables, operators and indexing evaluates to its
/// value, built from the values of its parts as the operators give them, leaving
/// the variables and the stack as they were.
pub proof fn law_plain_expressions_evaluate(env: EnvView, stack: Seq<FrameView>, e: ExprView)
    requires
        plain_value(env, e) is Some,
    ensures
        exists|n: nat|
            #[trigger] steps(mv(env, CtrlView::Eval(e), stack), n) == mv(
                env,
                CtrlView::Val(plain_value(env, e)->Some_0),
                stack,
            ),
{
    let n = eval_steps(env, stack, e);
    assert(steps(mv(env, CtrlView::Eval(e), stack), n) == mv(env, CtrlView::Val(plain_value(env, e)->Some_0), stack));
}

/// `let name = e;` with such an expression binds the name to the expression's
/// value and finishes, the stack as it was.
pub proof fn law_let_binds_value(env: EnvView, stack: Seq<FrameView>, name: Seq<char>, e: ExprView)
    requires
        plain_value(env, e) is Some,
    ensures
        exists|n: nat|
            #[trigger] steps(mv(env, CtrlView::Exec(StmtView::Let { name, expr: e }), stack), n) == mv(
                EnvView { vars: env.vars.insert(name, plain_value(env, e)->Some_0), ..env },
                CtrlView::Done,
                stack,
            ),
{
    let v = plain_value(env, e)->Some_0;
    let s1 = stack.push(FrameView::Let { name });
    assert(s1.drop_last() =~= stack);
    let m0 = mv(env, CtrlView::Exec(StmtView::Let { name, expr: e }), stack);
    let n1 = eval_steps(env, s1, e);
    lemma_one_step(m0);
    lemma_one_step(mv(env, CtrlView::Val(v), s1));
    lemma_steps_add(m0, 1, n1);
    lemma_steps_add(m0, 1 + n1, 1);
    let n = 1 + n1 + 1;
    assert(steps(m0, n) == mv(EnvView { vars: env.vars.insert(name, v), ..env }, CtrlView::Done, stack));
}

/// A call binds each parameter to its argument, over the variables the function
/// was declared with; other names keep their values there.
pub proof fn law_call_binds_parameters(
    vars: Map<Seq<char>, ValueView>,
    names: Seq<Seq<char>>,
    vals: Seq<ValueView>,
)
    requires
        names.len() == vals.len(),
        forall|i: int, j: int| 0 <= i < j < names.len() ==> names[i] != names[j],
    ensures
        forall|i: int|
            0 <= i < names.len() ==> bind(vars, names, vals).contains_key(#[trigger] names[i])
                && bind(vars, names, vals)[names[i]] == vals[i],
        forall|k: Seq<char>|
            !names.contains(k) ==> (#[trigger] bind(vars, names, vals).contains_key(k) <==> vars.contains_key(k)),
        forall|k: Seq<char>|
            !names.contains(k) && vars.contains_key(k) ==> #[trigger] bind(vars, names, vals)[k] == vars[k],
    decreases names.len(),
{
    if names.len() > 0 {
        let ns = names.drop_last();
        let vs = vals.drop_last();
        let last = names.last();
        law_call_binds_parameters(vars, ns, vs);
        assert forall|i: int| 0 <= i < names.len() implies bind(vars, names, vals).contains_key(#[trigger] names[i])
            && bind(vars, names, vals)[names[i]] == vals[i] by {
            if i < names.len() - 1 {
                assert(ns[i] == names[i]);
                assert(names[i] != last);
            }
        }
        assert forall|k: Seq<char>| !names.contains(k) implies (#[trigger] bind(vars, names, vals).contains_key(k)
            <==> vars.contains_key(k)) by {
            assert(k != last) by {
                if k == last {
                    assert(names[names.len() - 1] == k);
                    assert(names.contains(k));
                }
            }
            assert(!ns.contains(k)) by {
                if ns.contains(k) {
                    let j = choose|j: int| 0 <= j < ns.len() && ns[j] == k;
                    assert(names[j] == k);
                    assert(names.contains(k));
                }
            }
            assert(bind(vars, names, vals) == bind(vars, ns, vs).insert(last, vals.last()));
            assert(bind(vars, ns, vs).contains_key(k) <==> vars.contains_key(k));
        }
        assert forall|k: Seq<char>| !names.contains(k) && vars.contains_key(k) implies #[trigger] bind(
            vars,
            names,
            vals,
        )[k] == vars[k] by {
            assert(k != last) by {
                if k == last {
                    assert(names[names.len() - 1] == k);
                    assert(names.contains(k));
                }
            }
            assert(!ns.contains(k)) by {
                if ns.contains(k) {
                    let j = choose|j: int| 0 <= j < ns.len() && ns[j] == k;
                    assert(names[j] == k);
                    assert(names.contains(k));
                }
            }
            assert(bind(vars, names, vals) == bind(vars, ns, vs).insert(last, vals.last()));
            assert(bind(vars, ns, vs).contains_key(k) <==> vars.contains_key(k));
        }
    }
}

// ---------------------------------------------------------------------------
// Blocks.  A step looks at the top frame of the stack only, so a block frame
// further down, or one under an expression or a statement that is starting,
// does not change what happens; a block frame on top decides by the statements it
// has left.
// ---------------------------------------------------------------------------

/// The machine with the frame at `k` replaced by `g`.
pub open spec fn with_frame(m: MachineView, k: int, g: FrameView) -> MachineView {
    MachineView { stack: m.stack.update(k, g), ..m }
}

/// A step does not look at the frame at `k` when another frame lies above it, or
/// when an expression or a statement is being started.
#[verifier::spinoff_prover]
#[verifier::rlimit(50)]
proof fn lemma_step_leaves_frame(m: MachineView, k: int, g: FrameView)
    requires
        0 <= k < m.stack.len(),
        k < m.stack.len() - 1 || !(m.ctrl is Val || m.ctrl is Done || m.ctrl is Raise),
    ensures
        ({
            let (n, a) = spec_step(m);
            let (n2, a2) = spec_step(with_frame(m, k, g));
            &&& a2 == a
            &&& k < n.stack.len()
            &&& n.stack[k] == m.stack[k]
            &&& n.stack.subrange(0, k) == m.stack.subrange(0, k)
            &&& n2 == with_frame(n, k, g)
        }),
{
    let st = m.stack;
    let st2 = st.update(k, g);
    assert forall|x: FrameView| #[trigger] st.push(x).subrange(0, k) == st.subrange(0, k) by {
        assert(st.push(x).subrange(0, k) =~= st.subrange(0, k));
    }
    assert forall|x: FrameView, y: FrameView| #[trigger] st.push(x).push(y).subrange(0, k) == st.subrange(0, k) by {
        assert(st.push(x).push(y).subrange(0, k) =~= st.subrange(0, k));
    }
    assert forall|x: FrameView| #[trigger] st2.push(x) == st.push(x).update(k, g) by {
        assert(st2.push(x) =~= st.push(x).update(k, g));
    }
    assert forall|x: FrameView, y: FrameView| #[trigger] st2.push(x).push(y) == st.push(x).push(y).update(k, g) by {
        assert(st2.push(x).push(y) =~= st.push(x).push(y).update(k, g));
    }
    if k < st.len() - 1 {
        let r = st.drop_last();
        let r2 = st2.drop_last();
        assert(r2 =~= r.update(k, g));
        assert(st2.last() == st.last());
        assert(r.subrange(0, k) =~= st.subrange(0, k));
        assert forall|x: FrameView| #[trigger] r.push(x).subrange(0, k) == st.subrange(0, k) by {
            assert(r.push(x).subrange(0, k) =~= st.subrange(0, k));
        }
        assert forall|x: FrameView, y: FrameView| #[trigger] r.push(x).push(y).subrange(0, k) == st.subrange(0, k) by {
            assert(r.push(x).push(y).subrange(0, k) =~= st.subrange(0, k));
        }
        assert forall|x: FrameView| #[trigger] r2.push(x) == r.push(x).update(k, g) by {
            assert(r2.push(x) =~= r.push(x).update(k, g));
        }
        assert forall|x: FrameView, y: FrameView| #[trigger] r2.push(x).push(y) == r.push(x).push(y).update(
            k,
            g,
        ) by {
            assert(r2.push(x).push(y) =~= r.push(x).push(y).update(k, g));
        }
    }
}

/// Block frames over `s1` and `s2`, the second `d` statements further on, where the
/// statements `f1` has left begin the statements `f2` has left (are all of them,
/// where `same` holds).
pub open spec fn block_leads(f1: FrameView, f2: FrameView, s1: Seq<StmtView>, s2: Seq<StmtView>, d: int, same: bool) -> bool {
    &&& f1 matches FrameView::Block { stmts, next } && stmts == s1 && 0 <= next <= s1.len()
        && f2 == FrameView::Block { stmts: s2, next: next + d }
    &&& 0 <= d
    &&& s1.len() + d <= s2.len()
    &&& (same ==> s1.len() + d == s2.len())
    &&& forall|x: int| 0 <= x < s1.len() ==> #[trigger] s1[x] == s2[x + d]
}

/// `m2` is `m1` but for a block frame at `k` as above; `base` are the frames below it.
pub open spec fn runs_ahead(
    m1: MachineView,
    m2: MachineView,
    base: Seq<FrameView>,
    k: int,
    s1: Seq<StmtView>,
    s2: Seq<StmtView>,
    d: int,
    same: bool,
) -> bool {
    &&& 0 <= k < m1.stack.len()
    &&& m1.stack.subrange(0, k) == base
    &&& m2 == with_frame(m1, k, m2.stack[k])
    &&& block_leads(m1.stack[k], m2.stack[k], s1, s2, d, same)
}

/// `m`'s block frame at `k` is on top with no statement left, and a statement just
/// finished: the next step ends the block.
pub open spec fn block_ends(m: MachineView, k: int) -> bool {
    &&& m.ctrl is Done
    &&& m.stack.len() == k + 1
    &&& m.stack[k] matches FrameView::Block { stmts, next } && next == stmts.len()
}

/// One step keeps two such machines alike: the same action, and again one ahead
/// of the other, or the same machine once the block frame is gone.
proof fn lemma_step_runs_ahead(
    m1: MachineView,
    m2: MachineView,
    base: Seq<FrameView>,
    k: int,
    s1: Seq<StmtView>,
    s2: Seq<StmtView>,
    d: int,
    same: bool,
)
    requires
        runs_ahead(m1, m2, base, k, s1, s2, d, same),
        same || !block_ends(m1, k),
    ensures
        spec_step(m1).1 == spec_step(m2).1,
        runs_ahead(spec_step(m1).0, spec_step(m2).0, base, k, s1, s2, d, same) || spec_step(m1).0 == spec_step(m2).0,
{
    let g = m2.stack[k];
    let f = m1.stack[k];
    if k < m1.stack.len() - 1 || !(m1.ctrl is Val || m1.ctrl is Done || m1.ctrl is Raise) {
        lemma_step_leaves_frame(m1, k, g);
        let n = spec_step(m1).0;
        assert(spec_step(m2).0 == with_frame(n, k, g));
        assert(with_frame(n, k, g).stack[k] == g);
    } else {
        let rest = m1.stack.drop_last();
        assert(m2.stack.drop_last() =~= rest);
        assert(m1.stack.last() == f);
        assert(m2.stack.last() == g);
        let i = f->Block_next;
        if m1.ctrl is Done && i < s1.len() {
            assert(s1[i] == s2[i + d]);
            let n1 = mv(m1.env, CtrlView::Exec(s1[i]), rest.push(FrameView::Block { stmts: s1, next: i + 1 }));
            let n2 = mv(m1.env, CtrlView::Exec(s2[i + d]), rest.push(FrameView::Block { stmts: s2, next: i + 1 + d }));
            assert(spec_step(m1).0 == n1);
            assert(spec_step(m2).0 == n2);
            assert(n2.stack =~= n1.stack.update(k, n2.stack[k]));
            assert(n1.stack.subrange(0, k) =~= m1.stack.subrange(0, k));
            assert(block_leads(n1.stack[k], n2.stack[k], s1, s2, d, same));
        }
    }
}

/// Runs of `steps` keep two such machines alike, as long as `m1`'s block does not
/// end while `m2`'s has statements left.
proof fn lemma_runs_ahead(
    m1: MachineView,
    m2: MachineView,
    base: Seq<FrameView>,
    k: int,
    s1: Seq<StmtView>,
    s2: Seq<StmtView>,
    d: int,
    same: bool,
    n: nat,
)
    requires
        runs_ahead(m1, m2, base, k, s1, s2, d, same),
        forall|t: nat| t < n ==> same || !block_ends(#[trigger] steps(m1, t), k),
    ensures
        runs_ahead(steps(m1, n), steps(m2, n), base, k, s1, s2, d, same) || steps(m1, n) == steps(m2, n),
        forall|t: nat| t < n ==> spec_step(#[trigger] steps(m1, t)).1 == spec_step(steps(m2, t)).1,
    decreases n,
{
    if n > 0 {
        let p = (n - 1) as nat;
        lemma_runs_ahead(m1, m2, base, k, s1, s2, d, same, p);
        lemma_steps_add(m1, p, 1);
        lemma_steps_add(m2, p, 1);
        lemma_one_step(steps(m1, p));
        lemma_one_step(steps(m2, p));
        if runs_ahead(steps(m1, p), steps(m2, p), base, k, s1, s2, d, same) {
            assert(same || !block_ends(steps(m1, p), k));
            lemma_step_runs_ahead(steps(m1, p), steps(m2, p), base, k, s1, s2, d, same);
        }
        assert forall|t: nat| t < n implies spec_step(#[trigger] steps(m1, t)).1 == spec_step(steps(m2, t)).1 by {
            if t < p {
            }
        }
    }
}

/// Running the statements `b1` followed by `b2` goes as running `b1`: step by
/// step the same actions are asked of the caller, the same variables are kept, and
/// an error or a `ret` that leaves `b1` leaves the whole block the same way.  When
/// `b1` ends normally, after `n` steps, the whole block stands at `b2` with the
/// variables `b1` left, and `b1`'s run is over with those variables.
pub proof fn law_block_concat(env: EnvView, stack: Seq<FrameView>, b1: Seq<StmtView>, b2: Seq<StmtView>, n: nat)
    requires
        forall|t: nat|
            t < n ==> !block_ends(
                #[trigger] steps(mv(env, CtrlView::Done, stack.push(FrameView::Block { stmts: b1, next: 0 })), t),
                stack.len() as int,
            ),
    ensures
        ({
            let k = stack.len() as int;
            let m1 = mv(env, CtrlView::Done, stack.push(FrameView::Block { stmts: b1, next: 0 }));
            let m2 = mv(env, CtrlView::Done, stack.push(FrameView::Block { stmts: b1 + b2, next: 0 }));
            let r1 = steps(m1, n);
            let r2 = steps(m2, n);
            &&& forall|t: nat| t < n ==> spec_step(#[trigger] steps(m1, t)).1 == spec_step(steps(m2, t)).1
            &&& runs_ahead(r1, r2, stack, k, b1, b1 + b2, 0, false) || r1 == r2
            &&& runs_ahead(r1, r2, stack, k, b1, b1 + b2, 0, false) && block_ends(r1, k) ==> {
                &&& r2 == mv(r1.env, CtrlView::Done, stack.push(FrameView::Block { stmts: b1 + b2, next: b1.len() as int }))
                &&& steps(m1, n + 1) == mv(r1.env, CtrlView::Done, stack)
            }
        }),
{
    let k = stack.len() as int;
    let m1 = mv(env, CtrlView::Done, stack.push(FrameView::Block { stmts: b1, next: 0 }));
    let m2 = mv(env, CtrlView::Done, stack.push(FrameView::Block { stmts: b1 + b2, next: 0 }));
    assert(m2.stack =~= m1.stack.update(k, m2.stack[k]));
    assert(m1.stack.subrange(0, k) =~= stack);
    assert(runs_ahead(m1, m2, stack, k, b1, b1 + b2, 0, false));
    lemma_runs_ahead(m1, m2, stack, k, b1, b1 + b2, 0, false, n);
    let r1 = steps(m1, n);
    let r2 = steps(m2, n);
    if runs_ahead(r1, r2, stack, k, b1, b1 + b2, 0, false) && block_ends(r1, k) {
        assert(r1.stack =~= r1.stack.subrange(0, k).push(r1.stack[k]));
        assert(r1.stack =~= stack.push(FrameView::Block { stmts: b1, next: b1.len() as int }));
        assert(r2.stack =~= stack.push(FrameView::Block { stmts: b1 + b2, next: b1.len() as int }));
        lemma_steps_add(m1, n, 1);
        lemma_one_step(r1);
        assert(r1.stack.drop_last() =~= stack);
    }
}

/// A block frame over `b1 + b2` standing at `b2` runs exactly as a block of `b2`
/// alone: after any number of steps the same actions were asked, and the machines
/// agree but for that frame, or are the same machine.
pub proof fn law_block_rest_runs_alone(
    env: EnvView,
    stack: Seq<FrameView>,
    b1: Seq<StmtView>,
    b2: Seq<StmtView>,
    n: nat,
)
    ensures
        ({
            let k = stack.len() as int;
            let m1 = mv(env, CtrlView::Done, stack.push(FrameView::Block { stmts: b2, next: 0 }));
            let m2 = mv(env, CtrlView::Done, stack.push(FrameView::Block { stmts: b1 + b2, next: b1.len() as int }));
            &&& forall|t: nat| t < n ==> spec_step(#[trigger] steps(m1, t)).1 == spec_step(steps(m2, t)).1
            &&& runs_ahead(steps(m1, n), steps(m2, n), stack, k, b2, b1 + b2, b1.len() as int, true) || steps(m1, n)
                == steps(m2, n)
        }),
{
    let k = stack.len() as int;
    let m1 = mv(env, CtrlView::Done, stack.push(FrameView::Block { stmts: b2, next: 0 }));
    let m2 = mv(env, CtrlView::Done, stack.push(FrameView::Block { stmts: b1 + b2, next: b1.len() as int }));
    assert(m2.stack =~= m1.stack.update(k, m2.stack[k]));
    assert(m1.stack.subrange(0, k) =~= stack);
    assert(runs_ahead(m1, m2, stack, k, b2, b1 + b2, b1.len() as int, true));
    lemma_runs_ahead(m1, m2, stack, k, b2, b1 + b2, b1.len() as int, true, n);
}

/// The caller's answer keeps two such machines alike: runs that wait for the
/// caller go on alike once both get the same answer.
pub proof fn law_block_runs_resume_alike(
    m1: MachineView,
    m2: MachineView,
    base: Seq<FrameView>,
    k: int,
    s1: Seq<StmtView>,
    s2: Seq<StmtView>,
    d: int,
    same: bool,
    answer: Result<ValueView, RuntimeErrorView>,
)
    requires
        runs_ahead(m1, m2, base, k, s1, s2, d, same),
    ensures
        runs_ahead(spec_resume(m1, answer), spec_resume(m2, answer), base, k, s1, s2, d, same),
{
}

/// `val_ne` is the negation of `val_eq`, and both fail on the same pairs, for the
/// values compared without floating point.
pub proof fn law_val_ne_negates_val_eq(a: ValueView, b: ValueView)
    requires
        !cmp_float(a, b),
    ensures
        spec_val_eq(a, b, true) is Err <==> spec_val_eq(a, b, false) is Err,
        spec_val_eq(a, b, true) matches Ok(ValueView::Bool(x)) ==> spec_val_eq(a, b, false) == Ok::<
            ValueView,
            RuntimeErrorView,
        >(ValueView::Bool(!x)),
{
}

/// `a.val_gt(b)` agrees with `b.val_lt(a)`, and `a.val_ge(b)` with `b.val_le(a)`:
/// both fail (where a string takes part) or both give the same answer, for the
/// values compared without floating point.
pub proof fn law_val_gt_is_swapped_val_lt(a: ValueView, b: ValueView)
    requires
        !cmp_float(a, b),
    ensures
        spec_val_order(a, b, 1, "cannot compare strings with >") is Err <==> (a is Str || b is Str),
        spec_val_order(b, a, 0, "cannot compare strings with <") is Err <==> (a is Str || b is Str),
        spec_val_order(a, b, 1, "cannot compare strings with >") is Ok ==> spec_val_order(
            a,
            b,
            1,
            "cannot compare strings with >",
        ) == spec_val_order(b, a, 0, "cannot compare strings with <"),
        spec_val_order(a, b, 3, "cannot compare strings with >=") is Ok ==> spec_val_order(
            a,
            b,
            3,
            "cannot compare strings with >=",
        ) == spec_val_order(b, a, 2, "cannot compare strings with <="),
{
}

/// Running `b1` followed by `b2` is running `b1`, and then, where `b1` ended
/// normally after `n` steps, running `b2` in the variables `b1` left: from there
/// on the whole block asks the same of the caller as `b2` alone, step by step, and
/// the two runs agree but for the block frame, or are the same machine once the
/// frame is gone, so they end with the same result and the same variables.
pub proof fn law_block_concat_runs_in_turn(
    env: EnvView,
    stack: Seq<FrameView>,
    b1: Seq<StmtView>,
    b2: Seq<StmtView>,
    n: nat,
    m: nat,
)
    requires
        forall|t: nat|
            t < n ==> !block_ends(
                #[trigger] steps(mv(env, CtrlView::Done, stack.push(FrameView::Block { stmts: b1, next: 0 })), t),
                stack.len() as int,
            ),
        runs_ahead(
            steps(mv(env, CtrlView::Done, stack.push(FrameView::Block { stmts: b1, next: 0 })), n),
            steps(mv(env, CtrlView::Done, stack.push(FrameView::Block { stmts: b1 + b2, next: 0 })), n),
            stack,
            stack.len() as int,
            b1,
            b1 + b2,
            0,
            false,
        ),
        block_ends(
            steps(mv(env, CtrlView::Done, stack.push(FrameView::Block { stmts: b1, next: 0 })), n),
            stack.len() as int,
        ),
    ensures
        ({
            let k = stack.len() as int;
            let m1 = mv(env, CtrlView::Done, stack.push(FrameView::Block { stmts: b1, next: 0 }));
            let m2 = mv(env, CtrlView::Done, stack.push(FrameView::Block { stmts: b1 + b2, next: 0 }));
            let env1 = steps(m1, n).env;
            let mb2 = mv(env1, CtrlView::Done, stack.push(FrameView::Block { stmts: b2, next: 0 }));
            &&& steps(m1, n + 1) == mv(env1, CtrlView::Done, stack)
            &&& forall|t: nat| t < m ==> spec_step(#[trigger] steps(mb2, t)).1 == spec_step(steps(m2, n + t)).1
            &&& runs_ahead(steps(mb2, m), steps(m2, n + m), stack, k, b2, b1 + b2, b1.len() as int, true)
                || steps(mb2, m) == steps(m2, n + m)
        }),
{
    let m1 = mv(env, CtrlView::Done, stack.push(FrameView::Block { stmts: b1, next: 0 }));
    let m2 = mv(env, CtrlView::Done, stack.push(FrameView::Block { stmts: b1 + b2, next: 0 }));
    law_block_concat(env, stack, b1, b2, n);
    let env1 = steps(m1, n).env;
    let r2 = steps(m2, n);
    law_block_rest_runs_alone(env1, stack, b1, b2, m);
    lemma_steps_add(m2, n, m);
    assert forall|t: nat| t < m implies steps(m2, n + t) == steps(r2, t) by {
        lemma_steps_add(m2, n, t);
    }
}

// ---------------------------------------------------------------------------
// Choosing by a condition.
// ---------------------------------------------------------------------------

/// Whether a value counts as true in a condition: a boolean is itself, an integer
/// is true where it is not zero, any other value is false.
pub open spec fn counts_true(v: ValueView) -> bool {
    match v {
        ValueView::Bool(b) => b,
        ValueView::Int(n) => n != 0,
        _ => false,
    }
}

/// Conditions that have a value that is no float.
pub open spec fn plain_conditions(env: EnvView, branches: Seq<(ExprView, Seq<StmtView>)>) -> bool {
    forall|i: int|
        0 <= i < branches.len() ==> #[trigger] plain_value(env, branches[i].0) is Some && !(plain_value(
            env,
            branches[i].0,
        )->Some_0 is Float)
}

/// The block that an `if` / `elif` / `else` chain runs, looking from branch `k`
/// on: the first branch whose condition counts as true, else the `else` block.
pub open spec fn chosen_block(
    env: EnvView,
    branches: Seq<(ExprView, Seq<StmtView>)>,
    else_body: Option<Seq<StmtView>>,
    k: int,
) -> Option<Seq<StmtView>>
    decreases branches.len() - k,
{
    if k < 0 || k >= branches.len() {
        else_body
    } else if counts_true(plain_value(env, branches[k].0)->Some_0) {
        Some(branches[k].1)
    } else {
        chosen_block(env, branches, else_body, k + 1)
    }
}

/// The machine about to run a block, or done where there is none.
pub open spec fn entered(env: EnvView, stack: Seq<FrameView>, b: Option<Seq<StmtView>>) -> MachineView {
    match b {
        Some(stmts) => mv(env, CtrlView::Done, stack.push(FrameView::Block { stmts, next: 0 })),
        None => mv(env, CtrlView::Done, stack),
    }
}

proof fn if_steps_from(
    env: EnvView,
    stack: Seq<FrameView>,
    branches: Seq<(ExprView, Seq<StmtView>)>,
    else_body: Option<Seq<StmtView>>,
    k: int,
) -> (n: nat)
    requires
        0 <= k < branches.len(),
        plain_conditions(env, branches),
    ensures
        steps(
            mv(env, CtrlView::Eval(branches[k].0), stack.push(FrameView::IfCond { branches, next: k, else_body })),
            n,
        ) == entered(env, stack, chosen_block(env, branches, else_body, k)),
    decreases branches.len() - k,
{
    let s1 = stack.push(FrameView::IfCond { branches, next: k, else_body });
    assert(s1.drop_last() =~= stack);
    let m0 = mv(env, CtrlView::Eval(branches[k].0), s1);
    assert(plain_value(env, branches[k].0) is Some);
    let v = plain_value(env, branches[k].0)->Some_0;
    let n1 = eval_steps(env, s1, branches[k].0);
    let m1 = mv(env, CtrlView::Val(v), s1);
    lemma_one_step(m1);
    lemma_steps_add(m0, n1, 1);
    assert(!(v is Float));
    assert(crate::machine::truthy(v) == counts_true(v));
    assert(s1.last() == FrameView::IfCond { branches, next: k, else_body });
    if counts_true(v) {
        assert(spec_step(m1).0 == entered(env, stack, Some(branches[k].1)));
        n1 + 1
    } else if k + 1 >= branches.len() {
        assert(chosen_block(env, branches, else_body, k + 1) == else_body);
        assert(spec_step(m1).0 == entered(env, stack, else_body));
        n1 + 1
    } else {
        let n2 = if_steps_from(env, stack, branches, else_body, k + 1);
        assert(spec_step(m1).0 == mv(
            env,
            CtrlView::Eval(branches[k + 1].0),
            stack.push(FrameView::IfCond { branches, next: k + 1, else_body }),
        ));
        lemma_steps_add(m0, n1 + 1, n2);
        n1 + 1 + n2
    }
}

/// An `if` / `elif` / `else` chain whose conditions have values runs the block of
/// the first branch whose condition counts as true, else its `else` block, else
/// nothing; the variables and the stack are left as they were.
pub proof fn law_if_runs_first_true_branch(
    env: EnvView,
    stack: Seq<FrameView>,
    branches: Seq<(ExprView, Seq<StmtView>)>,
    else_body: Option<Seq<StmtView>>,
)
    requires
        plain_conditions(env, branches),
    ensures
        exists|n: nat|
            #[trigger] steps(mv(env, CtrlView::Exec(StmtView::If { branches, else_body }), stack), n) == entered(
                env,
                stack,
                chosen_block(env, branches, else_body, 0),
            ),
{
    let m0 = mv(env, CtrlView::Exec(StmtView::If { branches, else_body }), stack);
    lemma_one_step(m0);
    if branches.len() == 0 {
        assert(steps(m0, 1) == entered(env, stack, chosen_block(env, branches, else_body, 0)));
    } else {
        let n = if_steps_from(env, stack, branches, else_body, 0);
        lemma_steps_add(m0, 1, n);
        assert(steps(m0, 1 + n) == entered(env, stack, chosen_block(env, branches, else_body, 0)));
    }
}

/// A `while` loop whose condition has a value that counts as true runs its body
/// and then starts over; one whose condition counts as false is done, the
/// variables and the stack as they were.
pub proof fn law_while_tests_condition(env: EnvView, stack: Seq<FrameView>, cond: ExprView, body: Seq<StmtView>)
    requires
        plain_value(env, cond) is Some,
        !(plain_value(env, cond)->Some_0 is Float),
    ensures
        exists|n: nat|
            #[trigger] steps(mv(env, CtrlView::Exec(StmtView::While { cond, body }), stack), n) == if counts_true(
                plain_value(env, cond)->Some_0,
            ) {
                mv(
                    env,
                    CtrlView::Done,
                    stack.push(FrameView::WhileBody { cond, body }).push(FrameView::Block { stmts: body, next: 0 }),
                )
            } else {
                mv(env, CtrlView::Done, stack)
            },
        steps(mv(env, CtrlView::Done, stack.push(FrameView::WhileBody { cond, body })), 1) == steps(
            mv(env, CtrlView::Exec(StmtView::While { cond, body }), stack),
            1,
        ),
{
    let m0 = mv(env, CtrlView::Exec(StmtView::While { cond, body }), stack);
    let s1 = stack.push(FrameView::WhileCond { cond, body });
    assert(s1.drop_last() =~= stack);
    let v = plain_value(env, cond)->Some_0;
    let n1 = eval_steps(env, s1, cond);
    lemma_one_step(m0);
    lemma_one_step(mv(env, CtrlView::Val(v), s1));
    lemma_steps_add(m0, 1, n1);
    lemma_steps_add(m0, 1 + n1, 1);
    let wb = stack.push(FrameView::WhileBody { cond, body });
    assert(wb.drop_last() =~= stack);
    lemma_one_step(mv(env, CtrlView::Done, wb));
    assert(steps(m0, 1 + n1 + 1) == if counts_true(v) {
        mv(env, CtrlView::Done, wb.push(FrameView::Block { stmts: body, next: 0 }))
    } else {
        mv(env, CtrlView::Done, stack)
    });
}

// ---------------------------------------------------------------------------
// What a `for` loop walks over.
// ---------------------------------------------------------------------------

/// How many values a `for` loop has still to give.
pub open spec fn items_left(items: ForItemsView) -> int {
    match items {
        ForItemsView::Ints { next, end } => if next < end { end - next } else { 0 },
        ForItemsView::Floats { next, end } => if next < end { end - next } else { 0 },
        ForItemsView::Items { vals, next } => if 0 <= next < vals.len() { vals.len() - next } else { 0 },
        ForItemsView::Chars { text, next } => if 0 <= next < text.len() { text.len() - next } else { 0 },
    }
}

/// The values a `for` loop still gives, in order (each value given leaves fewer
/// to give, so the second branch is never taken).
pub open spec fn walk(items: ForItemsView) -> Seq<ValueView>
    decreases items_left(items),
{
    match next_item(items) {
        Some((x, rest)) => if items_left(rest) < items_left(items) {
            seq![x] + walk(rest)
        } else {
            seq![x]
        },
        None => seq![],
    }
}

/// What `for x in v` binds `x` to, in turn: the integers from 0 up to (not
/// including) an integer, the members of an array, the characters of a string.
pub open spec fn for_values(v: ValueView) -> Seq<ValueView> {
    match v {
        ValueView::Int(n) => Seq::new(if n > 0 { n as nat } else { 0 }, |i: int| ValueView::Int(i as i64)),
        ValueView::Array(a) => a,
        ValueView::Str(t) => Seq::new(t.len(), |i: int| ValueView::Str(seq![t[i]])),
        _ => seq![],
    }
}

proof fn lemma_walk_ints(k: i64, n: i64)
    requires
        0 <= k,
    ensures
        walk(ForItemsView::Ints { next: k, end: n }) =~= Seq::new(
            if n > k { (n - k) as nat } else { 0 },
            |i: int| ValueView::Int((k + i) as i64),
        ),
    decreases n - k,
{
    if k < n {
        lemma_walk_ints((k + 1) as i64, n);
        let w = walk(ForItemsView::Ints { next: k, end: n });
        let r = walk(ForItemsView::Ints { next: (k + 1) as i64, end: n });
        assert(w == seq![ValueView::Int(k)] + r);
        assert forall|i: int| 0 <= i < n - k implies #[trigger] w[i] == ValueView::Int((k + i) as i64) by {
            if i > 0 {
                assert(w[i] == r[i - 1]);
            }
        }
    }
}

proof fn lemma_walk_items(a: Seq<ValueView>, k: int)
    requires
        0 <= k <= a.len(),
    ensures
        walk(ForItemsView::Items { vals: a, next: k }) =~= a.subrange(k, a.len() as int),
    decreases a.len() - k,
{
    if k < a.len() {
        lemma_walk_items(a, k + 1);
        let w = walk(ForItemsView::Items { vals: a, next: k });
        let r = walk(ForItemsView::Items { vals: a, next: k + 1 });
        assert(w == seq![a[k]] + r);
        assert forall|i: int| 0 <= i < a.len() - k implies #[trigger] w[i] == a[k + i] by {
            if i > 0 {
                assert(w[i] == r[i - 1]);
            }
        }
    }
}

proof fn lemma_walk_chars(t: Seq<char>, k: int)
    requires
        0 <= k <= t.len(),
    ensures
        walk(ForItemsView::Chars { text: t, next: k }) =~= Seq::new(
            (t.len() - k) as nat,
            |i: int| ValueView::Str(seq![t[k + i]]),
        ),
    decreases t.len() - k,
{
    if k < t.len() {
        lemma_walk_chars(t, k + 1);
        let w = walk(ForItemsView::Chars { text: t, next: k });
        let r = walk(ForItemsView::Chars { text: t, next: k + 1 });
        assert(w == seq![ValueView::Str(seq![t[k]])] + r);
        assert forall|i: int| 0 <= i < t.len() - k implies #[trigger] w[i] == ValueView::Str(seq![t[k + i]]) by {
            if i > 0 {
                assert(w[i] == r[i - 1]);
            }
        }
    }
}

/// `for x in v` over an integer, an array or a string sets up a loop that walks
/// exactly the values of `v` in order: 0 up to the integer, the array's members,
/// the string's characters; the variables are untouched until the first pass.
pub proof fn law_for_walks_values(env: EnvView, stack: Seq<FrameView>, name: Seq<char>, v: ValueView, body: Seq<StmtView>)
    requires
        v is Int || v is Array || v is Str,
    ensures
        ({
            let m = start_for(env, stack, name, v, body).0;
            &&& m.env == env
            &&& m.ctrl is Done
            &&& m.stack.len() == stack.len() + 1
            &&& m.stack.drop_last() == stack
            &&& m.stack.last() is ForLoop
            &&& m.stack.last()->ForLoop_name == name
            &&& m.stack.last()->ForLoop_body == body
            &&& walk(m.stack.last()->ForLoop_items) == for_values(v)
        }),
{
    let m = start_for(env, stack, name, v, body).0;
    assert(m.stack.drop_last() =~= stack);
    match v {
        ValueView::Int(n) => {
            lemma_walk_ints(0, n);
        },
        ValueView::Array(a) => {
            lemma_walk_items(a, 0);
            assert(a.subrange(0, a.len() as int) =~= a);
        },
        ValueView::Str(t) => {
            lemma_walk_chars(t, 0);
        },
        _ => {},
    }
}

/// Each pass of a `for` loop binds the name to the next value of its walk and
/// runs the body, the loop keeping the rest of the walk.
pub proof fn law_for_pass(
    env: EnvView,
    stack: Seq<FrameView>,
    name: Seq<char>,
    items: ForItemsView,
    prior: Option<ValueView>,
    body: Seq<StmtView>,
)
    requires
        walk(items).len() > 0,
    ensures
        ({
            let m = step_done(env, stack.push(FrameView::ForLoop { name, items, prior, body })).0;
            &&& m.env.vars == env.vars.insert(name, walk(items)[0])
            &&& m.ctrl is Done
            &&& m.stack.len() == stack.len() + 2
            &&& m.stack.last() == FrameView::Block { stmts: body, next: 0 }
            &&& m.stack.drop_last().drop_last() == stack
            &&& m.stack.drop_last().last() is ForLoop
            &&& m.stack.drop_last().last()->ForLoop_name == name
            &&& m.stack.drop_last().last()->ForLoop_prior == prior
            &&& m.stack.drop_last().last()->ForLoop_body == body
            &&& walk(m.stack.drop_last().last()->ForLoop_items) == walk(items).drop_first()
        }),
{
    let st = stack.push(FrameView::ForLoop { name, items, prior, body });
    assert(st.drop_last() =~= stack);
    let (x, rest) = next_item(items)->Some_0;
    assert(items_left(rest) < items_left(items));
    assert(walk(items) == seq![x] + walk(rest));
    assert(walk(items).drop_first() =~= walk(rest));
    let m = step_done(env, st).0;
    assert(m.stack.drop_last().drop_last() =~= stack);
}

} // verus!
