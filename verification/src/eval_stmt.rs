use vstd::prelude::*;

use crate::ast::{
    duplicate_block, lemma_branches_index, lemma_stmts_index, AssignStmt, Block, ExprStmt, Expr,
    FnDeclStmt, ForICMStmt, ForInStmt, IfStmt, LetStmt, RetStmt, Stmt, WhileStmt,
};
use crate::build_env::{build_env, builtin_table};
use crate::display::decimal_text;
use crate::error::RuntimeError;
use crate::eval::{duplicate_vars, EnvView, Environment, UserFn};
use crate::eval_expr::{eval_binary, eval_expr, eval_unary, is_float};
use crate::machine::{
    apply_binary, apply_unary, frame_wf, lemma_frames_pop, run_block, spec_resume,
    spec_step, step_done, step_exec, step_raise, step_value, Action, Ctrl, FloatWork, FloatWorkView,
    ForItems, Frame, FrameView, Machine, MachineView, CtrlView, PanicReason,
};
use crate::table::Table;
use crate::tokenizer::push_char;
use crate::value::{lemma_values_view_index, lemma_values_view_push, type_err, values_view, vres, Value};

verus! {

/// Starts a block: its statements run from the first.
pub fn eval_block(m: &mut Machine, body: Block) -> (a: Action)
    requires
        old(m).wf(),
    ensures
        final(m).wf(),
        (final(m)@, a@) == run_block(old(m)@.env, old(m)@.stack, crate::ast::stmts_view(body@)),
{
    m.push_frame(Frame::Block { stmts: body, next: 0 });
    m.ctrl = Ctrl::Done;
    Action::Continue
}

/// Takes a statement up: the expression it needs is evaluated first, with the rest
/// of the statement kept in a frame.
pub fn eval_stmt(m: &mut Machine, s: Stmt) -> (a: Action)
    requires
        old(m).wf(),
    ensures
        final(m).wf(),
        (final(m)@, a@) == step_exec(old(m)@.env, old(m)@.stack, s@),
{
    match s {
        Stmt::Let(LetStmt { name, expr }) => {
            m.push_frame(Frame::Let { name });
            m.ctrl = Ctrl::Eval(expr);
            Action::Continue
        },
        Stmt::Assign(AssignStmt { name, expr }) => {
            m.push_frame(Frame::Assign { name });
            m.ctrl = Ctrl::Eval(expr);
            Action::Continue
        },
        Stmt::Ret(RetStmt { expr }) => {
            m.push_frame(Frame::Ret);
            m.ctrl = Ctrl::Eval(expr);
            Action::Continue
        },
        Stmt::Expr(ExprStmt { expr }) => {
            m.push_frame(Frame::ExprStmt);
            m.ctrl = Ctrl::Eval(expr);
            Action::Continue
        },
        Stmt::If(i) => eval_if(m, i),
        Stmt::While(WhileStmt { block }) => {
            let cond = block.cond.duplicate();
            m.push_frame(Frame::WhileCond { cond: block.cond, body: block.body });
            m.ctrl = Ctrl::Eval(cond);
            Action::Continue
        },
        Stmt::FnDecl(f) => eval_fndecl(m, f),
        Stmt::ForIn(ForInStmt { lhs, rhs, block }) => {
            m.push_frame(Frame::ForRhs { lhs, body: block });
            m.ctrl = Ctrl::Eval(rhs);
            Action::Continue
        },
        Stmt::ForICM(ForICMStmt { init, cond, fmod, block }) => {
            m.push_frame(Frame::LoopInit { cond, fmod, body: block });
            m.ctrl = Ctrl::Exec(*init);
            Action::Continue
        },
        Stmt::Continue => {
            m.ctrl = Ctrl::Done;
            Action::Continue
        },
        Stmt::Break => {
            m.ctrl = Ctrl::Done;
            Action::Continue
        },
    }
}

/// An `if`: the first condition is evaluated; with no branch, the `else` block runs.
fn eval_if(m: &mut Machine, i: IfStmt) -> (a: Action)
    requires
        old(m).wf(),
    ensures
        final(m).wf(),
        (final(m)@, a@) == step_exec(old(m)@.env, old(m)@.stack, Stmt::If(i)@),
{
    proof {
        lemma_branches_index(i.branches@);
    }
    let IfStmt { branches, else_body } = i;
    if branches.len() > 0 {
        let cond = branches[0].cond.duplicate();
        m.push_frame(Frame::IfCond { branches, next: 0, else_body });
        m.ctrl = Ctrl::Eval(cond);
        Action::Continue
    } else {
        match else_body {
            Some(b) => eval_block(m, b),
            None => {
                m.ctrl = Ctrl::Done;
                Action::Continue
            },
        }
    }
}

/// A function declaration records the function with a copy of the variables as
/// they are now.
fn eval_fndecl(m: &mut Machine, f: FnDeclStmt) -> (a: Action)
    requires
        old(m).wf(),
    ensures
        final(m).wf(),
        (final(m)@, a@) == step_exec(old(m)@.env, old(m)@.stack, Stmt::FnDecl(f)@),
{
    let FnDeclStmt { name, args, body } = f;
    let vars = duplicate_vars(&m.env.vars);
    m.env.ufnlut.insert(name, UserFn { args, body, vars });
    m.ctrl = Ctrl::Done;
    Action::Continue
}

// ---------------------------------------------------------------------------
// A value arrives at the frame on top of the stack.
// ---------------------------------------------------------------------------

/// A condition that is a float is asked of the caller, with its frame kept.
fn ask_truth(m: &mut Machine, f: Frame, v: Value) -> (a: Action)
    requires
        old(m).wf(),
        frame_wf(f),
    ensures
        final(m).wf(),
        (final(m)@, a@) == (
            MachineView { env: old(m)@.env, ctrl: CtrlView::Wait, stack: old(m)@.stack.push(f@) },
            crate::machine::ActionView::Float(FloatWorkView::Truth(v@)),
        ),
{
    m.push_frame(f);
    m.ctrl = Ctrl::Wait;
    Action::Float(FloatWork::Truth(v))
}

/// A value arrives at a frame of an expression.
fn value_in_expr(m: &mut Machine, f: Frame, v: Value) -> (a: Action)
    requires
        old(m).wf(),
        frame_wf(f),
        f is BinaryLeft || f is BinaryRight || f is Unary || f is CallArgs || f is IndexBase
            || f is IndexPos || f is ArrayItems,
    ensures
        final(m).wf(),
        (final(m)@, a@) == step_value(old(m)@.env, old(m)@.stack.push(f@), v@),
{
    assert(old(m)@.stack.push(f@).drop_last() =~= old(m)@.stack);
    match f {
        Frame::BinaryLeft { op, right } => {
            m.push_frame(Frame::BinaryRight { op, left: v });
            m.ctrl = Ctrl::Eval(right);
            Action::Continue
        },
        Frame::BinaryRight { op, left } => {
            let ghost (opv, lv) = (op@, left@);
            let o = eval_binary(op, left, v);
            m.settle(o, Ghost(apply_binary(opv, lv, v@)), Ghost(FloatWorkView::Binary { op: opv, left: lv, right: v@ }))
        },
        Frame::Unary { op } => {
            let ghost opv = op@;
            let o = eval_unary(op, v);
            m.settle(o, Ghost(apply_unary(opv, v@)), Ghost(FloatWorkView::Unary { op: opv, arg: v@ }))
        },
        Frame::CallArgs { ident, args, next, done } => {
            proof {
                crate::ast::lemma_exprs_index(args@);
                lemma_values_view_push(done@, v);
            }
            let mut done = done;
            done.push(v);
            if next < args.len() {
                let e = args[next].duplicate();
                m.push_frame(Frame::CallArgs { ident, args, next: next + 1, done });
                m.ctrl = Ctrl::Eval(e);
                Action::Continue
            } else {
                m.eval_call(ident, done)
            }
        },
        Frame::IndexBase { idx } => match v {
            Value::Array(arr) => {
                m.push_frame(Frame::IndexPos { arr });
                m.ctrl = Ctrl::Eval(idx);
                Action::Continue
            },
            _ => {
                m.ctrl = Ctrl::Raise(type_err("cannot index non-array type"));
                Action::Continue
            },
        },
        Frame::IndexPos { arr } => index_value(m, arr, v),
        Frame::ArrayItems { members, next, done } => {
            proof {
                crate::ast::lemma_exprs_index(members@);
                lemma_values_view_push(done@, v);
            }
            let mut done = done;
            done.push(v);
            if next < members.len() {
                let e = members[next].duplicate();
                m.push_frame(Frame::ArrayItems { members, next: next + 1, done });
                m.ctrl = Ctrl::Eval(e);
                Action::Continue
            } else {
                m.ctrl = Ctrl::Val(Value::Array(done));
                Action::Continue
            }
        },
        _ => {
            m.ctrl = Ctrl::Val(v);
            Action::Continue
        },
    }
}

/// An index arrives for an array: the member it names, or a stop where it names
/// none or is not an integer.
fn index_value(m: &mut Machine, arr: Vec<Value>, v: Value) -> (a: Action)
    requires
        old(m).wf(),
    ensures
        final(m).wf(),
        (final(m)@, a@) == step_value(
            old(m)@.env,
            old(m)@.stack.push(FrameView::IndexPos { arr: values_view(arr@) }),
            v@,
        ),
{
    let ghost fv = FrameView::IndexPos { arr: values_view(arr@) };
    assert(old(m)@.stack.push(fv).drop_last() =~= old(m)@.stack);
    proof {
        lemma_values_view_index(arr@);
    }
    match v {
        Value::Int(i) => {
            if 0 <= i && (i as u128) < (arr.len() as u128) {
                let k = i as usize;
                m.ctrl = Ctrl::Val(arr[k].duplicate());
                Action::Continue
            } else {
                m.ctrl = Ctrl::Halted;
                Action::Panic(PanicReason::IndexOutOfBounds { len: arr.len(), index: #[verifier::truncate] (i as usize) })
            }
        },
        _ => {
            m.ctrl = Ctrl::Halted;
            Action::Panic(PanicReason::NonIntIndex)
        },
    }
}

/// A value arrives at a frame of a statement.
fn value_in_stmt(m: &mut Machine, f: Frame, v: Value) -> (a: Action)
    requires
        old(m).wf(),
        frame_wf(f),
        !(f is BinaryLeft || f is BinaryRight || f is Unary || f is CallArgs || f is IndexBase
            || f is IndexPos || f is ArrayItems),
    ensures
        final(m).wf(),
        (final(m)@, a@) == step_value(old(m)@.env, old(m)@.stack.push(f@), v@),
{
    assert(old(m)@.stack.push(f@).drop_last() =~= old(m)@.stack);
    match f {
        Frame::Let { name } => {
            m.env.vars.insert(name, v);
            m.ctrl = Ctrl::Done;
            Action::Continue
        },
        Frame::Assign { name } => {
            if m.env.vars.contains_key(&name) {
                m.env.vars.insert(name, v);
                m.ctrl = Ctrl::Done;
            } else {
                m.ctrl = Ctrl::Raise(RuntimeError::UnknownIdent(name));
            }
            Action::Continue
        },
        Frame::Ret => {
            m.ctrl = Ctrl::Raise(RuntimeError::Return(v));
            Action::Continue
        },
        Frame::ExprStmt => {
            m.ctrl = Ctrl::Done;
            Action::Continue
        },
        Frame::IfCond { branches, next, else_body } => {
            proof {
                lemma_branches_index(branches@);
            }
            if is_float(&v) {
                ask_truth(m, Frame::IfCond { branches, next, else_body }, v)
            } else if next < branches.len() && v.as_bool() {
                let body = duplicate_block(&branches[next].body);
                eval_block(m, body)
            } else if branches.len() > 0 && next < branches.len() - 1 {
                let cond = branches[next + 1].cond.duplicate();
                m.push_frame(Frame::IfCond { branches, next: next + 1, else_body });
                m.ctrl = Ctrl::Eval(cond);
                Action::Continue
            } else {
                match else_body {
                    Some(b) => eval_block(m, b),
                    None => {
                        m.ctrl = Ctrl::Done;
                        Action::Continue
                    },
                }
            }
        },
        Frame::WhileCond { cond, body } => {
            if is_float(&v) {
                ask_truth(m, Frame::WhileCond { cond, body }, v)
            } else if v.as_bool() {
                let b = duplicate_block(&body);
                m.push_frame(Frame::WhileBody { cond, body });
                eval_block(m, b)
            } else {
                m.ctrl = Ctrl::Done;
                Action::Continue
            }
        },
        Frame::ForRhs { lhs, body } => match lhs {
            Expr::Ident { ident } => eval_forin(m, ident, v, body),
            _ => {
                m.ctrl = Ctrl::Raise(type_err("expected identifier for 'for in'"));
                Action::Continue
            },
        },
        Frame::ForFloat { name, prior, body } => {
            let end = match v {
                Value::Int(n) => n,
                _ => 0,
            };
            m.push_frame(Frame::ForLoop { name, items: ForItems::Floats { next: 0, end }, prior, body });
            m.ctrl = Ctrl::Done;
            Action::Continue
        },
        Frame::LoopCond { cond, fmod, body } => {
            if is_float(&v) {
                ask_truth(m, Frame::LoopCond { cond, fmod, body }, v)
            } else if v.as_bool() {
                let b = duplicate_block(&body);
                m.push_frame(Frame::LoopBody { cond, fmod, body });
                eval_block(m, b)
            } else {
                m.ctrl = Ctrl::Done;
                Action::Continue
            }
        },
        _ => {
            m.ctrl = Ctrl::Val(v);
            Action::Continue
        },
    }
}

/// Starts a `for ... in` loop over the value of its right-hand side; the variable's
/// value before the loop is kept, to be put back when the loop ends.
fn eval_forin(m: &mut Machine, name: String, v: Value, body: Block) -> (a: Action)
    requires
        old(m).wf(),
    ensures
        final(m).wf(),
        (final(m)@, a@) == crate::machine::start_for(old(m)@.env, old(m)@.stack, name@, v@, crate::ast::stmts_view(body@)),
{
    let prior = match m.env.vars.get(&name) {
        Some(x) => Some(x.duplicate()),
        None => None,
    };
    match v {
        Value::Int(i) => {
            m.push_frame(Frame::ForLoop { name, items: ForItems::Ints { next: 0, end: i }, prior, body });
            m.ctrl = Ctrl::Done;
            Action::Continue
        },
        Value::Array(vals) => {
            m.push_frame(Frame::ForLoop { name, items: ForItems::Items { vals, next: 0 }, prior, body });
            m.ctrl = Ctrl::Done;
            Action::Continue
        },
        Value::Bool(_) => {
            m.ctrl = Ctrl::Raise(type_err("cannot use bool for 'for in'"));
            Action::Continue
        },
        Value::String(text) => {
            m.push_frame(Frame::ForLoop { name, items: ForItems::Chars { text, next: 0 }, prior, body });
            m.ctrl = Ctrl::Done;
            Action::Continue
        },
        Value::Float(x) => {
            m.push_frame(Frame::ForFloat { name, prior, body });
            m.ctrl = Ctrl::Wait;
            Action::Float(FloatWork::ToInt(Value::Float(x)))
        },
    }
}

/// A value arrives: it goes to the frame on top of the stack.
fn on_value(m: &mut Machine, v: Value) -> (a: Action)
    requires
        old(m).wf(),
    ensures
        final(m).wf(),
        (final(m)@, a@) == step_value(old(m)@.env, old(m)@.stack, v@),
{
    let ghost st = m.stack@;
    proof {
        if st.len() > 0 {
            lemma_frames_pop(st);
        }
    }
    match m.stack.pop() {
        None => {
            m.ctrl = Ctrl::Halted;
            Action::Finished(Ok(()))
        },
        Some(f) => {
            assert(frame_wf(st[st.len() - 1]));
            if matches!(
                f,
                Frame::BinaryLeft { .. } | Frame::BinaryRight { .. } | Frame::Unary { .. } | Frame::CallArgs { .. }
                    | Frame::IndexBase { .. } | Frame::IndexPos { .. } | Frame::ArrayItems { .. }
            ) {
                value_in_expr(m, f, v)
            } else {
                value_in_stmt(m, f, v)
            }
        },
    }
}

// ---------------------------------------------------------------------------
// A statement or block finished; an error travels down the stack.
// ---------------------------------------------------------------------------

/// A string of one character.
fn char_text(c: char) -> (s: String)
    ensures
        s@ == seq![c],
{
    let mut s = String::new();
    push_char(&mut s, c);
    assert(s@ =~= seq![c]);
    s
}

/// A `for` loop goes on with its next value, or ends and puts its variable back
/// as it was.
fn for_next(m: &mut Machine, name: String, items: ForItems, prior: Option<Value>, body: Block) -> (a: Action)
    requires
        old(m).wf(),
        frame_wf(Frame::ForLoop { name, items, prior, body }),
    ensures
        final(m).wf(),
        (final(m)@, a@) == step_done(old(m)@.env, old(m)@.stack.push(Frame::ForLoop { name, items, prior, body }@), ),
{
    let ghost fv = Frame::ForLoop { name, items, prior, body }@;
    assert(old(m)@.stack.push(fv).drop_last() =~= old(m)@.stack);
    let next_value = match items {
        ForItems::Ints { next, end } => if next < end {
            Some((Value::Int(next), ForItems::Ints { next: next + 1, end }))
        } else {
            None
        },
        ForItems::Floats { next, end } => if next < end {
            Some((Value::Float(decimal_text(next as u64)), ForItems::Floats { next: next + 1, end }))
        } else {
            None
        },
        ForItems::Items { vals, next } => {
            proof {
                lemma_values_view_index(vals@);
            }
            if next < vals.len() {
                let x = vals[next].duplicate();
                Some((x, ForItems::Items { vals, next: next + 1 }))
            } else {
                None
            }
        },
        ForItems::Chars { text, next } => {
            if next < text.as_str().unicode_len() {
                let c = text.as_str().get_char(next);
                Some((Value::String(char_text(c)), ForItems::Chars { text, next: next + 1 }))
            } else {
                None
            }
        },
    };
    match next_value {
        Some((x, rest)) => {
            m.env.vars.insert(name.clone(), x);
            let b = duplicate_block(&body);
            m.push_frame(Frame::ForLoop { name, items: rest, prior, body });
            eval_block(m, b)
        },
        None => {
            match prior {
                Some(o) => m.env.vars.insert(name, o),
                None => m.env.vars.remove(&name),
            }
            m.ctrl = Ctrl::Done;
            Action::Continue
        },
    }
}

/// A statement or block finished: the frame on top of the stack goes on.
fn on_done(m: &mut Machine) -> (a: Action)
    requires
        old(m).wf(),
    ensures
        final(m).wf(),
        (final(m)@, a@) == step_done(old(m)@.env, old(m)@.stack),
{
    let ghost st = m.stack@;
    proof {
        if st.len() > 0 {
            lemma_frames_pop(st);
            assert(frame_wf(st[st.len() - 1]));
        }
    }
    match m.stack.pop() {
        None => {
            m.ctrl = Ctrl::Halted;
            Action::Finished(Ok(()))
        },
        Some(f) => match f {
            Frame::Block { stmts, next } => {
                proof {
                    lemma_stmts_index(stmts@);
                }
                if next < stmts.len() {
                    let s = stmts[next].duplicate();
                    m.push_frame(Frame::Block { stmts, next: next + 1 });
                    m.ctrl = Ctrl::Exec(s);
                } else {
                    m.ctrl = Ctrl::Done;
                }
                Action::Continue
            },
            Frame::CallBody { saved } => {
                m.env.vars = saved;
                m.ctrl = Ctrl::Val(Value::Int(0));
                Action::Continue
            },
            Frame::WhileBody { cond, body } => {
                let c = cond.duplicate();
                m.push_frame(Frame::WhileCond { cond, body });
                m.ctrl = Ctrl::Eval(c);
                Action::Continue
            },
            Frame::ForLoop { name, items, prior, body } => for_next(m, name, items, prior, body),
            Frame::LoopInit { cond, fmod, body } => {
                let c = cond.duplicate();
                m.push_frame(Frame::LoopCond { cond, fmod, body });
                m.ctrl = Ctrl::Eval(c);
                Action::Continue
            },
            Frame::LoopBody { cond, fmod, body } => {
                let s = fmod.duplicate();
                m.push_frame(Frame::LoopMod { cond, fmod, body });
                m.ctrl = Ctrl::Exec(s);
                Action::Continue
            },
            Frame::LoopMod { cond, fmod, body } => {
                let c = cond.duplicate();
                m.push_frame(Frame::LoopCond { cond, fmod, body });
                m.ctrl = Ctrl::Eval(c);
                Action::Continue
            },
            _ => {
                m.ctrl = Ctrl::Done;
                Action::Continue
            },
        },
    }
}

/// An error travels down: a function call gives the caller's variables back, with
/// the returned value for a `ret` or the error raised on; indexing turns it into a
/// type error; other frames pass it on.
fn on_raise(m: &mut Machine, e: RuntimeError) -> (a: Action)
    requires
        old(m).wf(),
    ensures
        final(m).wf(),
        (final(m)@, a@) == step_raise(old(m)@.env, old(m)@.stack, e@),
{
    let ghost st = m.stack@;
    proof {
        if st.len() > 0 {
            lemma_frames_pop(st);
            assert(frame_wf(st[st.len() - 1]));
        }
    }
    match m.stack.pop() {
        None => {
            m.ctrl = Ctrl::Halted;
            Action::Finished(Err(e))
        },
        Some(f) => match f {
            Frame::CallBody { saved } => {
                match e {
                    RuntimeError::Return(v) => {
                        m.env.vars = saved;
                        m.ctrl = Ctrl::Val(v);
                    },
                    _ => {
                        m.env.vars = saved;
                        m.ctrl = Ctrl::Raise(e);
                    },
                }
                Action::Continue
            },
            Frame::IndexBase { .. } => {
                m.ctrl = Ctrl::Raise(type_err("cannot index non-array type"));
                Action::Continue
            },
            _ => {
                m.ctrl = Ctrl::Raise(e);
                Action::Continue
            },
        },
    }
}

impl Machine {
    /// A machine about to run a program in the environment the interpreter starts
    /// with.
    pub fn new(program: Vec<Stmt>) -> (r: Machine)
        ensures
            r.wf(),
            r@ == (MachineView {
                env: EnvView { vars: Map::empty(), bfns: builtin_table(), ufns: Map::empty() },
                ctrl: CtrlView::Done,
                stack: seq![FrameView::Block { stmts: crate::ast::stmts_view(program@), next: 0 }],
            }),
    {
        let env = match build_env() {
            Some(env) => env,
            None => Environment { vars: Table::new(), bfnlut: Table::new(), ufnlut: Table::new() },
        };
        let mut stack: Vec<Frame> = Vec::new();
        stack.push(Frame::Block { stmts: program, next: 0 });
        let m = Machine { env, ctrl: Ctrl::Done, stack };
        assert(m@.stack =~= seq![FrameView::Block { stmts: crate::ast::stmts_view(program@), next: 0 }]);
        m
    }

    /// One step of the run, and what the caller must do next.
    pub fn step(&mut self) -> (a: Action)
        requires
            old(self).wf(),
        ensures
            final(self).wf(),
            (final(self)@, a@) == spec_step(old(self)@),
    {
        let mut c = Ctrl::Halted;
        std::mem::swap(&mut c, &mut self.ctrl);
        match c {
            Ctrl::Eval(e) => eval_expr(self, e),
            Ctrl::Exec(s) => eval_stmt(self, s),
            Ctrl::Val(v) => on_value(self, v),
            Ctrl::Done => on_done(self),
            Ctrl::Raise(e) => on_raise(self, e),
            Ctrl::Wait => {
                self.ctrl = Ctrl::Wait;
                Action::Continue
            },
            Ctrl::Halted => Action::Continue,
        }
    }

    /// The caller's answer to a request for a built-in function or float work: a
    /// value goes on, an error is raised.
    pub fn resume(&mut self, answer: Result<Value, RuntimeError>)
        requires
            old(self).wf(),
        ensures
            final(self).wf(),
            final(self)@ == spec_resume(old(self)@, vres(answer)),
    {
        match answer {
            Ok(v) => self.ctrl = Ctrl::Val(v),
            Err(e) => self.ctrl = Ctrl::Raise(e),
        }
    }
}

} // verus!
