use vstd::prelude::*;

use crate::ast::{
    branches_view, exprs_view, stmts_view, Block, CondBlock, Expr, ExprView, Stmt,
    StmtView, Token, TokenOf, TokenView,
};
use crate::build_env::{spec_strlen, spec_typeof};
use crate::error::{RuntimeError, RuntimeErrorView};
use crate::eval::{Builtin, EnvView, Environment, ResVoid, UserFnView, VarLUT};
use crate::display::decimal;
use crate::value::{values_view, Value, ValueView};

verus! {

// ---------------------------------------------------------------------------
// The interpreter as a machine.  Its state is the environment, what it is doing
// now (the control), and a stack of what remains to be done (frames).  One call of
// `step` makes one small step and says what the caller must do: nothing, run a
// built-in function, compute with floats, stop the process (where the program
// would make the interpreter panic), or report the end of the run.  Answers come
// back through `resume`.
// ---------------------------------------------------------------------------

/// Why the program stops the process.
#[derive(Clone, Copy, Debug, PartialEq, Eq, Structural)]
pub enum PanicReason {
    /// An operator the evaluator does not know (such as unary `-`).
    BadExpression,
    /// An array indexed by something other than an integer.
    NonIntIndex,
    IndexOutOfBounds { len: usize, index: usize },
    AddOverflow,
    SubOverflow,
    MulOverflow,
    RemOverflow,
    NegOverflow,
    ShlOverflow,
    ShrOverflow,
}

/// Floating-point work for the caller; the answer is a value or an error.
#[derive(Debug, PartialEq)]
pub enum FloatWork {
    /// A binary operator applied to two values, as the evaluator applies it.
    Binary { op: Token, left: Value, right: Value },
    /// A prefix operator applied to a value.
    Unary { op: Token, arg: Value },
    /// The truth of a float (answered with a boolean).
    Truth(Value),
    /// A float converted to an integer with `as` (answered with an integer).
    ToInt(Value),
}

pub enum FloatWorkView {
    Binary { op: TokenView, left: ValueView, right: ValueView },
    Unary { op: TokenView, arg: ValueView },
    Truth(ValueView),
    ToInt(ValueView),
}

impl View for FloatWork {
    type V = FloatWorkView;

    open spec fn view(&self) -> FloatWorkView {
        match self {
            FloatWork::Binary { op, left, right } => FloatWorkView::Binary {
                op: op@,
                left: left@,
                right: right@,
            },
            FloatWork::Unary { op, arg } => FloatWorkView::Unary { op: op@, arg: arg@ },
            FloatWork::Truth(v) => FloatWorkView::Truth(v@),
            FloatWork::ToInt(v) => FloatWorkView::ToInt(v@),
        }
    }
}

/// What the caller must do after a step.
#[derive(Debug, PartialEq)]
pub enum Action {
    /// Step again.
    Continue,
    /// Run a built-in function and `resume` with its result.
    Builtin { func: Builtin, args: Vec<Value> },
    /// Compute with floats and `resume` with the result.
    Float(FloatWork),
    /// Stop the process.
    Panic(PanicReason),
    /// The program ended, normally or with an error.
    Finished(ResVoid),
}

pub enum ActionView {
    Continue,
    Builtin { func: Builtin, args: Seq<ValueView> },
    Float(FloatWorkView),
    Panic(PanicReason),
    Finished(Result<(), RuntimeErrorView>),
}

impl View for Action {
    type V = ActionView;

    open spec fn view(&self) -> ActionView {
        match self {
            Action::Continue => ActionView::Continue,
            Action::Builtin { func, args } => ActionView::Builtin { func: *func, args: values_view(args@) },
            Action::Float(w) => ActionView::Float(w@),
            Action::Panic(p) => ActionView::Panic(*p),
            Action::Finished(r) => ActionView::Finished(
                match r {
                    Ok(_) => Ok(()),
                    Err(e) => Err(e@),
                },
            ),
        }
    }
}

/// What the machine is doing.
pub enum Ctrl {
    /// Evaluating an expression.
    Eval(Expr),
    /// Executing a statement.
    Exec(Stmt),
    /// An expression gave this value.
    Val(Value),
    /// A statement or block finished.
    Done,
    /// An error travels down the stack.
    Raise(RuntimeError),
    /// Waiting for the caller's answer.
    Wait,
    /// The run is over.
    Halted,
}

pub enum CtrlView {
    Eval(ExprView),
    Exec(StmtView),
    Val(ValueView),
    Done,
    Raise(RuntimeErrorView),
    Wait,
    Halted,
}

impl View for Ctrl {
    type V = CtrlView;

    open spec fn view(&self) -> CtrlView {
        match self {
            Ctrl::Eval(e) => CtrlView::Eval(e@),
            Ctrl::Exec(s) => CtrlView::Exec(s@),
            Ctrl::Val(v) => CtrlView::Val(v@),
            Ctrl::Done => CtrlView::Done,
            Ctrl::Raise(e) => CtrlView::Raise(e@),
            Ctrl::Wait => CtrlView::Wait,
            Ctrl::Halted => CtrlView::Halted,
        }
    }
}

/// The values a `for ... in` loop runs through, and how far it has come.
pub enum ForItems {
    /// 0, 1, ... up to `end` (excluded), as integers.
    Ints { next: i64, end: i64 },
    /// 0, 1, ... up to `end` (excluded), as floats.
    Floats { next: i64, end: i64 },
    /// The members of an array.
    Items { vals: Vec<Value>, next: usize },
    /// The characters of a string, each as a string.
    Chars { text: String, next: usize },
}

pub enum ForItemsView {
    Ints { next: i64, end: i64 },
    Floats { next: i64, end: i64 },
    Items { vals: Seq<ValueView>, next: int },
    Chars { text: Seq<char>, next: int },
}

impl View for ForItems {
    type V = ForItemsView;

    open spec fn view(&self) -> ForItemsView {
        match self {
            ForItems::Ints { next, end } => ForItemsView::Ints { next: *next, end: *end },
            ForItems::Floats { next, end } => ForItemsView::Floats { next: *next, end: *end },
            ForItems::Items { vals, next } => ForItemsView::Items { vals: values_view(vals@), next: *next as int },
            ForItems::Chars { text, next } => ForItemsView::Chars { text: text@, next: *next as int },
        }
    }
}

/// What remains to be done once the current work gives its result.
pub enum Frame {
    BinaryLeft { op: Token, right: Expr },
    BinaryRight { op: Token, left: Value },
    Unary { op: Token },
    CallArgs { ident: String, args: Vec<Expr>, next: usize, done: Vec<Value> },
    /// A declared function's body runs; `saved` are the caller's variables.
    CallBody { saved: VarLUT },
    IndexBase { idx: Expr },
    IndexPos { arr: Vec<Value> },
    ArrayItems { members: Vec<Expr>, next: usize, done: Vec<Value> },
    Block { stmts: Block, next: usize },
    Let { name: String },
    Assign { name: String },
    Ret,
    ExprStmt,
    IfCond { branches: Vec<CondBlock>, next: usize, else_body: Option<Block> },
    WhileCond { cond: Expr, body: Block },
    WhileBody { cond: Expr, body: Block },
    ForRhs { lhs: Expr, body: Block },
    ForFloat { name: String, prior: Option<Value>, body: Block },
    ForLoop { name: String, items: ForItems, prior: Option<Value>, body: Block },
    LoopInit { cond: Expr, fmod: Box<Stmt>, body: Block },
    LoopCond { cond: Expr, fmod: Box<Stmt>, body: Block },
    LoopBody { cond: Expr, fmod: Box<Stmt>, body: Block },
    LoopMod { cond: Expr, fmod: Box<Stmt>, body: Block },
}

pub enum FrameView {
    BinaryLeft { op: TokenView, right: ExprView },
    BinaryRight { op: TokenView, left: ValueView },
    Unary { op: TokenView },
    CallArgs { ident: Seq<char>, args: Seq<ExprView>, next: int, done: Seq<ValueView> },
    CallBody { saved: Map<Seq<char>, ValueView> },
    IndexBase { idx: ExprView },
    IndexPos { arr: Seq<ValueView> },
    ArrayItems { members: Seq<ExprView>, next: int, done: Seq<ValueView> },
    Block { stmts: Seq<StmtView>, next: int },
    Let { name: Seq<char> },
    Assign { name: Seq<char> },
    Ret,
    ExprStmt,
    IfCond { branches: Seq<(ExprView, Seq<StmtView>)>, next: int, else_body: Option<Seq<StmtView>> },
    WhileCond { cond: ExprView, body: Seq<StmtView> },
    WhileBody { cond: ExprView, body: Seq<StmtView> },
    ForRhs { lhs: ExprView, body: Seq<StmtView> },
    ForFloat { name: Seq<char>, prior: Option<ValueView>, body: Seq<StmtView> },
    ForLoop { name: Seq<char>, items: ForItemsView, prior: Option<ValueView>, body: Seq<StmtView> },
    LoopInit { cond: ExprView, fmod: StmtView, body: Seq<StmtView> },
    LoopCond { cond: ExprView, fmod: StmtView, body: Seq<StmtView> },
    LoopBody { cond: ExprView, fmod: StmtView, body: Seq<StmtView> },
    LoopMod { cond: ExprView, fmod: StmtView, body: Seq<StmtView> },
}

pub open spec fn opt_value_view(o: Option<Value>) -> Option<ValueView> {
    match o {
        Some(v) => Some(v@),
        None => None,
    }
}

pub open spec fn opt_block_view(o: Option<Block>) -> Option<Seq<StmtView>> {
    match o {
        Some(b) => Some(stmts_view(b@)),
        None => None,
    }
}

impl View for Frame {
    type V = FrameView;

    open spec fn view(&self) -> FrameView {
        match self {
            Frame::BinaryLeft { op, right } => FrameView::BinaryLeft { op: op@, right: right@ },
            Frame::BinaryRight { op, left } => FrameView::BinaryRight { op: op@, left: left@ },
            Frame::Unary { op } => FrameView::Unary { op: op@ },
            Frame::CallArgs { ident, args, next, done } => FrameView::CallArgs {
                ident: ident@,
                args: exprs_view(args@),
                next: *next as int,
                done: values_view(done@),
            },
            Frame::CallBody { saved } => FrameView::CallBody { saved: saved@ },
            Frame::IndexBase { idx } => FrameView::IndexBase { idx: idx@ },
            Frame::IndexPos { arr } => FrameView::IndexPos { arr: values_view(arr@) },
            Frame::ArrayItems { members, next, done } => FrameView::ArrayItems {
                members: exprs_view(members@),
                next: *next as int,
                done: values_view(done@),
            },
            Frame::Block { stmts, next } => FrameView::Block { stmts: stmts_view(stmts@), next: *next as int },
            Frame::Let { name } => FrameView::Let { name: name@ },
            Frame::Assign { name } => FrameView::Assign { name: name@ },
            Frame::Ret => FrameView::Ret,
            Frame::ExprStmt => FrameView::ExprStmt,
            Frame::IfCond { branches, next, else_body } => FrameView::IfCond {
                branches: branches_view(branches@),
                next: *next as int,
                else_body: opt_block_view(*else_body),
            },
            Frame::WhileCond { cond, body } => FrameView::WhileCond { cond: cond@, body: stmts_view(body@) },
            Frame::WhileBody { cond, body } => FrameView::WhileBody { cond: cond@, body: stmts_view(body@) },
            Frame::ForRhs { lhs, body } => FrameView::ForRhs { lhs: lhs@, body: stmts_view(body@) },
            Frame::ForFloat { name, prior, body } => FrameView::ForFloat {
                name: name@,
                prior: opt_value_view(*prior),
                body: stmts_view(body@),
            },
            Frame::ForLoop { name, items, prior, body } => FrameView::ForLoop {
                name: name@,
                items: items@,
                prior: opt_value_view(*prior),
                body: stmts_view(body@),
            },
            Frame::LoopInit { cond, fmod, body } => FrameView::LoopInit {
                cond: cond@,
                fmod: (**fmod)@,
                body: stmts_view(body@),
            },
            Frame::LoopCond { cond, fmod, body } => FrameView::LoopCond {
                cond: cond@,
                fmod: (**fmod)@,
                body: stmts_view(body@),
            },
            Frame::LoopBody { cond, fmod, body } => FrameView::LoopBody {
                cond: cond@,
                fmod: (**fmod)@,
                body: stmts_view(body@),
            },
            Frame::LoopMod { cond, fmod, body } => FrameView::LoopMod {
                cond: cond@,
                fmod: (**fmod)@,
                body: stmts_view(body@),
            },
        }
    }
}

pub open spec fn frames_view(s: Seq<Frame>) -> Seq<FrameView> {
    s.map_values(|f: Frame| f@)
}

/// The interpreter's state.
pub struct Machine {
    pub env: Environment,
    pub ctrl: Ctrl,
    pub stack: Vec<Frame>,
}

pub struct MachineView {
    pub env: EnvView,
    pub ctrl: CtrlView,
    pub stack: Seq<FrameView>,
}

impl View for Machine {
    type V = MachineView;

    open spec fn view(&self) -> MachineView {
        MachineView { env: self.env@, ctrl: self.ctrl@, stack: frames_view(self.stack@) }
    }
}

impl Machine {
    /// The tables of a machine keep their names distinct, also in saved variables.
    pub open spec fn wf(&self) -> bool {
        &&& self.env.wf()
        &&& forall|i: int| 0 <= i < self.stack@.len() ==> #[trigger] frame_wf(self.stack@[i])
    }
}

pub proof fn lemma_frames_push(s: Seq<Frame>, f: Frame)
    ensures
        frames_view(s.push(f)) == frames_view(s).push(f@),
{
    assert(frames_view(s.push(f)) =~= frames_view(s).push(f@));
}

pub proof fn lemma_frames_pop(s: Seq<Frame>)
    requires
        s.len() > 0,
    ensures
        frames_view(s.drop_last()) == frames_view(s).drop_last(),
        frames_view(s).len() == s.len(),
        frames_view(s).last() == s.last()@,
        frames_view(s) == frames_view(s.drop_last()).push(s.last()@),
{
    assert(frames_view(s.drop_last()) =~= frames_view(s).drop_last());
    assert(frames_view(s) =~= frames_view(s.drop_last()).push(s.last()@));
}

pub open spec fn frame_wf(f: Frame) -> bool {
    match f {
        Frame::CallBody { saved } => saved.wf(),
        Frame::ForLoop { items: ForItems::Floats { next, .. }, .. } => next >= 0,
        _ => true,
    }
}

} // verus!

verus! {

use crate::value::{
    add_float, add_overflow, arith_float, cmp_float, div_float, mul_overflow, neg_overflow, pow_float,
    rem_overflow, shift_overflow, spec_add, spec_as_bool, spec_bitand, spec_bitor, spec_bitwise_not,
    spec_bitxor, spec_div, spec_mul, spec_neg, spec_not, spec_pow, spec_rem, spec_shl, spec_shr,
    spec_sub, spec_val_order, sub_overflow,
};

/// What applying an operator comes to.
pub enum Applied {
    Result(Result<ValueView, RuntimeErrorView>),
    Float,
    Panic(PanicReason),
}

/// A value that holds a float somewhere.
pub open spec fn has_float(v: ValueView) -> bool
    decreases v, 0int,
{
    match v {
        ValueView::Float(_) => true,
        ValueView::Array(vs) => floats_in(vs, vs.len() as int),
        _ => false,
    }
}

/// One of the first `n` values holds a float.
pub open spec fn floats_in(vs: Seq<ValueView>, n: int) -> bool
    decreases vs, n,
{
    if n <= 0 || n > vs.len() {
        false
    } else {
        floats_in(vs, n - 1) || has_float(vs[n - 1])
    }
}

pub proof fn lemma_floats_in_grows(vs: Seq<ValueView>, n: int, m: int)
    requires
        0 <= n <= m <= vs.len(),
        floats_in(vs, n),
    ensures
        floats_in(vs, m),
    decreases m - n,
{
    if n < m {
        lemma_floats_in_grows(vs, n, m - 1);
    }
}

/// Equality of two values compares floats only where both hold floats.
pub open spec fn eq_float(a: ValueView, b: ValueView) -> bool {
    has_float(a) && has_float(b)
}

pub open spec fn truthy(v: ValueView) -> bool {
    spec_as_bool(v)
}

pub open spec fn result_of(r: Result<ValueView, RuntimeErrorView>) -> Applied {
    Applied::Result(r)
}

/// A binary operator on two values, as the evaluator applies it.
pub open spec fn apply_binary(op: TokenView, l: ValueView, r: ValueView) -> Applied {
    match op {
        TokenOf::Logor => if l is Float || r is Float {
            Applied::Float
        } else {
            result_of(Ok(ValueView::Bool(truthy(l) || truthy(r))))
        },
        TokenOf::Logand => if l is Float || r is Float {
            Applied::Float
        } else {
            result_of(Ok(ValueView::Bool(truthy(l) && truthy(r))))
        },
        TokenOf::Eq => if eq_float(l, r) {
            Applied::Float
        } else {
            result_of(Ok(ValueView::Bool(l == r)))
        },
        TokenOf::Neq => if eq_float(l, r) {
            Applied::Float
        } else {
            result_of(Ok(ValueView::Bool(l != r)))
        },
        TokenOf::Gt => if cmp_float(l, r) {
            Applied::Float
        } else {
            result_of(spec_val_order(l, r, 1, "cannot compare strings with >"))
        },
        TokenOf::Lt => if cmp_float(l, r) {
            Applied::Float
        } else {
            result_of(spec_val_order(l, r, 0, "cannot compare strings with <"))
        },
        TokenOf::Ge => if cmp_float(l, r) {
            Applied::Float
        } else {
            result_of(spec_val_order(l, r, 3, "cannot compare strings with >="))
        },
        TokenOf::Le => if cmp_float(l, r) {
            Applied::Float
        } else {
            result_of(spec_val_order(l, r, 2, "cannot compare strings with <="))
        },
        TokenOf::Min => if arith_float(l, r) {
            Applied::Float
        } else if sub_overflow(l, r) {
            Applied::Panic(PanicReason::SubOverflow)
        } else {
            result_of(spec_sub(l, r))
        },
        TokenOf::Add => if add_float(l, r) {
            Applied::Float
        } else if add_overflow(l, r) {
            Applied::Panic(PanicReason::AddOverflow)
        } else {
            result_of(spec_add(l, r))
        },
        TokenOf::Mul => if arith_float(l, r) {
            Applied::Float
        } else if mul_overflow(l, r) {
            Applied::Panic(PanicReason::MulOverflow)
        } else {
            result_of(spec_mul(l, r))
        },
        TokenOf::Div => if div_float(l, r) {
            Applied::Float
        } else {
            result_of(spec_div(l, r))
        },
        TokenOf::Mod => if rem_overflow(l, r) {
            Applied::Panic(PanicReason::RemOverflow)
        } else {
            result_of(spec_rem(l, r))
        },
        TokenOf::Pwr => if pow_float(l, r) {
            Applied::Float
        } else {
            result_of(spec_pow(l, r))
        },
        TokenOf::Bitor => result_of(spec_bitor(l, r)),
        TokenOf::Bitand => result_of(spec_bitand(l, r)),
        TokenOf::Bitxor => result_of(spec_bitxor(l, r)),
        TokenOf::Shl => if shift_overflow(l, r) {
            Applied::Panic(PanicReason::ShlOverflow)
        } else {
            result_of(spec_shl(l, r))
        },
        TokenOf::Shr => if shift_overflow(l, r) {
            Applied::Panic(PanicReason::ShrOverflow)
        } else {
            result_of(spec_shr(l, r))
        },
        _ => Applied::Panic(PanicReason::BadExpression),
    }
}

/// A prefix operator on a value, as the evaluator applies it: `!` is `not`, `+`
/// negates, `~` is the bitwise complement; `-` is not evaluated.
pub open spec fn apply_unary(op: TokenView, v: ValueView) -> Applied {
    match op {
        TokenOf::Not => result_of(spec_not(v)),
        TokenOf::Add => if v is Float {
            Applied::Float
        } else if neg_overflow(v) {
            Applied::Panic(PanicReason::NegOverflow)
        } else {
            result_of(spec_neg(v))
        },
        TokenOf::Bnot => result_of(spec_bitwise_not(v)),
        _ => Applied::Panic(PanicReason::BadExpression),
    }
}

pub open spec fn mv(env: EnvView, ctrl: CtrlView, stack: Seq<FrameView>) -> MachineView {
    MachineView { env, ctrl, stack }
}

pub open spec fn cont(m: MachineView) -> (MachineView, ActionView) {
    (m, ActionView::Continue)
}

/// Starts a block: its statements run from the first.
pub open spec fn run_block(env: EnvView, stack: Seq<FrameView>, body: Seq<StmtView>) -> (
    MachineView,
    ActionView,
) {
    cont(mv(env, CtrlView::Done, stack.push(FrameView::Block { stmts: body, next: 0 })))
}

/// The variables after binding parameters to arguments, one after the other.
pub open spec fn bind(
    vars: Map<Seq<char>, ValueView>,
    names: Seq<Seq<char>>,
    vals: Seq<ValueView>,
) -> Map<Seq<char>, ValueView>
    decreases names.len(),
{
    if names.len() == 0 || vals.len() == 0 {
        vars
    } else {
        bind(vars, names.drop_last(), vals.drop_last()).insert(names.last(), vals.last())
    }
}

/// Calling a function by name with evaluated arguments: a built-in one first, then
/// a declared one.
pub open spec fn begin_call(env: EnvView, stack: Seq<FrameView>, ident: Seq<char>, args: Seq<ValueView>) -> (
    MachineView,
    ActionView,
) {
    if env.bfns.contains_key(ident) {
        let f = env.bfns[ident];
        if f.nargs == -1 || f.nargs as usize == args.len() {
            if (f.fnc == Builtin::Strlen || f.fnc == Builtin::Typeof) && args.len() == 0 {
                (
                    mv(env, CtrlView::Halted, stack),
                    ActionView::Panic(PanicReason::IndexOutOfBounds { len: 0, index: 0 }),
                )
            } else if f.fnc == Builtin::Strlen {
                cont(mv(env, CtrlView::Val(spec_strlen(args[0])), stack))
            } else if f.fnc == Builtin::Typeof {
                cont(mv(env, CtrlView::Val(spec_typeof(args[0])), stack))
            } else {
                (mv(env, CtrlView::Wait, stack), ActionView::Builtin { func: f.fnc, args })
            }
        } else {
            cont(
                mv(
                    env,
                    CtrlView::Raise(
                        RuntimeErrorView::WrongArgCount { expected: f.nargs as usize, got: args.len() as usize },
                    ),
                    stack,
                ),
            )
        }
    } else if env.ufns.contains_key(ident) {
        let f = env.ufns[ident];
        if f.args.len() != args.len() {
            cont(
                mv(
                    env,
                    CtrlView::Raise(
                        RuntimeErrorView::WrongArgCount {
                            expected: f.args.len() as usize,
                            got: args.len() as usize,
                        },
                    ),
                    stack,
                ),
            )
        } else {
            run_block(
                EnvView { vars: bind(f.vars, f.args, args), ..env },
                stack.push(FrameView::CallBody { saved: env.vars }),
                f.body,
            )
        }
    } else {
        cont(mv(env, CtrlView::Raise(RuntimeErrorView::UnknownFunction(ident)), stack))
    }
}

pub open spec fn step_eval(env: EnvView, stack: Seq<FrameView>, e: ExprView) -> (MachineView, ActionView) {
    match e {
        ExprView::Binary { op, left, right } => cont(
            mv(env, CtrlView::Eval(*left), stack.push(FrameView::BinaryLeft { op, right: *right })),
        ),
        ExprView::Unary { op, arg } => cont(
            mv(env, CtrlView::Eval(*arg), stack.push(FrameView::Unary { op })),
        ),
        ExprView::Call { ident, args } => if args.len() == 0 {
            begin_call(env, stack, ident, Seq::empty())
        } else {
            cont(
                mv(
                    env,
                    CtrlView::Eval(args[0]),
                    stack.push(FrameView::CallArgs { ident, args, next: 1, done: Seq::empty() }),
                ),
            )
        },
        ExprView::Index { expr, idx } => cont(
            mv(env, CtrlView::Eval(*expr), stack.push(FrameView::IndexBase { idx: *idx })),
        ),
        ExprView::Ident { ident } => if env.vars.contains_key(ident) {
            cont(mv(env, CtrlView::Val(env.vars[ident]), stack))
        } else {
            cont(mv(env, CtrlView::Raise(RuntimeErrorView::UnknownIdent(ident)), stack))
        },
        ExprView::Literal { val } => cont(mv(env, CtrlView::Val(val), stack)),
        ExprView::ArrayLiteral { members } => if members.len() == 0 {
            cont(mv(env, CtrlView::Val(ValueView::Array(Seq::empty())), stack))
        } else {
            cont(
                mv(
                    env,
                    CtrlView::Eval(members[0]),
                    stack.push(FrameView::ArrayItems { members, next: 1, done: Seq::empty() }),
                ),
            )
        },
    }
}

pub open spec fn step_exec(env: EnvView, stack: Seq<FrameView>, s: StmtView) -> (MachineView, ActionView) {
    match s {
        StmtView::Let { name, expr } => cont(
            mv(env, CtrlView::Eval(expr), stack.push(FrameView::Let { name })),
        ),
        StmtView::Assign { name, expr } => cont(
            mv(env, CtrlView::Eval(expr), stack.push(FrameView::Assign { name })),
        ),
        StmtView::Ret { expr } => cont(mv(env, CtrlView::Eval(expr), stack.push(FrameView::Ret))),
        StmtView::Expr { expr } => cont(mv(env, CtrlView::Eval(expr), stack.push(FrameView::ExprStmt))),
        StmtView::If { branches, else_body } => if branches.len() > 0 {
            cont(
                mv(
                    env,
                    CtrlView::Eval(branches[0].0),
                    stack.push(FrameView::IfCond { branches, next: 0, else_body }),
                ),
            )
        } else {
            match else_body {
                Some(b) => run_block(env, stack, b),
                None => cont(mv(env, CtrlView::Done, stack)),
            }
        },
        StmtView::While { cond, body } => cont(
            mv(env, CtrlView::Eval(cond), stack.push(FrameView::WhileCond { cond, body })),
        ),
        StmtView::FnDecl { name, args, body } => cont(
            mv(
                EnvView {
                    ufns: env.ufns.insert(name, UserFnView { args, body, vars: env.vars }),
                    ..env
                },
                CtrlView::Done,
                stack,
            ),
        ),
        StmtView::ForIn { lhs, rhs, block } => cont(
            mv(env, CtrlView::Eval(rhs), stack.push(FrameView::ForRhs { lhs, body: block })),
        ),
        StmtView::ForICM { init, cond, fmod, block } => cont(
            mv(
                env,
                CtrlView::Exec(*init),
                stack.push(FrameView::LoopInit { cond, fmod: *fmod, body: block }),
            ),
        ),
        StmtView::Continue => cont(mv(env, CtrlView::Done, stack)),
        StmtView::Break => cont(mv(env, CtrlView::Done, stack)),
    }
}

/// The result of applying an operator: a value, an error, a request for float
/// work (`w`), or a stop.
pub open spec fn applied(env: EnvView, stack: Seq<FrameView>, a: Applied, w: FloatWorkView) -> (
    MachineView,
    ActionView,
) {
    match a {
        Applied::Result(Ok(x)) => cont(mv(env, CtrlView::Val(x), stack)),
        Applied::Result(Err(e)) => cont(mv(env, CtrlView::Raise(e), stack)),
        Applied::Float => (mv(env, CtrlView::Wait, stack), ActionView::Float(w)),
        Applied::Panic(p) => (mv(env, CtrlView::Halted, stack), ActionView::Panic(p)),
    }
}

/// Decides a condition: floats are asked of the caller with the frame kept.
pub open spec fn cond_float(env: EnvView, stack: Seq<FrameView>, v: ValueView) -> (MachineView, ActionView) {
    (mv(env, CtrlView::Wait, stack), ActionView::Float(FloatWorkView::Truth(v)))
}

/// Starts a `for` loop over the value of its right-hand side.
pub open spec fn start_for(env: EnvView, stack: Seq<FrameView>, name: Seq<char>, v: ValueView, body: Seq<StmtView>) -> (
    MachineView,
    ActionView,
) {
    let prior = if env.vars.contains_key(name) {
        Some(env.vars[name])
    } else {
        None
    };
    match v {
        ValueView::Int(i) => cont(
            mv(
                env,
                CtrlView::Done,
                stack.push(
                    FrameView::ForLoop { name, items: ForItemsView::Ints { next: 0, end: i }, prior, body },
                ),
            ),
        ),
        ValueView::Array(a) => cont(
            mv(
                env,
                CtrlView::Done,
                stack.push(
                    FrameView::ForLoop { name, items: ForItemsView::Items { vals: a, next: 0 }, prior, body },
                ),
            ),
        ),
        ValueView::Bool(_) => cont(
            mv(env, CtrlView::Raise(RuntimeErrorView::TypeError("cannot use bool for 'for in'"@)), stack),
        ),
        ValueView::Str(s) => cont(
            mv(
                env,
                CtrlView::Done,
                stack.push(
                    FrameView::ForLoop { name, items: ForItemsView::Chars { text: s, next: 0 }, prior, body },
                ),
            ),
        ),
        ValueView::Float(_) => (
            mv(env, CtrlView::Wait, stack.push(FrameView::ForFloat { name, prior, body })),
            ActionView::Float(FloatWorkView::ToInt(v)),
        ),
    }
}

pub open spec fn step_value(env: EnvView, stack: Seq<FrameView>, v: ValueView) -> (MachineView, ActionView) {
    if stack.len() == 0 {
        (mv(env, CtrlView::Halted, stack), ActionView::Finished(Ok(())))
    } else {
        let rest = stack.drop_last();
        match stack.last() {
            FrameView::BinaryLeft { op, right } => cont(
                mv(env, CtrlView::Eval(right), rest.push(FrameView::BinaryRight { op, left: v })),
            ),
            FrameView::BinaryRight { op, left } => applied(
                env,
                rest,
                apply_binary(op, left, v),
                FloatWorkView::Binary { op, left, right: v },
            ),
            FrameView::Unary { op } => applied(env, rest, apply_unary(op, v), FloatWorkView::Unary { op, arg: v }),
            FrameView::CallArgs { ident, args, next, done } => if 0 <= next < args.len() {
                cont(
                    mv(
                        env,
                        CtrlView::Eval(args[next]),
                        rest.push(FrameView::CallArgs { ident, args, next: next + 1, done: done.push(v) }),
                    ),
                )
            } else {
                begin_call(env, rest, ident, done.push(v))
            },
            FrameView::IndexBase { idx } => match v {
                ValueView::Array(a) => cont(
                    mv(env, CtrlView::Eval(idx), rest.push(FrameView::IndexPos { arr: a })),
                ),
                _ => cont(
                    mv(env, CtrlView::Raise(RuntimeErrorView::TypeError("cannot index non-array type"@)), rest),
                ),
            },
            FrameView::IndexPos { arr } => match v {
                ValueView::Int(i) => if 0 <= i < arr.len() {
                    cont(mv(env, CtrlView::Val(arr[i as int]), rest))
                } else {
                    (
                        mv(env, CtrlView::Halted, rest),
                        ActionView::Panic(
                            PanicReason::IndexOutOfBounds { len: arr.len() as usize, index: i as usize },
                        ),
                    )
                },
                _ => (mv(env, CtrlView::Halted, rest), ActionView::Panic(PanicReason::NonIntIndex)),
            },
            FrameView::ArrayItems { members, next, done } => if 0 <= next < members.len() {
                cont(
                    mv(
                        env,
                        CtrlView::Eval(members[next]),
                        rest.push(FrameView::ArrayItems { members, next: next + 1, done: done.push(v) }),
                    ),
                )
            } else {
                cont(mv(env, CtrlView::Val(ValueView::Array(done.push(v))), rest))
            },
            FrameView::Let { name } => cont(
                mv(EnvView { vars: env.vars.insert(name, v), ..env }, CtrlView::Done, rest),
            ),
            FrameView::Assign { name } => if env.vars.contains_key(name) {
                cont(mv(EnvView { vars: env.vars.insert(name, v), ..env }, CtrlView::Done, rest))
            } else {
                cont(mv(env, CtrlView::Raise(RuntimeErrorView::UnknownIdent(name)), rest))
            },
            FrameView::Ret => cont(mv(env, CtrlView::Raise(RuntimeErrorView::Return(v)), rest)),
            FrameView::ExprStmt => cont(mv(env, CtrlView::Done, rest)),
            FrameView::IfCond { branches, next, else_body } => if v is Float {
                cond_float(env, stack, v)
            } else if 0 <= next < branches.len() && truthy(v) {
                run_block(env, rest, branches[next].1)
            } else if 0 <= next + 1 < branches.len() {
                cont(
                    mv(
                        env,
                        CtrlView::Eval(branches[next + 1].0),
                        rest.push(FrameView::IfCond { branches, next: next + 1, else_body }),
                    ),
                )
            } else {
                match else_body {
                    Some(b) => run_block(env, rest, b),
                    None => cont(mv(env, CtrlView::Done, rest)),
                }
            },
            FrameView::WhileCond { cond, body } => if v is Float {
                cond_float(env, stack, v)
            } else if truthy(v) {
                run_block(env, rest.push(FrameView::WhileBody { cond, body }), body)
            } else {
                cont(mv(env, CtrlView::Done, rest))
            },
            FrameView::ForRhs { lhs, body } => match lhs {
                ExprView::Ident { ident } => start_for(env, rest, ident, v, body),
                _ => cont(
                    mv(
                        env,
                        CtrlView::Raise(RuntimeErrorView::TypeError("expected identifier for 'for in'"@)),
                        rest,
                    ),
                ),
            },
            FrameView::ForFloat { name, prior, body } => cont(
                mv(
                    env,
                    CtrlView::Done,
                    rest.push(
                        FrameView::ForLoop {
                            name,
                            items: ForItemsView::Floats {
                                next: 0,
                                end: match v {
                                    ValueView::Int(n) => n,
                                    _ => 0,
                                },
                            },
                            prior,
                            body,
                        },
                    ),
                ),
            ),
            FrameView::LoopCond { cond, fmod, body } => if v is Float {
                cond_float(env, stack, v)
            } else if truthy(v) {
                run_block(env, rest.push(FrameView::LoopBody { cond, fmod, body }), body)
            } else {
                cont(mv(env, CtrlView::Done, rest))
            },
            _ => cont(mv(env, CtrlView::Val(v), rest)),
        }
    }
}

/// The next value of a `for` loop and the rest of its run, if any.
pub open spec fn next_item(items: ForItemsView) -> Option<(ValueView, ForItemsView)> {
    match items {
        ForItemsView::Ints { next, end } => if next < end {
            Some((ValueView::Int(next), ForItemsView::Ints { next: (next + 1) as i64, end }))
        } else {
            None
        },
        ForItemsView::Floats { next, end } => if next < end {
            Some((ValueView::Float(decimal(next as int)), ForItemsView::Floats { next: (next + 1) as i64, end }))
        } else {
            None
        },
        ForItemsView::Items { vals, next } => if 0 <= next < vals.len() {
            Some((vals[next], ForItemsView::Items { vals, next: next + 1 }))
        } else {
            None
        },
        ForItemsView::Chars { text, next } => if 0 <= next < text.len() {
            Some((ValueView::Str(seq![text[next]]), ForItemsView::Chars { text, next: next + 1 }))
        } else {
            None
        },
    }
}

pub open spec fn step_done(env: EnvView, stack: Seq<FrameView>) -> (MachineView, ActionView) {
    if stack.len() == 0 {
        (mv(env, CtrlView::Halted, stack), ActionView::Finished(Ok(())))
    } else {
        let rest = stack.drop_last();
        match stack.last() {
            FrameView::Block { stmts, next } => if 0 <= next < stmts.len() {
                cont(
                    mv(env, CtrlView::Exec(stmts[next]), rest.push(FrameView::Block { stmts, next: next + 1 })),
                )
            } else {
                cont(mv(env, CtrlView::Done, rest))
            },
            FrameView::CallBody { saved } => cont(
                mv(EnvView { vars: saved, ..env }, CtrlView::Val(ValueView::Int(0)), rest),
            ),
            FrameView::WhileBody { cond, body } => cont(
                mv(env, CtrlView::Eval(cond), rest.push(FrameView::WhileCond { cond, body })),
            ),
            FrameView::ForLoop { name, items, prior, body } => match next_item(items) {
                Some((x, items2)) => run_block(
                    EnvView { vars: env.vars.insert(name, x), ..env },
                    rest.push(FrameView::ForLoop { name, items: items2, prior, body }),
                    body,
                ),
                None => cont(
                    mv(
                        EnvView {
                            vars: match prior {
                                Some(o) => env.vars.insert(name, o),
                                None => env.vars.remove(name),
                            },
                            ..env
                        },
                        CtrlView::Done,
                        rest,
                    ),
                ),
            },
            FrameView::LoopInit { cond, fmod, body } => cont(
                mv(env, CtrlView::Eval(cond), rest.push(FrameView::LoopCond { cond, fmod, body })),
            ),
            FrameView::LoopBody { cond, fmod, body } => cont(
                mv(env, CtrlView::Exec(fmod), rest.push(FrameView::LoopMod { cond, fmod, body })),
            ),
            FrameView::LoopMod { cond, fmod, body } => cont(
                mv(env, CtrlView::Eval(cond), rest.push(FrameView::LoopCond { cond, fmod, body })),
            ),
            _ => cont(mv(env, CtrlView::Done, rest)),
        }
    }
}

pub open spec fn step_raise(env: EnvView, stack: Seq<FrameView>, e: RuntimeErrorView) -> (MachineView, ActionView) {
    if stack.len() == 0 {
        (mv(env, CtrlView::Halted, stack), ActionView::Finished(Err(e)))
    } else {
        let rest = stack.drop_last();
        match stack.last() {
            FrameView::CallBody { saved } => match e {
                RuntimeErrorView::Return(v) => cont(
                    mv(EnvView { vars: saved, ..env }, CtrlView::Val(v), rest),
                ),
                _ => cont(mv(EnvView { vars: saved, ..env }, CtrlView::Raise(e), rest)),
            },
            FrameView::IndexBase { .. } => cont(
                mv(env, CtrlView::Raise(RuntimeErrorView::TypeError("cannot index non-array type"@)), rest),
            ),
            _ => cont(mv(env, CtrlView::Raise(e), rest)),
        }
    }
}

/// One step of the machine.
pub open spec fn spec_step(m: MachineView) -> (MachineView, ActionView) {
    match m.ctrl {
        CtrlView::Eval(e) => step_eval(m.env, m.stack, e),
        CtrlView::Exec(s) => step_exec(m.env, m.stack, s),
        CtrlView::Val(v) => step_value(m.env, m.stack, v),
        CtrlView::Done => step_done(m.env, m.stack),
        CtrlView::Raise(e) => step_raise(m.env, m.stack, e),
        _ => (m, ActionView::Continue),
    }
}

/// The caller's answer to a request.
pub open spec fn spec_resume(m: MachineView, answer: Result<ValueView, RuntimeErrorView>) -> MachineView {
    match answer {
        Ok(v) => MachineView { ctrl: CtrlView::Val(v), ..m },
        Err(e) => MachineView { ctrl: CtrlView::Raise(e), ..m },
    }
}

} // verus!
