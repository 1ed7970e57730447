use vstd::prelude::*;

pub use crate::ast::{Expr, Stmt};
use crate::ast::{names_view, stmts_view, Block, StmtView};
pub use crate::error::RuntimeError;
use crate::table::{table_view, Table};
use crate::value::{Value, ValueView};

verus! {

/// The functions built into the interpreter.  Their work (printing, reading,
/// system calls, floating-point mathematics) is done by the caller of the machine,
/// except `strlen` and `typeof`.
#[derive(Clone, Copy, Debug, PartialEq, Eq, Structural)]
pub enum Builtin {
    Print,
    Println,
    Input,
    Syscall,
    Strlen,
    Typeof,
    Platformid,
    Sin,
    Cos,
    Tan,
    Abs,
    Sqrt,
    Log,
    Log10,
}

/// A built-in function and its number of arguments (-1: any number).
#[derive(Clone, Copy, Debug, PartialEq, Eq, Structural)]
pub struct BuiltinFn {
    pub nargs: isize,
    pub fnc: Builtin,
}

impl View for BuiltinFn {
    type V = BuiltinFn;

    open spec fn view(&self) -> BuiltinFn {
        *self
    }
}

pub type VarLUT = Table<Value>;

pub type BuiltinLUT = Table<BuiltinFn>;

pub type UserFnLUT = Table<UserFn>;

/// A function declared by the program: its parameters, its body, and the variables
/// as they were where it was declared.
pub struct UserFn {
    pub args: Vec<String>,
    pub body: Block,
    pub vars: VarLUT,
}

pub struct UserFnView {
    pub args: Seq<Seq<char>>,
    pub body: Seq<StmtView>,
    pub vars: Map<Seq<char>, ValueView>,
}

impl View for UserFn {
    type V = UserFnView;

    open spec fn view(&self) -> UserFnView {
        UserFnView { args: names_view(self.args@), body: stmts_view(self.body@), vars: self.vars@ }
    }
}

/// The state a program runs in: variables, built-in and declared functions.
pub struct Environment {
    pub vars: VarLUT,
    pub bfnlut: BuiltinLUT,
    pub ufnlut: UserFnLUT,
}

pub struct EnvView {
    pub vars: Map<Seq<char>, ValueView>,
    pub bfns: Map<Seq<char>, BuiltinFn>,
    pub ufns: Map<Seq<char>, UserFnView>,
}

impl View for Environment {
    type V = EnvView;

    open spec fn view(&self) -> EnvView {
        EnvView { vars: self.vars@, bfns: self.bfnlut@, ufns: self.ufnlut@ }
    }
}

impl Environment {
    pub open spec fn wf(&self) -> bool {
        self.vars.wf() && self.bfnlut.wf() && self.ufnlut.wf()
    }
}

pub type ResValue = Result<Value, RuntimeError>;

pub type ResVoid = Result<(), RuntimeError>;

/// A copy of a variable table, built entry by entry.
pub fn duplicate_vars(t: &VarLUT) -> (r: VarLUT)
    ensures
        r.wf(),
        r@ == t@,
{
    let mut out: VarLUT = Table::new();
    let mut i: usize = 0;
    while i < t.entries.len()
        invariant
            i <= t.entries.len(),
            out.wf(),
            out@ == table_view(t.entries@.subrange(0, i as int)),
        decreases t.entries.len() - i,
    {
        let k = t.entries[i].0.clone();
        let v = t.entries[i].1.duplicate();
        out.insert(k, v);
        proof {
            assert(t.entries@.subrange(0, i + 1).subrange(0, i as int) =~= t.entries@.subrange(0, i as int));
        }
        i = i + 1;
    }
    assert(t.entries@.subrange(0, t.entries.len() as int) =~= t.entries@);
    out
}

} // verus!
