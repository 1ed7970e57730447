use vstd::prelude::*;

pub use crate::error::{ParserError, ParserErrorView};
pub use crate::tokenizer::{tokens_view, Token, TokenOf, TokenView};
pub use crate::value::{Value, ValueView};

verus! {

/// An expression of the language.
#[derive(Debug, PartialEq)]
pub enum Expr {
    Binary { op: Token, left: Box<Expr>, right: Box<Expr> },
    Unary { op: Token, arg: Box<Expr> },
    Call { ident: String, args: Vec<Expr> },
    Index { expr: Box<Expr>, idx: Box<Expr> },
    Ident { ident: String },
    Literal { val: Value },
    ArrayLiteral { members: Vec<Expr> },
}

/// Mathematical counterpart of [`Expr`].
pub enum ExprView {
    Binary { op: TokenView, left: Box<ExprView>, right: Box<ExprView> },
    Unary { op: TokenView, arg: Box<ExprView> },
    Call { ident: Seq<char>, args: Seq<ExprView> },
    Index { expr: Box<ExprView>, idx: Box<ExprView> },
    Ident { ident: Seq<char> },
    Literal { val: ValueView },
    ArrayLiteral { members: Seq<ExprView> },
}

pub open spec fn expr_view(e: Expr) -> ExprView
    decreases e,
{
    match e {
        Expr::Binary { op, left, right } => ExprView::Binary {
            op: op@,
            left: Box::new(expr_view(*left)),
            right: Box::new(expr_view(*right)),
        },
        Expr::Unary { op, arg } => ExprView::Unary { op: op@, arg: Box::new(expr_view(*arg)) },
        Expr::Call { ident, args } => ExprView::Call { ident: ident@, args: exprs_view(args@) },
        Expr::Index { expr, idx } => ExprView::Index {
            expr: Box::new(expr_view(*expr)),
            idx: Box::new(expr_view(*idx)),
        },
        Expr::Ident { ident } => ExprView::Ident { ident: ident@ },
        Expr::Literal { val } => ExprView::Literal { val: val@ },
        Expr::ArrayLiteral { members } => ExprView::ArrayLiteral { members: exprs_view(members@) },
    }
}

pub open spec fn exprs_view(es: Seq<Expr>) -> Seq<ExprView>
    decreases es,
{
    if es.len() == 0 {
        Seq::empty()
    } else {
        exprs_view(es.subrange(0, es.len() - 1)).push(expr_view(es[es.len() - 1]))
    }
}

impl View for Expr {
    type V = ExprView;

    open spec fn view(&self) -> ExprView {
        expr_view(*self)
    }
}

pub type Block = Vec<Stmt>;

#[derive(Debug, PartialEq)]
pub struct CondBlock {
    pub cond: Expr,
    pub body: Block,
}

#[derive(Debug, PartialEq)]
pub struct LetStmt {
    pub name: String,
    pub expr: Expr,
}

#[derive(Debug, PartialEq)]
pub struct AssignStmt {
    pub name: String,
    pub expr: Expr,
}

#[derive(Debug, PartialEq)]
pub struct RetStmt {
    pub expr: Expr,
}

#[derive(Debug, PartialEq)]
pub struct IfStmt {
    pub branches: Vec<CondBlock>,
    pub else_body: Option<Block>,
}

#[derive(Debug, PartialEq)]
pub struct WhileStmt {
    pub block: CondBlock,
}

#[derive(Debug, PartialEq)]
pub struct FnDeclStmt {
    pub name: String,
    pub args: Vec<String>,
    pub body: Block,
}

#[derive(Debug, PartialEq)]
pub struct ExprStmt {
    pub expr: Expr,
}

#[derive(Debug, PartialEq)]
pub struct ForInStmt {
    pub lhs: Expr,
    pub rhs: Expr,
    pub block: Block,
}

#[derive(Debug, PartialEq)]
pub struct ForICMStmt {
    pub init: Box<Stmt>,
    pub cond: Expr,
    pub fmod: Box<Stmt>,
    pub block: Block,
}

/// A statement of the language.
#[derive(Debug, PartialEq)]
pub enum Stmt {
    Assign(AssignStmt),
    Let(LetStmt),
    Ret(RetStmt),
    If(IfStmt),
    While(WhileStmt),
    FnDecl(FnDeclStmt),
    Expr(ExprStmt),
    ForIn(ForInStmt),
    ForICM(ForICMStmt),
    Continue,
    Break,
}

/// Mathematical counterpart of [`Stmt`].
pub enum StmtView {
    Assign { name: Seq<char>, expr: ExprView },
    Let { name: Seq<char>, expr: ExprView },
    Ret { expr: ExprView },
    If { branches: Seq<(ExprView, Seq<StmtView>)>, else_body: Option<Seq<StmtView>> },
    While { cond: ExprView, body: Seq<StmtView> },
    FnDecl { name: Seq<char>, args: Seq<Seq<char>>, body: Seq<StmtView> },
    Expr { expr: ExprView },
    ForIn { lhs: ExprView, rhs: ExprView, block: Seq<StmtView> },
    ForICM { init: Box<StmtView>, cond: ExprView, fmod: Box<StmtView>, block: Seq<StmtView> },
    Continue,
    Break,
}

pub open spec fn names_view(ns: Seq<String>) -> Seq<Seq<char>> {
    ns.map_values(|s: String| s@)
}

pub open spec fn stmt_view(s: Stmt) -> StmtView
    decreases s,
{
    match s {
        Stmt::Assign(a) => StmtView::Assign { name: a.name@, expr: a.expr@ },
        Stmt::Let(l) => StmtView::Let { name: l.name@, expr: l.expr@ },
        Stmt::Ret(r) => StmtView::Ret { expr: r.expr@ },
        Stmt::If(i) => StmtView::If {
            branches: branches_view(i.branches@),
            else_body: match i.else_body {
                Some(b) => Some(stmts_view(b@)),
                None => None,
            },
        },
        Stmt::While(w) => StmtView::While { cond: w.block.cond@, body: stmts_view(w.block.body@) },
        Stmt::FnDecl(f) => StmtView::FnDecl {
            name: f.name@,
            args: names_view(f.args@),
            body: stmts_view(f.body@),
        },
        Stmt::Expr(e) => StmtView::Expr { expr: e.expr@ },
        Stmt::ForIn(f) => StmtView::ForIn { lhs: f.lhs@, rhs: f.rhs@, block: stmts_view(f.block@) },
        Stmt::ForICM(f) => StmtView::ForICM {
            init: Box::new(stmt_view(*f.init)),
            cond: f.cond@,
            fmod: Box::new(stmt_view(*f.fmod)),
            block: stmts_view(f.block@),
        },
        Stmt::Continue => StmtView::Continue,
        Stmt::Break => StmtView::Break,
    }
}

pub open spec fn stmts_view(ss: Seq<Stmt>) -> Seq<StmtView>
    decreases ss,
{
    if ss.len() == 0 {
        Seq::empty()
    } else {
        stmts_view(ss.subrange(0, ss.len() - 1)).push(stmt_view(ss[ss.len() - 1]))
    }
}

pub open spec fn branches_view(bs: Seq<CondBlock>) -> Seq<(ExprView, Seq<StmtView>)>
    decreases bs,
{
    if bs.len() == 0 {
        Seq::empty()
    } else {
        branches_view(bs.subrange(0, bs.len() - 1)).push(
            (bs[bs.len() - 1].cond@, stmts_view(bs[bs.len() - 1].body@)),
        )
    }
}

impl View for Stmt {
    type V = StmtView;

    open spec fn view(&self) -> StmtView {
        stmt_view(*self)
    }
}

} // verus!

verus! {

// ---------------------------------------------------------------------------
// The parser's view of a token sequence.
// ---------------------------------------------------------------------------

/// The parser stands at the end: past the tokens or on `Eof`.
pub open spec fn p_at_end(t: Seq<TokenView>, pos: int) -> bool {
    pos < 0 || pos >= t.len() || t[pos] == TokenOf::<Seq<char>>::Eof
}

/// The current token, `Eof` at the end.
pub open spec fn p_peek(t: Seq<TokenView>, pos: int) -> TokenView {
    if p_at_end(t, pos) {
        TokenOf::Eof
    } else {
        t[pos]
    }
}

/// The position after taking the current token; the end is never passed.
pub open spec fn p_next(t: Seq<TokenView>, pos: int) -> int {
    if p_at_end(t, pos) {
        pos
    } else {
        pos + 1
    }
}

/// The token `n` places on, `Eof` past the tokens.
pub open spec fn p_peek_n(t: Seq<TokenView>, pos: int, n: int) -> TokenView {
    if pos + n >= t.len() {
        TokenOf::Eof
    } else {
        t[pos + n]
    }
}

/// A parse result with the position at which the parser stands afterwards, also
/// after an error.
pub type Parsed<T> = (Result<T, ParserErrorView>, int);

/// Taking token `k`, which must be current.
pub open spec fn p_expect(t: Seq<TokenView>, pos: int, k: TokenView) -> Parsed<TokenView> {
    if p_peek(t, pos) != k {
        (Err(ParserErrorView::UnexpectedToken { expected: Some(k), got: p_peek(t, pos) }), pos)
    } else {
        (Ok(p_peek(t, pos)), p_next(t, pos))
    }
}

/// A recursive-descent parser over a token sequence.
pub struct Parser {
    pub tokens: Vec<Token>,
    pub pos: usize,
    pub use_eos: bool,
}

impl Parser {
    pub open spec fn toks(&self) -> Seq<TokenView> {
        tokens_view(self.tokens@)
    }

    pub open spec fn wf(&self) -> bool {
        self.pos <= self.tokens.len()
    }

    pub open spec fn eos_required(&self) -> bool {
        self.use_eos
    }

    /// `final` is `old` moved to another position.
    pub open spec fn moved(before: &Parser, after: &Parser) -> bool {
        &&& after.wf()
        &&& after.tokens@ == before.tokens@
        &&& after.eos_required() == before.eos_required()
    }

    pub fn at_end(&self) -> (r: bool)
        requires
            self.wf(),
        ensures
            r == p_at_end(self.toks(), self.pos as int),
    {
        self.pos >= self.tokens.len() || matches!(self.tokens[self.pos], TokenOf::Eof)
    }

    pub fn peek(&self) -> (r: Token)
        requires
            self.wf(),
        ensures
            r@ == p_peek(self.toks(), self.pos as int),
    {
        if self.at_end() {
            return TokenOf::Eof;
        }
        self.tokens[self.pos].duplicate()
    }

    pub fn peek_n(&self, n: usize) -> (r: Token)
        requires
            self.wf(),
        ensures
            r@ == p_peek_n(self.toks(), self.pos as int, n as int),
    {
        if n >= self.tokens.len() - self.pos {
            return TokenOf::Eof;
        }
        self.tokens[self.pos + n].duplicate()
    }

    pub fn advance(&mut self) -> (r: Token)
        requires
            old(self).wf(),
        ensures
            Parser::moved(old(self), final(self)),
            r@ == p_peek(old(self).toks(), old(self).pos as int),
            final(self).pos == p_next(old(self).toks(), old(self).pos as int),
    {
        if self.at_end() {
            return TokenOf::Eof;
        }
        let tk = self.tokens[self.pos].duplicate();
        self.pos = self.pos + 1;
        tk
    }

    /// Takes the current token and moves `n` places on; where that passes the
    /// tokens, nothing moves and `Eof` is returned.
    pub fn advance_n(&mut self, n: usize) -> (r: Token)
        requires
            old(self).wf(),
        ensures
            Parser::moved(old(self), final(self)),
            old(self).pos + n >= old(self).tokens.len() ==> r@ == TokenOf::<Seq<char>>::Eof
                && final(self).pos == old(self).pos,
            old(self).pos + n < old(self).tokens.len() ==> r@ == old(self).toks()[old(self).pos as int]
                && final(self).pos == old(self).pos + n,
    {
        if n >= self.tokens.len() - self.pos {
            return TokenOf::Eof;
        }
        let tk = self.tokens[self.pos].duplicate();
        self.pos = self.pos + n;
        tk
    }

    pub fn at(&self, t: Token) -> (r: bool)
        requires
            self.wf(),
        ensures
            r == (p_peek(self.toks(), self.pos as int) == t@),
    {
        self.peek().same(&t)
    }

    pub fn expect(&mut self, t: Token) -> (r: Result<Token, ParserError>)
        requires
            old(self).wf(),
        ensures
            Parser::moved(old(self), final(self)),
            ({
                let want = p_expect(old(self).toks(), old(self).pos as int, t@);
                &&& want.1 == final(self).pos
                &&& match r {
                    Ok(k) => want.0 == Ok::<TokenView, ParserErrorView>(k@),
                    Err(e) => want.0 == Err::<TokenView, ParserErrorView>(e@),
                }
            }),
    {
        if !self.at(t.duplicate()) {
            Err(ParserError::UnexpectedToken { expected: Some(t), got: self.peek() })
        } else {
            Ok(self.advance())
        }
    }

    pub fn enable_eos(&mut self, yes: bool)
        ensures
            final(self).tokens@ == old(self).tokens@,
            final(self).pos == old(self).pos,
            final(self).eos_required() == yes,
    {
        self.use_eos = yes;
    }

    /// Takes `Eos` where statement ends are required, otherwise stands for one.
    pub fn ensure_eos(&mut self) -> (r: Result<Token, ParserError>)
        requires
            old(self).wf(),
        ensures
            Parser::moved(old(self), final(self)),
            !old(self).eos_required() ==> r is Ok && r->Ok_0@ == TokenOf::<Seq<char>>::Eos
                && final(self).pos == old(self).pos,
            old(self).eos_required() ==> ({
                let want = p_expect(old(self).toks(), old(self).pos as int, TokenOf::Eos);
                &&& want.1 == final(self).pos
                &&& match r {
                    Ok(k) => want.0 == Ok::<TokenView, ParserErrorView>(k@),
                    Err(e) => want.0 == Err::<TokenView, ParserErrorView>(e@),
                }
            }),
    {
        if self.use_eos {
            self.expect(TokenOf::Eos)
        } else {
            Ok(TokenOf::Eos)
        }
    }

    pub(crate) fn new(tokens: Vec<Token>) -> (r: Self)
        ensures
            r.wf(),
            r.tokens@ == tokens@,
            r.pos == 0,
            r.eos_required(),
    {
        Parser { tokens, pos: 0, use_eos: true }
    }
}

} // verus!

verus! {

/// A whole program: statements up to the end of the tokens.
pub open spec fn sp_program(t: Seq<TokenView>, pos: int, acc: Seq<StmtView>) -> Result<
    Seq<StmtView>,
    ParserErrorView,
>
    decreases t.len() + 1 - pos,
{
    if !(0 <= pos <= t.len()) {
        Err(ParserErrorView::UnexpectedToken { expected: None, got: p_peek(t, pos) })
    } else if !p_at_end(t, pos) {
        let r = crate::ast_stmt::sp_stmt(t, pos);
        match r.0 {
            Ok(s) => if pos < r.1 <= t.len() {
                sp_program(t, r.1, acc.push(s))
            } else {
                Err(ParserErrorView::UnexpectedToken { expected: None, got: p_peek(t, pos) })
            },
            Err(e) => Err(e),
        }
    } else {
        Ok(acc)
    }
}

/// Parses a whole token sequence into statements.
pub fn parse(toks: Vec<Token>) -> (r: Result<Vec<Stmt>, ParserError>)
    ensures
        match r {
            Ok(ss) => sp_program(tokens_view(toks@), 0, Seq::empty()) == Ok::<
                Seq<StmtView>,
                ParserErrorView,
            >(stmts_view(ss@)),
            Err(e) => sp_program(tokens_view(toks@), 0, Seq::empty()) == Err::<
                Seq<StmtView>,
                ParserErrorView,
            >(e@),
        },
{
    let mut psr = Parser::new(toks);
    let ghost t = psr.toks();
    let mut statements: Vec<Stmt> = Vec::new();
    assert(stmts_view(statements@) =~= Seq::<StmtView>::empty());
    while !psr.at_end()
        invariant
            psr.wf(),
            psr.toks() == t,
            t == tokens_view(toks@),
            sp_program(t, psr.pos as int, stmts_view(statements@)) == sp_program(t, 0, Seq::empty()),
        decreases crate::ast_expr::left_to_take(&psr),
    {
        match crate::ast_stmt::parse_stmt(&mut psr) {
            Ok(s) => {
                proof {
                    crate::ast_stmt::lemma_stmts_view_push(statements@, s);
                }
                statements.push(s);
            },
            Err(e) => {
                return Err(e);
            },
        }
    }
    Ok(statements)
}

} // verus!

verus! {


pub proof fn lemma_exprs_push(es: Seq<Expr>, e: Expr)
    ensures
        exprs_view(es.push(e)) == exprs_view(es).push(e@),
{
    assert(es.push(e).subrange(0, es.len() as int) =~= es);
}

pub proof fn lemma_stmts_push(ss: Seq<Stmt>, s: Stmt)
    ensures
        stmts_view(ss.push(s)) == stmts_view(ss).push(s@),
{
    assert(ss.push(s).subrange(0, ss.len() as int) =~= ss);
}

pub proof fn lemma_branches_push(bs: Seq<CondBlock>, b: CondBlock)
    ensures
        branches_view(bs.push(b)) == branches_view(bs).push((b.cond@, stmts_view(b.body@))),
{
    assert(bs.push(b).subrange(0, bs.len() as int) =~= bs);
}

pub proof fn lemma_exprs_index(es: Seq<Expr>)
    ensures
        exprs_view(es).len() == es.len(),
        forall|i: int| 0 <= i < es.len() ==> #[trigger] exprs_view(es)[i] == es[i]@,
    decreases es.len(),
{
    if es.len() > 0 {
        let pre = es.subrange(0, es.len() - 1);
        lemma_exprs_index(pre);
        assert forall|i: int| 0 <= i < es.len() implies #[trigger] exprs_view(es)[i] == es[i]@ by {
            if i < es.len() - 1 {
                assert(pre[i] == es[i]);
            }
        }
    }
}

pub proof fn lemma_stmts_index(ss: Seq<Stmt>)
    ensures
        stmts_view(ss).len() == ss.len(),
        forall|i: int| 0 <= i < ss.len() ==> #[trigger] stmts_view(ss)[i] == ss[i]@,
    decreases ss.len(),
{
    if ss.len() > 0 {
        let pre = ss.subrange(0, ss.len() - 1);
        lemma_stmts_index(pre);
        assert forall|i: int| 0 <= i < ss.len() implies #[trigger] stmts_view(ss)[i] == ss[i]@ by {
            if i < ss.len() - 1 {
                assert(pre[i] == ss[i]);
            }
        }
    }
}

pub proof fn lemma_branches_index(bs: Seq<CondBlock>)
    ensures
        branches_view(bs).len() == bs.len(),
        forall|i: int| 0 <= i < bs.len() ==> #[trigger] branches_view(bs)[i] == (
            bs[i].cond@,
            stmts_view(bs[i].body@),
        ),
    decreases bs.len(),
{
    if bs.len() > 0 {
        let pre = bs.subrange(0, bs.len() - 1);
        lemma_branches_index(pre);
        assert forall|i: int| 0 <= i < bs.len() implies #[trigger] branches_view(bs)[i] == (
            bs[i].cond@,
            stmts_view(bs[i].body@),
        ) by {
            if i < bs.len() - 1 {
                assert(pre[i] == bs[i]);
            }
        }
    }
}

pub fn duplicate_names(ns: &Vec<String>) -> (r: Vec<String>)
    ensures
        names_view(r@) == names_view(ns@),
{
    let mut out: Vec<String> = Vec::new();
    let mut i: usize = 0;
    while i < ns.len()
        invariant
            i <= ns.len(),
            out@.len() == i,
            forall|j: int| 0 <= j < i ==> out@[j]@ == ns@[j]@,
        decreases ns.len() - i,
    {
        out.push(ns[i].clone());
        i = i + 1;
    }
    assert(names_view(out@) =~= names_view(ns@));
    out
}

impl Expr {
    /// A deep copy of the expression.
    pub fn duplicate(&self) -> (r: Expr)
        ensures
            r@ == self@,
        decreases self,
    {
        match self {
            Expr::Binary { op, left, right } => Expr::Binary {
                op: op.duplicate(),
                left: Box::new(left.duplicate()),
                right: Box::new(right.duplicate()),
            },
            Expr::Unary { op, arg } => Expr::Unary { op: op.duplicate(), arg: Box::new(arg.duplicate()) },
            Expr::Call { ident, args } => Expr::Call { ident: ident.clone(), args: duplicate_exprs(args) },
            Expr::Index { expr, idx } => Expr::Index {
                expr: Box::new(expr.duplicate()),
                idx: Box::new(idx.duplicate()),
            },
            Expr::Ident { ident } => Expr::Ident { ident: ident.clone() },
            Expr::Literal { val } => Expr::Literal { val: val.duplicate() },
            Expr::ArrayLiteral { members } => Expr::ArrayLiteral { members: duplicate_exprs(members) },
        }
    }
}

pub fn duplicate_exprs(es: &Vec<Expr>) -> (r: Vec<Expr>)
    ensures
        exprs_view(r@) == exprs_view(es@),
    decreases es@,
{
    let mut out: Vec<Expr> = Vec::new();
    let mut i: usize = 0;
    while i < es.len()
        invariant
            i <= es.len(),
            exprs_view(out@) == exprs_view(es@.subrange(0, i as int)),
        decreases es.len() - i,
    {
        proof {
            assert(decreases_to!(es@ => es@[i as int]));
        }
        let e = es[i].duplicate();
        proof {
            lemma_exprs_push(out@, e);
            lemma_exprs_push(es@.subrange(0, i as int), es@[i as int]);
            assert(es@.subrange(0, i + 1) =~= es@.subrange(0, i as int).push(es@[i as int]));
        }
        out.push(e);
        i = i + 1;
    }
    assert(es@.subrange(0, es.len() as int) =~= es@);
    out
}

impl Stmt {
    /// A deep copy of the statement.
    pub fn duplicate(&self) -> (r: Stmt)
        ensures
            r@ == self@,
        decreases self,
    {
        match self {
            Stmt::Assign(a) => Stmt::Assign(AssignStmt { name: a.name.clone(), expr: a.expr.duplicate() }),
            Stmt::Let(l) => Stmt::Let(LetStmt { name: l.name.clone(), expr: l.expr.duplicate() }),
            Stmt::Ret(r) => Stmt::Ret(RetStmt { expr: r.expr.duplicate() }),
            Stmt::If(i) => {
                let branches = duplicate_branches(&i.branches);
                let else_body = match &i.else_body {
                    Some(b) => Some(duplicate_block(b)),
                    None => None,
                };
                Stmt::If(IfStmt { branches, else_body })
            },
            Stmt::While(w) => Stmt::While(
                WhileStmt {
                    block: CondBlock {
                        cond: w.block.cond.duplicate(),
                        body: duplicate_block(&w.block.body),
                    },
                },
            ),
            Stmt::FnDecl(f) => Stmt::FnDecl(
                FnDeclStmt {
                    name: f.name.clone(),
                    args: duplicate_names(&f.args),
                    body: duplicate_block(&f.body),
                },
            ),
            Stmt::Expr(e) => Stmt::Expr(ExprStmt { expr: e.expr.duplicate() }),
            Stmt::ForIn(f) => Stmt::ForIn(
                ForInStmt {
                    lhs: f.lhs.duplicate(),
                    rhs: f.rhs.duplicate(),
                    block: duplicate_block(&f.block),
                },
            ),
            Stmt::ForICM(f) => Stmt::ForICM(
                ForICMStmt {
                    init: Box::new(f.init.duplicate()),
                    cond: f.cond.duplicate(),
                    fmod: Box::new(f.fmod.duplicate()),
                    block: duplicate_block(&f.block),
                },
            ),
            Stmt::Continue => Stmt::Continue,
            Stmt::Break => Stmt::Break,
        }
    }
}

pub fn duplicate_block(ss: &Vec<Stmt>) -> (r: Vec<Stmt>)
    ensures
        stmts_view(r@) == stmts_view(ss@),
    decreases ss@,
{
    let mut out: Vec<Stmt> = Vec::new();
    let mut i: usize = 0;
    while i < ss.len()
        invariant
            i <= ss.len(),
            stmts_view(out@) == stmts_view(ss@.subrange(0, i as int)),
        decreases ss.len() - i,
    {
        proof {
            assert(decreases_to!(ss@ => ss@[i as int]));
        }
        let s = ss[i].duplicate();
        proof {
            lemma_stmts_push(out@, s);
            lemma_stmts_push(ss@.subrange(0, i as int), ss@[i as int]);
            assert(ss@.subrange(0, i + 1) =~= ss@.subrange(0, i as int).push(ss@[i as int]));
        }
        out.push(s);
        i = i + 1;
    }
    assert(ss@.subrange(0, ss.len() as int) =~= ss@);
    out
}

pub fn duplicate_branches(bs: &Vec<CondBlock>) -> (r: Vec<CondBlock>)
    ensures
        branches_view(r@) == branches_view(bs@),
    decreases bs@,
{
    let mut out: Vec<CondBlock> = Vec::new();
    let mut i: usize = 0;
    while i < bs.len()
        invariant
            i <= bs.len(),
            branches_view(out@) == branches_view(bs@.subrange(0, i as int)),
        decreases bs.len() - i,
    {
        proof {
            assert(decreases_to!(bs@ => bs@[i as int]));
        }
        let b = CondBlock { cond: bs[i].cond.duplicate(), body: duplicate_block(&bs[i].body) };
        proof {
            lemma_branches_push(out@, b);
            lemma_branches_push(bs@.subrange(0, i as int), bs@[i as int]);
            assert(bs@.subrange(0, i + 1) =~= bs@.subrange(0, i as int).push(bs@[i as int]));
        }
        out.push(b);
        i = i + 1;
    }
    assert(bs@.subrange(0, bs.len() as int) =~= bs@);
    out
}

} // verus!
