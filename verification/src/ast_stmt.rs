use vstd::prelude::*;

use crate::ast::{
    branches_view, names_view, p_expect, p_next, p_peek, p_peek_n, stmts_view, AssignStmt,
    Block, CondBlock, ExprStmt, ExprView, FnDeclStmt, IfStmt, LetStmt, Parsed, Parser, ParserError,
    ParserErrorView, RetStmt, Stmt, StmtView, TokenOf, TokenView, WhileStmt,
};
use crate::ast_expr::{expr_parsed, left_to_take, parse_expr, sp_expr, stuck};

verus! {

// ---------------------------------------------------------------------------
// The statement grammar.
//   let NAME = EXPR ;      NAME = EXPR ;      ret EXPR ;      EXPR ;
//   if EXPR BLOCK (elif EXPR BLOCK)* (else BLOCK)?
//   while EXPR BLOCK
//   fn NAME ( NAME, ... ) BLOCK          BLOCK ::= { STMT* }
// ---------------------------------------------------------------------------

pub type CondView = (ExprView, Seq<StmtView>);

/// `EXPR ;` into a statement built by `mk`.
pub open spec fn sp_expr_then_eos(t: Seq<TokenView>, pos: int) -> Parsed<ExprView> {
    let r = sp_expr(t, pos);
    match r.0 {
        Ok(e) => {
            let x = p_expect(t, r.1, TokenOf::Eos);
            match x.0 {
                Ok(_) => (Ok(e), x.1),
                Err(err) => (Err(err), x.1),
            }
        },
        Err(err) => (Err(err), r.1),
    }
}

pub open spec fn sp_stmt(t: Seq<TokenView>, pos: int) -> Parsed<StmtView>
    decreases t.len() + 1 - pos, 60int,
{
    if !(0 <= pos <= t.len()) {
        stuck(pos)
    } else if p_peek(t, pos) == TokenOf::<Seq<char>>::Let {
        let p1 = p_next(t, pos);
        let k = p_peek(t, p1);
        let p2 = p_next(t, p1);
        if k is Ident {
            if p_peek(t, p2) == TokenOf::<Seq<char>>::Assign {
                let r = sp_expr_then_eos(t, p_next(t, p2));
                match r.0 {
                    Ok(e) => (Ok(StmtView::Let { name: k->Ident_0, expr: e }), r.1),
                    Err(err) => (Err(err), r.1),
                }
            } else {
                (Err(ParserErrorView::ExpectedToken(TokenOf::Assign)), p2)
            }
        } else {
            (Err(ParserErrorView::ExpectedIdent), p2)
        }
    } else if p_peek(t, pos) is Ident && p_peek_n(t, pos, 1) == TokenOf::<Seq<char>>::Assign {
        let p1 = if pos + 2 >= t.len() {
            pos
        } else {
            pos + 2
        };
        let r = sp_expr_then_eos(t, p1);
        match r.0 {
            Ok(e) => (Ok(StmtView::Assign { name: p_peek(t, pos)->Ident_0, expr: e }), r.1),
            Err(err) => (Err(err), r.1),
        }
    } else if p_peek(t, pos) == TokenOf::<Seq<char>>::Ret {
        let r = sp_expr_then_eos(t, p_next(t, pos));
        match r.0 {
            Ok(e) => (Ok(StmtView::Ret { expr: e }), r.1),
            Err(err) => (Err(err), r.1),
        }
    } else if p_peek(t, pos) == TokenOf::<Seq<char>>::If {
        sp_if(t, p_next(t, pos))
    } else if p_peek(t, pos) == TokenOf::<Seq<char>>::Fn {
        sp_fn(t, p_next(t, pos))
    } else if p_peek(t, pos) == TokenOf::<Seq<char>>::While {
        sp_while(t, p_next(t, pos))
    } else {
        let r = sp_expr_then_eos(t, pos);
        match r.0 {
            Ok(e) => (Ok(StmtView::Expr { expr: e }), r.1),
            Err(err) => (Err(err), r.1),
        }
    }
}

/// Statements up to the closing brace (which is not taken).
pub open spec fn sp_stmts(t: Seq<TokenView>, pos: int, acc: Seq<StmtView>) -> Parsed<
    Seq<StmtView>,
>
    decreases t.len() + 1 - pos, 70int,
{
    if !(0 <= pos <= t.len()) {
        stuck(pos)
    } else if p_peek(t, pos) != TokenOf::<Seq<char>>::Rbrace {
        let r = sp_stmt(t, pos);
        match r.0 {
            Ok(s) => if pos < r.1 <= t.len() {
                sp_stmts(t, r.1, acc.push(s))
            } else {
                stuck(r.1)
            },
            Err(e) => (Err(e), r.1),
        }
    } else {
        (Ok(acc), pos)
    }
}

pub open spec fn sp_block(t: Seq<TokenView>, pos: int) -> Parsed<Seq<StmtView>>
    decreases t.len() + 1 - pos, 30int,
{
    if !(0 <= pos <= t.len()) {
        stuck(pos)
    } else if p_peek(t, pos) != TokenOf::<Seq<char>>::Lbrace {
        (Err(ParserErrorView::ExpectedToken(TokenOf::Lbrace)), pos)
    } else {
        let r = sp_stmts(t, p_next(t, pos), Seq::empty());
        match r.0 {
            Ok(body) => (Ok(body), p_next(t, r.1)),
            Err(e) => (Err(e), r.1),
        }
    }
}

pub open spec fn sp_condblk(t: Seq<TokenView>, pos: int) -> Parsed<CondView>
    decreases t.len() + 1 - pos, 40int,
{
    if !(0 <= pos <= t.len()) {
        stuck(pos)
    } else {
        let r = sp_expr(t, pos);
        match r.0 {
            Ok(c) => if pos < r.1 <= t.len() {
                let rb = sp_block(t, r.1);
                match rb.0 {
                    Ok(body) => (Ok((c, body)), rb.1),
                    Err(e) => (Err(e), rb.1),
                }
            } else {
                stuck(r.1)
            },
            Err(e) => (Err(e), r.1),
        }
    }
}

/// `elif` branches after the first branch of an `if`.
pub open spec fn sp_elifs(t: Seq<TokenView>, pos: int, acc: Seq<CondView>) -> Parsed<Seq<CondView>>
    decreases t.len() + 1 - pos, 45int,
{
    if !(0 <= pos <= t.len()) {
        stuck(pos)
    } else if p_peek(t, pos) == TokenOf::<Seq<char>>::Elif {
        let r = sp_condblk(t, p_next(t, pos));
        match r.0 {
            Ok(b) => if pos < r.1 <= t.len() {
                sp_elifs(t, r.1, acc.push(b))
            } else {
                stuck(r.1)
            },
            Err(e) => (Err(e), r.1),
        }
    } else {
        (Ok(acc), pos)
    }
}

/// An `if` statement after its keyword.
pub open spec fn sp_if(t: Seq<TokenView>, pos: int) -> Parsed<StmtView>
    decreases t.len() + 1 - pos, 50int,
{
    if !(0 <= pos <= t.len()) {
        stuck(pos)
    } else {
        let r = sp_condblk(t, pos);
        match r.0 {
            Ok(b) => if pos <= r.1 <= t.len() {
                let re = sp_elifs(t, r.1, seq![b]);
                match re.0 {
                    Ok(branches) => if p_peek(t, re.1) == TokenOf::<Seq<char>>::Else {
                        if pos <= re.1 <= t.len() {
                            let rb = sp_block(t, p_next(t, re.1));
                            match rb.0 {
                                Ok(body) => (
                                    Ok(StmtView::If { branches, else_body: Some(body) }),
                                    rb.1,
                                ),
                                Err(e) => (Err(e), rb.1),
                            }
                        } else {
                            stuck(re.1)
                        }
                    } else {
                        (Ok(StmtView::If { branches, else_body: None }), re.1)
                    },
                    Err(e) => (Err(e), re.1),
                }
            } else {
                stuck(r.1)
            },
            Err(e) => (Err(e), r.1),
        }
    }
}

/// A `while` statement after its keyword.
pub open spec fn sp_while(t: Seq<TokenView>, pos: int) -> Parsed<StmtView>
    decreases t.len() + 1 - pos, 50int,
{
    if !(0 <= pos <= t.len()) {
        stuck(pos)
    } else {
        let r = sp_condblk(t, pos);
        match r.0 {
            Ok(b) => (Ok(StmtView::While { cond: b.0, body: b.1 }), r.1),
            Err(e) => (Err(e), r.1),
        }
    }
}

/// Parameter names of a function, up to the closing parenthesis (not taken).
pub open spec fn sp_params(t: Seq<TokenView>, pos: int, acc: Seq<Seq<char>>) -> Parsed<
    Seq<Seq<char>>,
>
    decreases t.len() + 1 - pos,
{
    if !(0 <= pos <= t.len()) {
        stuck(pos)
    } else if p_peek(t, pos) != TokenOf::<Seq<char>>::Rparen {
        if p_peek(t, pos) is Ident {
            let p1 = p_next(t, pos);
            let p2 = if p_peek(t, p1) == TokenOf::<Seq<char>>::Comma {
                p_next(t, p1)
            } else {
                p1
            };
            if pos < p2 <= t.len() {
                sp_params(t, p2, acc.push(p_peek(t, pos)->Ident_0))
            } else {
                stuck(p2)
            }
        } else {
            (Err(ParserErrorView::ExpectedIdent), pos)
        }
    } else {
        (Ok(acc), pos)
    }
}

/// A function declaration after `fn`.
pub open spec fn sp_fn(t: Seq<TokenView>, pos: int) -> Parsed<StmtView>
    decreases t.len() + 1 - pos, 50int,
{
    if !(0 <= pos <= t.len()) {
        stuck(pos)
    } else {
        let k = p_peek(t, pos);
        let p1 = p_next(t, pos);
        if k is Ident {
            if p_peek(t, p1) != TokenOf::<Seq<char>>::Lparen {
                (Err(ParserErrorView::ExpectedToken(TokenOf::Lparen)), p1)
            } else {
                let ra = sp_params(t, p_next(t, p1), Seq::empty());
                match ra.0 {
                    Ok(args) => if pos < ra.1 <= t.len() {
                        let rb = sp_block(t, p_next(t, ra.1));
                        match rb.0 {
                            Ok(body) => (
                                Ok(StmtView::FnDecl { name: k->Ident_0, args, body }),
                                rb.1,
                            ),
                            Err(e) => (Err(e), rb.1),
                        }
                    } else {
                        stuck(ra.1)
                    },
                    Err(e) => (Err(e), ra.1),
                }
            }
        } else {
            (Err(ParserErrorView::ExpectedIdent), p1)
        }
    }
}

} // verus!

verus! {

pub open spec fn stmt_parsed(r: Result<Stmt, ParserError>, pos: int) -> Parsed<StmtView> {
    (
        match r {
            Ok(s) => Ok(s@),
            Err(x) => Err(x@),
        },
        pos,
    )
}

pub open spec fn block_parsed(r: Result<Block, ParserError>, pos: int) -> Parsed<Seq<StmtView>> {
    (
        match r {
            Ok(b) => Ok(stmts_view(b@)),
            Err(x) => Err(x@),
        },
        pos,
    )
}

pub open spec fn cond_parsed(r: Result<CondBlock, ParserError>, pos: int) -> Parsed<CondView> {
    (
        match r {
            Ok(b) => Ok((b.cond@, stmts_view(b.body@))),
            Err(x) => Err(x@),
        },
        pos,
    )
}

pub proof fn lemma_stmts_view_push(ss: Seq<Stmt>, s: Stmt)
    ensures
        stmts_view(ss.push(s)) == stmts_view(ss).push(s@),
{
    assert(ss.push(s).subrange(0, ss.len() as int) =~= ss);
}

pub proof fn lemma_branches_view_push(bs: Seq<CondBlock>, b: CondBlock)
    ensures
        branches_view(bs.push(b)) == branches_view(bs).push((b.cond@, stmts_view(b.body@))),
{
    assert(bs.push(b).subrange(0, bs.len() as int) =~= bs);
}

fn parse_block(p: &mut Parser) -> (r: Result<Block, ParserError>)
    requires
        old(p).wf(),
    ensures
        Parser::moved(old(p), final(p)),
        old(p).pos <= final(p).pos,
        r is Ok ==> old(p).pos < final(p).pos,
        block_parsed(r, final(p).pos as int) == sp_block(old(p).toks(), old(p).pos as int),
    decreases left_to_take(p), 30int,
{
    let ghost t = p.toks();
    let ghost start = p.pos as int;
    if !p.at(TokenOf::Lbrace) {
        return Err(ParserError::ExpectedToken(TokenOf::Lbrace));
    }
    p.advance();
    let ghost goal = sp_stmts(t, p.pos as int, Seq::empty());
    let mut body: Vec<Stmt> = Vec::new();
    assert(stmts_view(body@) =~= Seq::<StmtView>::empty());
    while !p.at(TokenOf::Rbrace)
        invariant
            p.wf(),
            p.toks() == t,
            p.tokens@ == old(p).tokens@,
            p.eos_required() == old(p).eos_required(),
            t == old(p).toks(),
            start == old(p).pos,
            start < p.pos,
            goal == sp_stmts(t, p.pos as int, stmts_view(body@)),
            sp_block(t, start) == (match goal.0 {
                Ok(b) => (Ok(b), p_next(t, goal.1)),
                Err(e) => (Err(e), goal.1),
            }),
        decreases left_to_take(p),
    {
        match parse_stmt(p) {
            Ok(s) => {
                proof {
                    lemma_stmts_view_push(body@, s);
                }
                body.push(s);
            },
            Err(e) => {
                return Err(e);
            },
        }
    }
    p.advance();
    Ok(body)
}

fn parse_condblk(p: &mut Parser) -> (r: Result<CondBlock, ParserError>)
    requires
        old(p).wf(),
    ensures
        Parser::moved(old(p), final(p)),
        old(p).pos <= final(p).pos,
        r is Ok ==> old(p).pos < final(p).pos,
        cond_parsed(r, final(p).pos as int) == sp_condblk(old(p).toks(), old(p).pos as int),
    decreases left_to_take(p), 40int,
{
    let cond = match parse_expr(p) {
        Ok(e) => e,
        Err(e) => {
            return Err(e);
        },
    };
    let body = match parse_block(p) {
        Ok(b) => b,
        Err(e) => {
            return Err(e);
        },
    };
    Ok(CondBlock { cond, body })
}

fn parse_if(p: &mut Parser) -> (r: Result<Stmt, ParserError>)
    requires
        old(p).wf(),
    ensures
        Parser::moved(old(p), final(p)),
        old(p).pos <= final(p).pos,
        r is Ok ==> old(p).pos < final(p).pos,
        stmt_parsed(r, final(p).pos as int) == sp_if(old(p).toks(), old(p).pos as int),
    decreases left_to_take(p), 50int,
{
    let ghost t = p.toks();
    let ghost start = p.pos as int;
    let mut branches: Vec<CondBlock> = Vec::new();
    let mut else_body: Option<Block> = None;
    match parse_condblk(p) {
        Ok(b) => {
            proof {
                lemma_branches_view_push(branches@, b);
            }
            branches.push(b);
        },
        Err(e) => {
            return Err(e);
        },
    }
    assert(branches_view(Seq::<CondBlock>::empty()) =~= Seq::<CondView>::empty());
    let ghost goal = sp_elifs(t, p.pos as int, branches_view(branches@));
    assert(sp_if(t, start) == (match goal.0 {
        Ok(bs) => if p_peek(t, goal.1) == TokenOf::<Seq<char>>::Else {
            if start <= goal.1 <= t.len() {
                let rb = sp_block(t, p_next(t, goal.1));
                match rb.0 {
                    Ok(body) => (Ok(StmtView::If { branches: bs, else_body: Some(body) }), rb.1),
                    Err(e) => (Err(e), rb.1),
                }
            } else {
                stuck(goal.1)
            }
        } else {
            (Ok(StmtView::If { branches: bs, else_body: None }), goal.1)
        },
        Err(e) => (Err(e), goal.1),
    }));
    while p.at(TokenOf::Elif)
        invariant
            p.wf(),
            p.toks() == t,
            p.tokens@ == old(p).tokens@,
            p.eos_required() == old(p).eos_required(),
            t == old(p).toks(),
            start == old(p).pos,
            start < p.pos,
            goal == sp_elifs(t, p.pos as int, branches_view(branches@)),
            sp_if(t, start) == (match goal.0 {
                Ok(bs) => if p_peek(t, goal.1) == TokenOf::<Seq<char>>::Else {
                    if start <= goal.1 <= t.len() {
                        let rb = sp_block(t, p_next(t, goal.1));
                        match rb.0 {
                            Ok(body) => (Ok(StmtView::If { branches: bs, else_body: Some(body) }), rb.1),
                            Err(e) => (Err(e), rb.1),
                        }
                    } else {
                        stuck(goal.1)
                    }
                } else {
                    (Ok(StmtView::If { branches: bs, else_body: None }), goal.1)
                },
                Err(e) => (Err(e), goal.1),
            }),
        decreases left_to_take(p),
    {
        p.advance();
        match parse_condblk(p) {
            Ok(b) => {
                proof {
                    lemma_branches_view_push(branches@, b);
                }
                branches.push(b);
            },
            Err(e) => {
                return Err(e);
            },
        }
    }
    if p.at(TokenOf::Else) {
        p.advance();
        match parse_block(p) {
            Ok(b) => {
                else_body = Some(b);
            },
            Err(e) => {
                return Err(e);
            },
        }
    }
    Ok(Stmt::If(IfStmt { branches, else_body }))
}

fn parse_fn(p: &mut Parser) -> (r: Result<Stmt, ParserError>)
    requires
        old(p).wf(),
    ensures
        Parser::moved(old(p), final(p)),
        old(p).pos <= final(p).pos,
        r is Ok ==> old(p).pos < final(p).pos,
        stmt_parsed(r, final(p).pos as int) == sp_fn(old(p).toks(), old(p).pos as int),
    decreases left_to_take(p), 50int,
{
    let ghost t = p.toks();
    let ghost start = p.pos as int;
    if let TokenOf::Ident(id) = p.advance() {
        if !p.at(TokenOf::Lparen) {
            return Err(ParserError::ExpectedToken(TokenOf::Lparen));
        }
        p.advance();
        let ghost goal = sp_params(t, p.pos as int, Seq::empty());
        let mut args: Vec<String> = Vec::new();
        assert(names_view(args@) =~= Seq::<Seq<char>>::empty());
        while !p.at(TokenOf::Rparen)
            invariant
                p.wf(),
                p.toks() == t,
                p.tokens@ == old(p).tokens@,
                p.eos_required() == old(p).eos_required(),
                t == old(p).toks(),
                start == old(p).pos,
                start < p.pos,
                goal == sp_params(t, p.pos as int, names_view(args@)),
                sp_fn(t, start) == (match goal.0 {
                    Ok(a) => if start < goal.1 <= t.len() {
                        let rb = sp_block(t, p_next(t, goal.1));
                        match rb.0 {
                            Ok(body) => (Ok(StmtView::FnDecl { name: id@, args: a, body }), rb.1),
                            Err(e) => (Err(e), rb.1),
                        }
                    } else {
                        stuck(goal.1)
                    },
                    Err(e) => (Err(e), goal.1),
                }),
            decreases left_to_take(p),
        {
            if let TokenOf::Ident(arg) = p.peek() {
                let ghost av = names_view(args@);
                args.push(arg);
                assert(names_view(args@) =~= av.push(arg@));
                p.advance();
            } else {
                return Err(ParserError::ExpectedIdent);
            }
            if p.at(TokenOf::Comma) {
                p.advance();
            }
        }
        p.advance();
        let body = match parse_block(p) {
            Ok(b) => b,
            Err(e) => {
                return Err(e);
            },
        };
        Ok(Stmt::FnDecl(FnDeclStmt { name: id, args, body }))
    } else {
        Err(ParserError::ExpectedIdent)
    }
}

fn parse_while(p: &mut Parser) -> (r: Result<Stmt, ParserError>)
    requires
        old(p).wf(),
    ensures
        Parser::moved(old(p), final(p)),
        old(p).pos <= final(p).pos,
        r is Ok ==> old(p).pos < final(p).pos,
        stmt_parsed(r, final(p).pos as int) == sp_while(old(p).toks(), old(p).pos as int),
    decreases left_to_take(p), 50int,
{
    match parse_condblk(p) {
        Ok(block) => Ok(Stmt::While(WhileStmt { block })),
        Err(e) => Err(e),
    }
}

/// `EXPR ;`
fn parse_expr_eos(p: &mut Parser) -> (r: Result<crate::ast::Expr, ParserError>)
    requires
        old(p).wf(),
    ensures
        Parser::moved(old(p), final(p)),
        old(p).pos <= final(p).pos,
        r is Ok ==> old(p).pos < final(p).pos,
        expr_parsed(r, final(p).pos as int) == sp_expr_then_eos(old(p).toks(), old(p).pos as int),
{
    let expr = match parse_expr(p) {
        Ok(e) => e,
        Err(e) => {
            return Err(e);
        },
    };
    match p.expect(TokenOf::Eos) {
        Ok(_) => Ok(expr),
        Err(e) => Err(e),
    }
}

pub fn parse_stmt(p: &mut Parser) -> (r: Result<Stmt, ParserError>)
    requires
        old(p).wf(),
    ensures
        Parser::moved(old(p), final(p)),
        old(p).pos <= final(p).pos,
        r is Ok ==> old(p).pos < final(p).pos,
        stmt_parsed(r, final(p).pos as int) == sp_stmt(old(p).toks(), old(p).pos as int),
    decreases left_to_take(p), 60int,
{
    let pk = p.peek();
    let assign_next = match &pk {
        TokenOf::Ident(_) => p.peek_n(1).same(&TokenOf::Assign),
        _ => false,
    };
    if p.at(TokenOf::Let) {
        p.advance();
        if let TokenOf::Ident(id) = p.advance() {
            if p.at(TokenOf::Assign) {
                p.advance();
            } else {
                return Err(ParserError::ExpectedToken(TokenOf::Assign));
            }
            let expr = match parse_expr_eos(p) {
                Ok(e) => e,
                Err(e) => {
                    return Err(e);
                },
            };
            Ok(Stmt::Let(LetStmt { name: id, expr }))
        } else {
            Err(ParserError::ExpectedIdent)
        }
    } else if assign_next {
        let id = match pk {
            TokenOf::Ident(id) => id,
            _ => String::new(),
        };
        p.advance_n(2);
        let expr = match parse_expr_eos(p) {
            Ok(e) => e,
            Err(e) => {
                return Err(e);
            },
        };
        Ok(Stmt::Assign(AssignStmt { name: id, expr }))
    } else if p.at(TokenOf::Ret) {
        p.advance();
        let expr = match parse_expr_eos(p) {
            Ok(e) => e,
            Err(e) => {
                return Err(e);
            },
        };
        Ok(Stmt::Ret(RetStmt { expr }))
    } else if p.at(TokenOf::If) {
        p.advance();
        parse_if(p)
    } else if p.at(TokenOf::Fn) {
        p.advance();
        parse_fn(p)
    } else if p.at(TokenOf::While) {
        p.advance();
        parse_while(p)
    } else {
        let expr = match parse_expr_eos(p) {
            Ok(e) => e,
            Err(e) => {
                return Err(e);
            },
        };
        Ok(Stmt::Expr(ExprStmt { expr }))
    }
}

} // verus!
