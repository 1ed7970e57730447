use vstd::prelude::*;

use crate::ast::{
    exprs_view, p_expect, p_next, p_peek, Expr, ExprView, Parsed, Parser, ParserError,
    ParserErrorView, Token, TokenOf, TokenView, Value, ValueView,
};

verus! {

pub type ResultExpr = Result<Expr, ParserError>;

/// The view of an expression parse: its result and where the parser stands.
pub open spec fn expr_parsed(r: ResultExpr, pos: int) -> Parsed<ExprView> {
    (
        match r {
            Ok(e) => Ok(e@),
            Err(x) => Err(x@),
        },
        pos,
    )
}

/// The result of a spec parse that cannot happen (a position out of range).
pub open spec fn stuck<T>(pos: int) -> Parsed<T> {
    (Err(ParserErrorView::UnexpectedToken { expected: None, got: TokenOf::Eof }), pos)
}

// ---------------------------------------------------------------------------
// The expression grammar, from the loosest binding level to the tightest:
//   level 0 `||`, 1 `&&`, 2 `|`, 3 `&` (the level meant for `^` reads `&`),
//   4 `&`, 5 `==` `!=`, 6 `>` `<` `>=` `<=`, 7 `<<` `>>`, 8 `-` `+`,
//   9 `*` `/` `%`, then prefix operators `!` `+` `-` `~`, then `**` (one, not
//   chained), then primaries: parenthesised expressions, calls, identifiers,
//   literals and array literals, each followed by any number of `[index]`.
// Every binary level associates to the left.
// ---------------------------------------------------------------------------

/// The operators of a binary level.
pub open spec fn level_op(lvl: int, k: TokenView) -> bool {
    if lvl == 0 {
        k == TokenOf::<Seq<char>>::Logor
    } else if lvl == 1 {
        k == TokenOf::<Seq<char>>::Logand
    } else if lvl == 2 {
        k == TokenOf::<Seq<char>>::Bitor
    } else if lvl == 3 || lvl == 4 {
        k == TokenOf::<Seq<char>>::Bitand
    } else if lvl == 5 {
        k == TokenOf::<Seq<char>>::Eq || k == TokenOf::<Seq<char>>::Neq
    } else if lvl == 6 {
        k == TokenOf::<Seq<char>>::Gt || k == TokenOf::<Seq<char>>::Lt || k
            == TokenOf::<Seq<char>>::Ge || k == TokenOf::<Seq<char>>::Le
    } else if lvl == 7 {
        k == TokenOf::<Seq<char>>::Shl || k == TokenOf::<Seq<char>>::Shr
    } else if lvl == 8 {
        k == TokenOf::<Seq<char>>::Min || k == TokenOf::<Seq<char>>::Add
    } else {
        k == TokenOf::<Seq<char>>::Mul || k == TokenOf::<Seq<char>>::Div || k
            == TokenOf::<Seq<char>>::Mod
    }
}

pub open spec fn prefix_op(k: TokenView) -> bool {
    k == TokenOf::<Seq<char>>::Not || k == TokenOf::<Seq<char>>::Add || k == TokenOf::<Seq<char>>::Min
        || k == TokenOf::<Seq<char>>::Bnot
}

pub open spec fn sp_expr(t: Seq<TokenView>, pos: int) -> Parsed<ExprView>
    decreases t.len() + 1 - pos, 100int,
{
    if 0 <= pos <= t.len() {
        sp_level(t, pos, 0)
    } else {
        stuck(pos)
    }
}

pub open spec fn sp_level(t: Seq<TokenView>, pos: int, lvl: int) -> Parsed<ExprView>
    decreases t.len() + 1 - pos, 90 - 2 * lvl,
{
    if !(0 <= pos <= t.len() && 0 <= lvl <= 9) {
        stuck(pos)
    } else {
        let r = if lvl < 9 {
            sp_level(t, pos, lvl + 1)
        } else {
            sp_unary(t, pos)
        };
        match r.0 {
            Ok(left) => if pos <= r.1 <= t.len() {
                sp_level_rest(t, r.1, lvl, left)
            } else {
                stuck(r.1)
            },
            Err(e) => (Err(e), r.1),
        }
    }
}

pub open spec fn sp_level_rest(t: Seq<TokenView>, pos: int, lvl: int, left: ExprView) -> Parsed<
    ExprView,
>
    decreases t.len() + 1 - pos, 89 - 2 * lvl,
{
    if !(0 <= pos <= t.len() && 0 <= lvl <= 9) {
        stuck(pos)
    } else if level_op(lvl, p_peek(t, pos)) {
        let op = p_peek(t, pos);
        let p1 = p_next(t, pos);
        let r = if lvl < 9 {
            sp_level(t, p1, lvl + 1)
        } else {
            sp_unary(t, p1)
        };
        match r.0 {
            Ok(right) => if pos < r.1 <= t.len() {
                sp_level_rest(
                    t,
                    r.1,
                    lvl,
                    ExprView::Binary { op, left: Box::new(left), right: Box::new(right) },
                )
            } else {
                stuck(r.1)
            },
            Err(e) => (Err(e), r.1),
        }
    } else {
        (Ok(left), pos)
    }
}

pub open spec fn sp_unary(t: Seq<TokenView>, pos: int) -> Parsed<ExprView>
    decreases t.len() + 1 - pos, 50int,
{
    if !(0 <= pos <= t.len()) {
        stuck(pos)
    } else if prefix_op(p_peek(t, pos)) {
        let op = p_peek(t, pos);
        let r = sp_unary(t, p_next(t, pos));
        match r.0 {
            Ok(arg) => (Ok(ExprView::Unary { op, arg: Box::new(arg) }), r.1),
            Err(e) => (Err(e), r.1),
        }
    } else {
        sp_power(t, pos)
    }
}

pub open spec fn sp_power(t: Seq<TokenView>, pos: int) -> Parsed<ExprView>
    decreases t.len() + 1 - pos, 40int,
{
    if !(0 <= pos <= t.len()) {
        stuck(pos)
    } else {
        let r = sp_primary(t, pos);
        match r.0 {
            Ok(left) => if p_peek(t, r.1) == TokenOf::<Seq<char>>::Pwr {
                if pos <= r.1 <= t.len() {
                    let r2 = sp_primary(t, p_next(t, r.1));
                    match r2.0 {
                        Ok(right) => (
                            Ok(
                                ExprView::Binary {
                                    op: TokenOf::Pwr,
                                    left: Box::new(left),
                                    right: Box::new(right),
                                },
                            ),
                            r2.1,
                        ),
                        Err(e) => (Err(e), r2.1),
                    }
                } else {
                    stuck(r.1)
                }
            } else {
                (Ok(left), r.1)
            },
            Err(e) => (Err(e), r.1),
        }
    }
}

pub open spec fn sp_primary(t: Seq<TokenView>, pos: int) -> Parsed<ExprView>
    decreases t.len() + 1 - pos, 30int,
{
    if !(0 <= pos <= t.len()) {
        stuck(pos)
    } else if p_peek(t, pos) == TokenOf::<Seq<char>>::Lparen {
        let r = sp_expr(t, p_next(t, pos));
        let e = p_expect(t, r.1, TokenOf::Rparen);
        match e.0 {
            Err(x) => (Err(x), e.1),
            Ok(_) => (r.0, e.1),
        }
    } else if p_peek(t, pos) is Ident {
        let id = p_peek(t, pos)->Ident_0;
        let p1 = p_next(t, pos);
        if p_peek(t, p1) == TokenOf::<Seq<char>>::Lparen {
            let ra = sp_args(t, p_next(t, p1), Seq::empty());
            match ra.0 {
                Ok(args) => if pos < ra.1 <= t.len() {
                    sp_index_rest(t, p_next(t, ra.1), ExprView::Call { ident: id, args })
                } else {
                    stuck(ra.1)
                },
                Err(e) => (Err(e), ra.1),
            }
        } else {
            sp_index_rest(t, p1, ExprView::Ident { ident: id })
        }
    } else {
        let r = sp_literal(t, pos);
        match r.0 {
            Ok(base) => if pos <= r.1 <= t.len() {
                sp_index_rest(t, r.1, base)
            } else {
                stuck(r.1)
            },
            Err(e) => (Err(e), r.1),
        }
    }
}

/// The arguments of a call, up to the closing parenthesis (which is not taken).
pub open spec fn sp_args(t: Seq<TokenView>, pos: int, acc: Seq<ExprView>) -> Parsed<Seq<ExprView>>
    decreases t.len() + 1 - pos, 110int,
{
    if !(0 <= pos <= t.len()) {
        stuck(pos)
    } else if p_peek(t, pos) != TokenOf::<Seq<char>>::Rparen {
        let r = sp_expr(t, pos);
        match r.0 {
            Ok(a) => {
                let p2 = if p_peek(t, r.1) == TokenOf::<Seq<char>>::Comma {
                    p_next(t, r.1)
                } else {
                    r.1
                };
                if pos < p2 <= t.len() {
                    sp_args(t, p2, acc.push(a))
                } else {
                    stuck(p2)
                }
            },
            Err(e) => (Err(e), r.1),
        }
    } else {
        (Ok(acc), pos)
    }
}

/// Any number of `[index]` after a primary.
pub open spec fn sp_index_rest(t: Seq<TokenView>, pos: int, base: ExprView) -> Parsed<ExprView>
    decreases t.len() + 1 - pos, 28int,
{
    if !(0 <= pos <= t.len()) {
        stuck(pos)
    } else if p_peek(t, pos) == TokenOf::<Seq<char>>::Lbrack {
        let r = sp_expr(t, p_next(t, pos));
        match r.0 {
            Ok(idx) => {
                let e = p_expect(t, r.1, TokenOf::Rbrack);
                match e.0 {
                    Err(x) => (Err(x), e.1),
                    Ok(_) => if pos < e.1 <= t.len() {
                        sp_index_rest(
                            t,
                            e.1,
                            ExprView::Index { expr: Box::new(base), idx: Box::new(idx) },
                        )
                    } else {
                        stuck(e.1)
                    },
                }
            },
            Err(x) => (Err(x), r.1),
        }
    } else {
        (Ok(base), pos)
    }
}

pub open spec fn sp_literal(t: Seq<TokenView>, pos: int) -> Parsed<ExprView>
    decreases t.len() + 1 - pos, 20int,
{
    if !(0 <= pos <= t.len()) {
        stuck(pos)
    } else if p_peek(t, pos) == TokenOf::<Seq<char>>::Lbrace {
        sp_aliteral(t, pos)
    } else {
        match p_peek(t, pos) {
            TokenOf::Int(i) => (Ok(ExprView::Literal { val: ValueView::Int(i) }), p_next(t, pos)),
            TokenOf::Float(f) => (Ok(ExprView::Literal { val: ValueView::Float(f) }), p_next(t, pos)),
            TokenOf::String(s) => (Ok(ExprView::Literal { val: ValueView::Str(s) }), p_next(t, pos)),
            TokenOf::Bool(b) => (Ok(ExprView::Literal { val: ValueView::Bool(b) }), p_next(t, pos)),
            tk => (Err(ParserErrorView::UnexpectedToken { expected: None, got: tk }), pos),
        }
    }
}

pub open spec fn sp_aliteral(t: Seq<TokenView>, pos: int) -> Parsed<ExprView>
    decreases t.len() + 1 - pos, 10int,
{
    if !(0 <= pos <= t.len()) {
        stuck(pos)
    } else {
        let e = p_expect(t, pos, TokenOf::Lbrace);
        match e.0 {
            Err(x) => (Err(x), e.1),
            Ok(_) => {
                let r = sp_members(t, e.1, Seq::empty());
                match r.0 {
                    Ok(ms) => (Ok(ExprView::ArrayLiteral { members: ms }), p_next(t, r.1)),
                    Err(x) => (Err(x), r.1),
                }
            },
        }
    }
}

/// The members of an array literal, up to the closing brace (which is not taken).
pub open spec fn sp_members(t: Seq<TokenView>, pos: int, acc: Seq<ExprView>) -> Parsed<
    Seq<ExprView>,
>
    decreases t.len() + 1 - pos, 110int,
{
    if !(0 <= pos <= t.len()) {
        stuck(pos)
    } else if p_peek(t, pos) != TokenOf::<Seq<char>>::Rbrace {
        let r = sp_expr(t, pos);
        match r.0 {
            Ok(a) => {
                let p2 = if p_peek(t, r.1) == TokenOf::<Seq<char>>::Comma {
                    p_next(t, r.1)
                } else {
                    r.1
                };
                if pos < p2 <= t.len() {
                    sp_members(t, p2, acc.push(a))
                } else {
                    stuck(p2)
                }
            },
            Err(e) => (Err(e), r.1),
        }
    } else {
        (Ok(acc), pos)
    }
}

} // verus!

verus! {

pub proof fn lemma_exprs_view_push(es: Seq<Expr>, e: Expr)
    ensures
        exprs_view(es.push(e)) == exprs_view(es).push(e@),
{
    assert(es.push(e).subrange(0, es.len() as int) =~= es);
}

pub proof fn lemma_exprs_view_len(es: Seq<Expr>)
    ensures
        exprs_view(es).len() == es.len(),
    decreases es.len(),
{
    if es.len() > 0 {
        lemma_exprs_view_len(es.subrange(0, es.len() - 1));
    }
}

fn level_op_exec(lvl: u8, k: &Token) -> (r: bool)
    ensures
        r == level_op(lvl as int, k@),
{
    if lvl == 0 {
        matches!(k, TokenOf::Logor)
    } else if lvl == 1 {
        matches!(k, TokenOf::Logand)
    } else if lvl == 2 {
        matches!(k, TokenOf::Bitor)
    } else if lvl == 3 || lvl == 4 {
        matches!(k, TokenOf::Bitand)
    } else if lvl == 5 {
        matches!(k, TokenOf::Eq | TokenOf::Neq)
    } else if lvl == 6 {
        matches!(k, TokenOf::Gt | TokenOf::Lt | TokenOf::Ge | TokenOf::Le)
    } else if lvl == 7 {
        matches!(k, TokenOf::Shl | TokenOf::Shr)
    } else if lvl == 8 {
        matches!(k, TokenOf::Min | TokenOf::Add)
    } else {
        matches!(k, TokenOf::Mul | TokenOf::Div | TokenOf::Mod)
    }
}

/// The measure by which parsing terminates: tokens left to take.
pub open spec fn left_to_take(p: &Parser) -> int {
    p.tokens@.len() + 1 - p.pos
}

pub fn parse_expr(p: &mut Parser) -> (r: ResultExpr)
    requires
        old(p).wf(),
    ensures
        Parser::moved(old(p), final(p)),
        old(p).pos <= final(p).pos,
        r is Ok ==> old(p).pos < final(p).pos,
        expr_parsed(r, final(p).pos as int) == sp_expr(old(p).toks(), old(p).pos as int),
    decreases left_to_take(p), 100int,
{
    parse_logor(p)
}

fn parse_logor(p: &mut Parser) -> (r: ResultExpr)
    requires
        old(p).wf(),
    ensures
        Parser::moved(old(p), final(p)),
        old(p).pos <= final(p).pos,
        r is Ok ==> old(p).pos < final(p).pos,
        expr_parsed(r, final(p).pos as int) == sp_level(old(p).toks(), old(p).pos as int, 0),
    decreases left_to_take(p), 90int,
{
    parse_binary(p, 0)
}

fn parse_logand(p: &mut Parser) -> (r: ResultExpr)
    requires
        old(p).wf(),
    ensures
        Parser::moved(old(p), final(p)),
        old(p).pos <= final(p).pos,
        r is Ok ==> old(p).pos < final(p).pos,
        expr_parsed(r, final(p).pos as int) == sp_level(old(p).toks(), old(p).pos as int, 1),
    decreases left_to_take(p), 87int,
{
    parse_binary(p, 1)
}

fn parse_bitor(p: &mut Parser) -> (r: ResultExpr)
    requires
        old(p).wf(),
    ensures
        Parser::moved(old(p), final(p)),
        old(p).pos <= final(p).pos,
        r is Ok ==> old(p).pos < final(p).pos,
        expr_parsed(r, final(p).pos as int) == sp_level(old(p).toks(), old(p).pos as int, 2),
    decreases left_to_take(p), 84int,
{
    parse_binary(p, 2)
}

/// The level meant for `^`; its loop reads `&`, which the next level has taken.
fn parse_bitxor(p: &mut Parser) -> (r: ResultExpr)
    requires
        old(p).wf(),
    ensures
        Parser::moved(old(p), final(p)),
        old(p).pos <= final(p).pos,
        r is Ok ==> old(p).pos < final(p).pos,
        expr_parsed(r, final(p).pos as int) == sp_level(old(p).toks(), old(p).pos as int, 3),
    decreases left_to_take(p), 81int,
{
    parse_binary(p, 3)
}

fn parse_bitand(p: &mut Parser) -> (r: ResultExpr)
    requires
        old(p).wf(),
    ensures
        Parser::moved(old(p), final(p)),
        old(p).pos <= final(p).pos,
        r is Ok ==> old(p).pos < final(p).pos,
        expr_parsed(r, final(p).pos as int) == sp_level(old(p).toks(), old(p).pos as int, 4),
    decreases left_to_take(p), 78int,
{
    parse_binary(p, 4)
}

fn parse_equ(p: &mut Parser) -> (r: ResultExpr)
    requires
        old(p).wf(),
    ensures
        Parser::moved(old(p), final(p)),
        old(p).pos <= final(p).pos,
        r is Ok ==> old(p).pos < final(p).pos,
        expr_parsed(r, final(p).pos as int) == sp_level(old(p).toks(), old(p).pos as int, 5),
    decreases left_to_take(p), 75int,
{
    parse_binary(p, 5)
}

fn parse_comp(p: &mut Parser) -> (r: ResultExpr)
    requires
        old(p).wf(),
    ensures
        Parser::moved(old(p), final(p)),
        old(p).pos <= final(p).pos,
        r is Ok ==> old(p).pos < final(p).pos,
        expr_parsed(r, final(p).pos as int) == sp_level(old(p).toks(), old(p).pos as int, 6),
    decreases left_to_take(p), 72int,
{
    parse_binary(p, 6)
}

fn parse_shift(p: &mut Parser) -> (r: ResultExpr)
    requires
        old(p).wf(),
    ensures
        Parser::moved(old(p), final(p)),
        old(p).pos <= final(p).pos,
        r is Ok ==> old(p).pos < final(p).pos,
        expr_parsed(r, final(p).pos as int) == sp_level(old(p).toks(), old(p).pos as int, 7),
    decreases left_to_take(p), 69int,
{
    parse_binary(p, 7)
}

fn parse_add(p: &mut Parser) -> (r: ResultExpr)
    requires
        old(p).wf(),
    ensures
        Parser::moved(old(p), final(p)),
        old(p).pos <= final(p).pos,
        r is Ok ==> old(p).pos < final(p).pos,
        expr_parsed(r, final(p).pos as int) == sp_level(old(p).toks(), old(p).pos as int, 8),
    decreases left_to_take(p), 66int,
{
    parse_binary(p, 8)
}

fn parse_term(p: &mut Parser) -> (r: ResultExpr)
    requires
        old(p).wf(),
    ensures
        Parser::moved(old(p), final(p)),
        old(p).pos <= final(p).pos,
        r is Ok ==> old(p).pos < final(p).pos,
        expr_parsed(r, final(p).pos as int) == sp_level(old(p).toks(), old(p).pos as int, 9),
    decreases left_to_take(p), 63int,
{
    parse_binary(p, 9)
}

/// The operand of binary level `lvl`: the next level, or a prefixed expression.
fn parse_operand(p: &mut Parser, lvl: u8) -> (r: ResultExpr)
    requires
        old(p).wf(),
        lvl <= 9,
    ensures
        Parser::moved(old(p), final(p)),
        old(p).pos <= final(p).pos,
        r is Ok ==> old(p).pos < final(p).pos,
        expr_parsed(r, final(p).pos as int) == (if lvl < 9 {
            sp_level(old(p).toks(), old(p).pos as int, lvl + 1)
        } else {
            sp_unary(old(p).toks(), old(p).pos as int)
        }),
    decreases left_to_take(p), 88 - 3 * lvl,
{
    if lvl == 0 {
        parse_logand(p)
    } else if lvl == 1 {
        parse_bitor(p)
    } else if lvl == 2 {
        parse_bitxor(p)
    } else if lvl == 3 {
        parse_bitand(p)
    } else if lvl == 4 {
        parse_equ(p)
    } else if lvl == 5 {
        parse_comp(p)
    } else if lvl == 6 {
        parse_shift(p)
    } else if lvl == 7 {
        parse_add(p)
    } else if lvl == 8 {
        parse_term(p)
    } else {
        parse_unary(p)
    }
}

/// A binary level: operands joined by the level's operators, to the left.
fn parse_binary(p: &mut Parser, lvl: u8) -> (r: ResultExpr)
    requires
        old(p).wf(),
        lvl <= 9,
    ensures
        Parser::moved(old(p), final(p)),
        old(p).pos <= final(p).pos,
        r is Ok ==> old(p).pos < final(p).pos,
        expr_parsed(r, final(p).pos as int) == sp_level(old(p).toks(), old(p).pos as int, lvl as int),
    decreases left_to_take(p), 89 - 3 * lvl,
{
    let ghost t = p.toks();
    let ghost start = p.pos as int;
    let ghost goal = sp_level(t, start, lvl as int);
    let mut left = match parse_operand(p, lvl) {
        Ok(e) => e,
        Err(e) => {
            return Err(e);
        },
    };
    assert(goal == sp_level_rest(t, p.pos as int, lvl as int, left@));
    while level_op_exec(lvl, &p.peek())
        invariant
            p.wf(),
            p.toks() == t,
            p.tokens@ == old(p).tokens@,
            p.eos_required() == old(p).eos_required(),
            t == old(p).toks(),
            start == old(p).pos,
            goal == sp_level(old(p).toks(), old(p).pos as int, lvl as int),
            lvl <= 9,
            start < p.pos,
            goal == sp_level_rest(t, p.pos as int, lvl as int, left@),
        decreases left_to_take(p),
    {
        let ghost before = p.pos as int;
        let op = p.advance();
        let right = match parse_operand(p, lvl) {
            Ok(e) => e,
            Err(e) => {
                return Err(e);
            },
        };
        let ghost lv = left@;
        left = Expr::Binary { op, left: Box::new(left), right: Box::new(right) };
        assert(left@ == ExprView::Binary { op: op@, left: Box::new(lv), right: Box::new(right@) });
    }
    Ok(left)
}

pub fn parse_unary(p: &mut Parser) -> (r: ResultExpr)
    requires
        old(p).wf(),
    ensures
        Parser::moved(old(p), final(p)),
        old(p).pos <= final(p).pos,
        r is Ok ==> old(p).pos < final(p).pos,
        expr_parsed(r, final(p).pos as int) == sp_unary(old(p).toks(), old(p).pos as int),
    decreases left_to_take(p), 50int,
{
    if p.at(TokenOf::Not) || p.at(TokenOf::Add) || p.at(TokenOf::Min) || p.at(TokenOf::Bnot) {
        let op = p.advance();
        return match parse_unary(p) {
            Ok(arg) => Ok(Expr::Unary { op, arg: Box::new(arg) }),
            Err(e) => Err(e),
        };
    }
    parse_power(p)
}

fn parse_power(p: &mut Parser) -> (r: ResultExpr)
    requires
        old(p).wf(),
    ensures
        Parser::moved(old(p), final(p)),
        old(p).pos <= final(p).pos,
        r is Ok ==> old(p).pos < final(p).pos,
        expr_parsed(r, final(p).pos as int) == sp_power(old(p).toks(), old(p).pos as int),
    decreases left_to_take(p), 40int,
{
    let mut left = match parse_primary(p) {
        Ok(e) => e,
        Err(e) => {
            return Err(e);
        },
    };
    if p.at(TokenOf::Pwr) {
        let op = p.advance();
        let right = match parse_primary(p) {
            Ok(e) => e,
            Err(e) => {
                return Err(e);
            },
        };
        left = Expr::Binary { op, left: Box::new(left), right: Box::new(right) };
    }
    Ok(left)
}

} // verus!

verus! {

fn parse_primary(p: &mut Parser) -> (r: ResultExpr)
    requires
        old(p).wf(),
    ensures
        Parser::moved(old(p), final(p)),
        old(p).pos <= final(p).pos,
        r is Ok ==> old(p).pos < final(p).pos,
        expr_parsed(r, final(p).pos as int) == sp_primary(old(p).toks(), old(p).pos as int),
    decreases left_to_take(p), 30int,
{
    let ghost t = p.toks();
    let ghost start = p.pos as int;
    if p.at(TokenOf::Lparen) {
        p.advance();
        let expr = parse_expr(p);
        match p.expect(TokenOf::Rparen) {
            Err(e) => {
                return Err(e);
            },
            Ok(_) => {},
        }
        return expr;
    }
    let mut base: Expr;
    let pk = p.peek();
    if let TokenOf::Ident(id) = pk {
        p.advance();
        if p.at(TokenOf::Lparen) {
            p.advance();
            let ghost goal = sp_args(t, p.pos as int, Seq::empty());
            let mut args: Vec<Expr> = Vec::new();
            assert(exprs_view(args@) =~= Seq::<ExprView>::empty());
            while !p.at(TokenOf::Rparen)
                invariant
                    p.wf(),
                    p.toks() == t,
                    p.tokens@ == old(p).tokens@,
                    p.eos_required() == old(p).eos_required(),
                    t == old(p).toks(),
                    start == old(p).pos,
                    start < p.pos,
                    goal == sp_args(t, p.pos as int, exprs_view(args@)),
                    sp_primary(t, start) == (match goal.0 {
                        Ok(a) => if start < goal.1 <= t.len() {
                            sp_index_rest(t, p_next(t, goal.1), ExprView::Call { ident: id@, args: a })
                        } else {
                            stuck(goal.1)
                        },
                        Err(e) => (Err(e), goal.1),
                    }),
                decreases left_to_take(p),
            {
                let ghost before = p.pos as int;
                match parse_expr(p) {
                    Ok(a) => {
                        proof {
                            lemma_exprs_view_push(args@, a);
                        }
                        args.push(a);
                    },
                    Err(e) => {
                        return Err(e);
                    },
                }
                if p.at(TokenOf::Comma) {
                    p.advance();
                }
            }
            let ghost at_close = p.pos as int;
            p.advance();
            base = Expr::Call { ident: id, args };
            assert(sp_primary(t, start) == sp_index_rest(t, p.pos as int, base@));
        } else {
            base = Expr::Ident { ident: id };
        }
    } else {
        base = match parse_literal(p) {
            Ok(e) => e,
            Err(e) => {
                return Err(e);
            },
        };
    }
    let ghost goal = sp_index_rest(t, p.pos as int, base@);
    assert(goal == sp_primary(t, start));
    while p.at(TokenOf::Lbrack)
        invariant
            p.wf(),
            p.toks() == t,
            p.tokens@ == old(p).tokens@,
            p.eos_required() == old(p).eos_required(),
            t == old(p).toks(),
            start == old(p).pos,
            start < p.pos,
            goal == sp_primary(t, start),
            goal == sp_index_rest(t, p.pos as int, base@),
        decreases left_to_take(p),
    {
        p.advance();
        let idx = match parse_expr(p) {
            Ok(e) => e,
            Err(e) => {
                return Err(e);
            },
        };
        match p.expect(TokenOf::Rbrack) {
            Err(e) => {
                return Err(e);
            },
            Ok(_) => {},
        }
        let ghost bv = base@;
        base = Expr::Index { expr: Box::new(base), idx: Box::new(idx) };
        assert(base@ == ExprView::Index { expr: Box::new(bv), idx: Box::new(idx@) });
    }
    Ok(base)
}

fn parse_literal(p: &mut Parser) -> (r: ResultExpr)
    requires
        old(p).wf(),
    ensures
        Parser::moved(old(p), final(p)),
        old(p).pos <= final(p).pos,
        r is Ok ==> old(p).pos < final(p).pos,
        expr_parsed(r, final(p).pos as int) == sp_literal(old(p).toks(), old(p).pos as int),
    decreases left_to_take(p), 20int,
{
    if p.at(TokenOf::Lbrace) {
        return parse_aliteral(p);
    }
    match p.peek() {
        TokenOf::Int(i) => {
            p.advance();
            Ok(Expr::Literal { val: Value::Int(i) })
        },
        TokenOf::Float(f) => {
            p.advance();
            Ok(Expr::Literal { val: Value::Float(f) })
        },
        TokenOf::String(s) => {
            p.advance();
            Ok(Expr::Literal { val: Value::String(s) })
        },
        TokenOf::Bool(b) => {
            p.advance();
            Ok(Expr::Literal { val: Value::Bool(b) })
        },
        other => Err(ParserError::UnexpectedToken { expected: None, got: other }),
    }
}

fn parse_aliteral(p: &mut Parser) -> (r: ResultExpr)
    requires
        old(p).wf(),
    ensures
        Parser::moved(old(p), final(p)),
        old(p).pos <= final(p).pos,
        r is Ok ==> old(p).pos < final(p).pos,
        expr_parsed(r, final(p).pos as int) == sp_aliteral(old(p).toks(), old(p).pos as int),
    decreases left_to_take(p), 10int,
{
    let ghost t = p.toks();
    let ghost start = p.pos as int;
    match p.expect(TokenOf::Lbrace) {
        Err(e) => {
            return Err(e);
        },
        Ok(_) => {},
    }
    let ghost goal = sp_members(t, p.pos as int, Seq::empty());
    let mut mbrs: Vec<Expr> = Vec::new();
    assert(exprs_view(mbrs@) =~= Seq::<ExprView>::empty());
    while !p.at(TokenOf::Rbrace)
        invariant
            p.wf(),
            p.toks() == t,
            p.tokens@ == old(p).tokens@,
            p.eos_required() == old(p).eos_required(),
            t == old(p).toks(),
            start == old(p).pos,
            start < p.pos,
            goal == sp_members(t, p.pos as int, exprs_view(mbrs@)),
            sp_aliteral(t, start) == (match goal.0 {
                Ok(ms) => (Ok(ExprView::ArrayLiteral { members: ms }), p_next(t, goal.1)),
                Err(x) => (Err(x), goal.1),
            }),
        decreases left_to_take(p),
    {
        match parse_expr(p) {
            Ok(a) => {
                proof {
                    lemma_exprs_view_push(mbrs@, a);
                }
                mbrs.push(a);
            },
            Err(e) => {
                return Err(e);
            },
        }
        if p.at(TokenOf::Comma) {
            p.advance();
        }
    }
    p.advance();
    Ok(Expr::ArrayLiteral { members: mbrs })
}

} // verus!
