use vstd::prelude::*;

use crate::ast::{p_next, p_peek, ExprView, ParserErrorView, StmtView, TokenOf};
use crate::ast_stmt::{sp_block, sp_condblk, sp_elifs, sp_if, sp_stmt, sp_stmts, sp_while, CondView};
use crate::ast_expr::{
    level_op, sp_expr, sp_index_rest, sp_level, sp_level_rest, sp_literal, sp_power, sp_primary, sp_unary,
};
use crate::tokenizer::{
    digit_of, digits_end, digits_value, in_base, quote_end, is_word_char, keyword_at, kw_at, lex_from, lex_spec, scan,
    w_elif, w_else, w_false, w_fn, w_if, w_let, w_ret, w_true, w_while, word_end, word_at, ws_end, LexedView,
    ScanView, TokenView,
};
use crate::build_env::builtin_table;
use crate::error::{LexerErrorView, RuntimeErrorView};
use crate::eval::{Builtin, BuiltinFn, EnvView};
use crate::machine::{apply_binary, apply_unary, begin_call, cont, mv, ActionView, Applied, CtrlView, FrameView};
use crate::display::{decimal, digit_char, value_text};
use crate::value::ValueView;

verus! {

// ---------------------------------------------------------------------------
// What the operators and the built-in functions mean, stated through their
// arithmetic and their names rather than through the tables that implement them.
// ---------------------------------------------------------------------------

/// `>>` halves: shifting by 0 keeps an integer, and shifting one place further
/// gives the floor of half the previous result, negative integers included.
pub proof fn law_shift_right_halves(l: i64, r: i64)
    requires
        0 <= r < 63,
    ensures
        apply_binary(TokenOf::Shr, ValueView::Int(l), ValueView::Int(0)) == Applied::Result(
            Ok::<ValueView, RuntimeErrorView>(ValueView::Int(l)),
        ),
        apply_binary(TokenOf::Shr, ValueView::Int(l), ValueView::Int(r)) matches Applied::Result(
            Ok(ValueView::Int(x)),
        ) && apply_binary(TokenOf::Shr, ValueView::Int(l), ValueView::Int((r + 1) as i64)) matches Applied::Result(
            Ok(ValueView::Int(y)),
        ) && 2 * y <= x <= 2 * y + 1,
{
    let ru = r as u32;
    let x = l >> ru;
    let y = l >> ((r + 1) as u32);
    assert(l >> 0u32 == l) by (bit_vector);
    assert(y == x >> 1u32) by (bit_vector)
        requires
            x == l >> ru,
            y == l >> ((ru + 1) as u32),
            ru < 63,
    ;
    assert(2 * (x >> 1u32) <= x && x <= 2 * (x >> 1u32) + 1) by (bit_vector);
}

/// `<<` doubles: shifting by 0 keeps an integer, and shifting one place further
/// doubles the previous result, in 64-bit two's complement.
pub proof fn law_shift_left_doubles(l: i64, r: i64)
    requires
        0 <= r < 63,
    ensures
        apply_binary(TokenOf::Shl, ValueView::Int(l), ValueView::Int(0)) == Applied::Result(
            Ok::<ValueView, RuntimeErrorView>(ValueView::Int(l)),
        ),
        apply_binary(TokenOf::Shl, ValueView::Int(l), ValueView::Int(r)) matches Applied::Result(
            Ok(ValueView::Int(x)),
        ) && apply_binary(TokenOf::Shl, ValueView::Int(l), ValueView::Int((r + 1) as i64)) matches Applied::Result(
            Ok(ValueView::Int(y)),
        ) && y == (2 * x) as i64,
{
    let ru = r as u32;
    let x = l << ru;
    let y = l << ((r + 1) as u32);
    assert(l << 0u32 == l) by (bit_vector);
    assert(y == (2 * x) as i64) by (bit_vector)
        requires
            x == l << ru,
            y == l << ((ru + 1) as u32),
            ru < 63,
    ;
}

/// Integer arithmetic: `+`, `-` and `*` give the mathematical result where it fits
/// in 64 bits and stop the process where it does not; `%` gives the remainder that
/// takes the sign of the dividend, and is an error for a zero divisor.
pub proof fn law_int_arithmetic(x: i64, y: i64)
    ensures
        i64::MIN <= x + y <= i64::MAX ==> apply_binary(TokenOf::Add, ValueView::Int(x), ValueView::Int(y))
            == Applied::Result(Ok::<ValueView, RuntimeErrorView>(ValueView::Int((x + y) as i64))),
        !(i64::MIN <= x + y <= i64::MAX) ==> apply_binary(TokenOf::Add, ValueView::Int(x), ValueView::Int(y))
            is Panic,
        i64::MIN <= x - y <= i64::MAX ==> apply_binary(TokenOf::Min, ValueView::Int(x), ValueView::Int(y))
            == Applied::Result(Ok::<ValueView, RuntimeErrorView>(ValueView::Int((x - y) as i64))),
        !(i64::MIN <= x - y <= i64::MAX) ==> apply_binary(TokenOf::Min, ValueView::Int(x), ValueView::Int(y))
            is Panic,
        i64::MIN <= x * y <= i64::MAX ==> apply_binary(TokenOf::Mul, ValueView::Int(x), ValueView::Int(y))
            == Applied::Result(Ok::<ValueView, RuntimeErrorView>(ValueView::Int((x * y) as i64))),
        !(i64::MIN <= x * y <= i64::MAX) ==> apply_binary(TokenOf::Mul, ValueView::Int(x), ValueView::Int(y))
            is Panic,
        y == 0 ==> apply_binary(TokenOf::Mod, ValueView::Int(x), ValueView::Int(y)) == Applied::Result(
            Err::<ValueView, RuntimeErrorView>(RuntimeErrorView::TypeError("modulo by zero"@)),
        ),
        y != 0 && !(x == i64::MIN && y == -1) ==> (apply_binary(
            TokenOf::Mod,
            ValueView::Int(x),
            ValueView::Int(y),
        ) matches Applied::Result(Ok(ValueView::Int(r))) && (x - r) % (y as int) == 0 && (if y > 0 {
            -y < r < y
        } else {
            y < r < -y
        }) && (x >= 0 ==> r >= 0) && (x <= 0 ==> r <= 0)),
{
    if y != 0 && !(x == i64::MIN && y == -1) {
        let yi = y as int;
        let r = crate::value::trunc_rem(x as int, yi);
        let ay = if y > 0 { yi } else { -yi };
        let n = if x >= 0 { x as int } else { -(x as int) };
        let m = n % yi;
        assert(n == yi * (n / yi) + m) by {
            vstd::arithmetic::div_mod::lemma_fundamental_div_mod(n, yi);
        }
        assert(0 <= m < ay) by (nonlinear_arith)
            requires
                m == n % yi,
                yi != 0,
                ay == if yi > 0 { yi } else { -yi },
        ;
        let q = if x >= 0 { n / yi } else { -(n / yi) };
        assert(x - r == q * yi) by (nonlinear_arith)
            requires
                n == yi * (n / yi) + m,
                x >= 0 ==> (n == x && r == m && q == n / yi),
                x < 0 ==> (n == -x && r == -m && q == -(n / yi)),
        ;
        lemma_multiple_mod(q, yi);
        assert((x - r) % yi == 0);
        assert(x >= 0 ==> r == m);
        assert(x < 0 ==> r == -m);
        assert(i64::MIN < r <= i64::MAX);
        assert(-ay < r < ay);
        assert(x == 0 ==> m == 0) by (nonlinear_arith)
            requires
                n == yi * (n / yi) + m,
                0 <= m < ay,
                ay == if yi > 0 { yi } else { -yi },
                x == 0 ==> n == 0,
        ;
        assert(apply_binary(TokenOf::Mod, ValueView::Int(x), ValueView::Int(y)) == Applied::Result(
            Ok::<ValueView, RuntimeErrorView>(ValueView::Int(r as i64)),
        ));
    }
}

/// A multiple of a nonzero integer leaves no remainder.
proof fn lemma_multiple_mod(q: int, y: int)
    by (nonlinear_arith)
    requires
        y != 0,
    ensures
        (q * y) % y == 0,
{
}

/// Comparisons of integers that are exact as floats (up to 2^53 in magnitude)
/// compare the numbers; `==` and `!=` compare any two integers.
pub proof fn law_int_comparison(x: i64, y: i64)
    ensures
        apply_binary(TokenOf::Eq, ValueView::Int(x), ValueView::Int(y)) == Applied::Result(
            Ok::<ValueView, RuntimeErrorView>(ValueView::Bool(x == y)),
        ),
        apply_binary(TokenOf::Neq, ValueView::Int(x), ValueView::Int(y)) == Applied::Result(
            Ok::<ValueView, RuntimeErrorView>(ValueView::Bool(x != y)),
        ),
        -0x20_0000_0000_0000 <= x <= 0x20_0000_0000_0000 && -0x20_0000_0000_0000 <= y <= 0x20_0000_0000_0000
            ==> {
            &&& apply_binary(TokenOf::Lt, ValueView::Int(x), ValueView::Int(y)) == Applied::Result(
                Ok::<ValueView, RuntimeErrorView>(ValueView::Bool(x < y)),
            )
            &&& apply_binary(TokenOf::Gt, ValueView::Int(x), ValueView::Int(y)) == Applied::Result(
                Ok::<ValueView, RuntimeErrorView>(ValueView::Bool(x > y)),
            )
            &&& apply_binary(TokenOf::Le, ValueView::Int(x), ValueView::Int(y)) == Applied::Result(
                Ok::<ValueView, RuntimeErrorView>(ValueView::Bool(x <= y)),
            )
            &&& apply_binary(TokenOf::Ge, ValueView::Int(x), ValueView::Int(y)) == Applied::Result(
                Ok::<ValueView, RuntimeErrorView>(ValueView::Bool(x >= y)),
            )
        },
{
}

/// `&&` and `||` on booleans are conjunction and disjunction; an integer counts as
/// true where it is not zero.
pub proof fn law_logic_on_booleans(p: bool, q: bool, n: i64)
    ensures
        apply_binary(TokenOf::Logand, ValueView::Bool(p), ValueView::Bool(q)) == Applied::Result(
            Ok::<ValueView, RuntimeErrorView>(ValueView::Bool(p && q)),
        ),
        apply_binary(TokenOf::Logor, ValueView::Bool(p), ValueView::Bool(q)) == Applied::Result(
            Ok::<ValueView, RuntimeErrorView>(ValueView::Bool(p || q)),
        ),
        apply_binary(TokenOf::Logand, ValueView::Int(n), ValueView::Bool(true)) == Applied::Result(
            Ok::<ValueView, RuntimeErrorView>(ValueView::Bool(n != 0)),
        ),
{
}

/// `&`, `|` and `^` on integers are the bitwise and, or and exclusive or of the
/// two integers.
pub proof fn law_bitwise_on_integers(x: i64, y: i64)
    ensures
        apply_binary(TokenOf::Bitand, ValueView::Int(x), ValueView::Int(y)) == Applied::Result(
            Ok::<ValueView, RuntimeErrorView>(ValueView::Int(x & y)),
        ),
        apply_binary(TokenOf::Bitor, ValueView::Int(x), ValueView::Int(y)) == Applied::Result(
            Ok::<ValueView, RuntimeErrorView>(ValueView::Int(x | y)),
        ),
        apply_binary(TokenOf::Bitxor, ValueView::Int(x), ValueView::Int(y)) == Applied::Result(
            Ok::<ValueView, RuntimeErrorView>(ValueView::Int(x ^ y)),
        ),
{
}

/// The prefix operators: `-` negates an integer (stopping the process on the
/// smallest one, whose negation does not fit), `!` negates a boolean and
/// complements an integer bit by bit, as `~` does.
pub proof fn law_prefix_operators(n: i64, b: bool)
    ensures
        n != i64::MIN ==> apply_unary(TokenOf::Add, ValueView::Int(n)) == Applied::Result(
            Ok::<ValueView, RuntimeErrorView>(ValueView::Int((-n) as i64)),
        ),
        apply_unary(TokenOf::Add, ValueView::Int(i64::MIN)) is Panic,
        apply_unary(TokenOf::Not, ValueView::Bool(b)) == Applied::Result(
            Ok::<ValueView, RuntimeErrorView>(ValueView::Bool(!b)),
        ),
        apply_unary(TokenOf::Not, ValueView::Int(n)) == Applied::Result(
            Ok::<ValueView, RuntimeErrorView>(ValueView::Int((-n - 1) as i64)),
        ),
        apply_unary(TokenOf::Bnot, ValueView::Int(n)) == Applied::Result(
            Ok::<ValueView, RuntimeErrorView>(ValueView::Int((-n - 1) as i64)),
        ),
{
}

/// `+` joins two strings, and appends any value to an array.
pub proof fn law_add_joins(s: Seq<char>, t: Seq<char>, a: Seq<ValueView>, v: ValueView)
    ensures
        apply_binary(TokenOf::Add, ValueView::Str(s), ValueView::Str(t)) == Applied::Result(
            Ok::<ValueView, RuntimeErrorView>(ValueView::Str(s + t)),
        ),
        apply_binary(TokenOf::Add, ValueView::Array(a), v) == Applied::Result(
            Ok::<ValueView, RuntimeErrorView>(ValueView::Array(a.push(v))),
        ),
{
}

/// A number, integer or float.
pub open spec fn number(v: ValueView) -> bool {
    v is Int || v is Float
}

/// Arithmetic on two numbers of which one is a float is float work in every
/// position, never a type error, except `+` with a float on the left and an
/// integer on the right, which has no rule and is a type error.
pub proof fn law_float_arithmetic(a: ValueView, b: ValueView)
    requires
        number(a),
        number(b),
        a is Float || b is Float,
    ensures
        apply_binary(TokenOf::Min, a, b) is Float,
        apply_binary(TokenOf::Mul, a, b) is Float,
        apply_binary(TokenOf::Div, a, b) is Float,
        apply_binary(TokenOf::Pwr, a, b) is Float,
        !(a is Float && b is Int) ==> apply_binary(TokenOf::Add, a, b) is Float,
        a is Float && b is Int ==> apply_binary(TokenOf::Add, a, b) == Applied::Result(
            Err::<ValueView, RuntimeErrorView>(RuntimeErrorView::TypeError("Unknown type"@)),
        ),
{
}

/// Division of two integers is float work, except by zero, which is an error.
pub proof fn law_int_division(x: i64, y: i64)
    ensures
        y != 0 ==> apply_binary(TokenOf::Div, ValueView::Int(x), ValueView::Int(y)) is Float,
        y == 0 ==> apply_binary(TokenOf::Div, ValueView::Int(x), ValueView::Int(y)) == Applied::Result(
            Err::<ValueView, RuntimeErrorView>(RuntimeErrorView::TypeError("division by zero"@)),
        ),
{
}

/// The name each built-in function is called by.
pub open spec fn builtin_name(b: Builtin) -> Seq<char> {
    match b {
        Builtin::Print => "print"@,
        Builtin::Println => "println"@,
        Builtin::Input => "input"@,
        Builtin::Syscall => "syscall"@,
        Builtin::Strlen => "strlen"@,
        Builtin::Typeof => "typeof"@,
        Builtin::Platformid => "platformid"@,
        Builtin::Sin => "sin"@,
        Builtin::Cos => "cos"@,
        Builtin::Tan => "tan"@,
        Builtin::Abs => "abs"@,
        Builtin::Sqrt => "sqrt"@,
        Builtin::Log => "log"@,
        Builtin::Log10 => "log10"@,
    }
}

/// How many arguments each built-in function takes (-1: any number).
pub open spec fn builtin_arity(b: Builtin) -> isize {
    match b {
        Builtin::Print | Builtin::Println | Builtin::Syscall => -1isize,
        Builtin::Platformid => 0,
        _ => 1,
    }
}

#[verifier::rlimit(50)]
proof fn lemma_table_entry(b: Builtin)
    ensures
        builtin_table().contains_key(builtin_name(b)),
        builtin_table()[builtin_name(b)] == (BuiltinFn { nargs: builtin_arity(b), fnc: b }),
{
    reveal_strlit("print");
    reveal_strlit("println");
    reveal_strlit("input");
    reveal_strlit("syscall");
    reveal_strlit("strlen");
    reveal_strlit("typeof");
    reveal_strlit("platformid");
    reveal_strlit("sin");
    reveal_strlit("cos");
    reveal_strlit("tan");
    reveal_strlit("abs");
    reveal_strlit("sqrt");
    reveal_strlit("log");
    reveal_strlit("log10");
    let names = seq![
        "print"@, "println"@, "input"@, "syscall"@, "strlen"@, "typeof"@, "platformid"@, "sin"@,
        "cos"@, "tan"@, "abs"@, "sqrt"@, "log"@, "log10"@,
    ];
    assert forall|i: int, j: int| 0 <= i < j < 14 implies names[i] != names[j] by {
        if names[i].len() == names[j].len() {
            assert(names[i][0] != names[j][0]);
        }
    }
}

/// The built-in table names every built-in function by its own name, with its own
/// number of arguments, and holds nothing else: a name calls the function of that
/// name.
pub proof fn law_builtins_by_name()
    ensures
        forall|b: Builtin| #[trigger] builtin_table().contains_key(builtin_name(b)),
        forall|b: Builtin|
            #[trigger] builtin_table()[builtin_name(b)] == (BuiltinFn { nargs: builtin_arity(b), fnc: b }),
        forall|k: Seq<char>|
            #[trigger] builtin_table().contains_key(k) ==> builtin_name(builtin_table()[k].fnc) == k,
{
    assert forall|b: Builtin| #[trigger] builtin_table().contains_key(builtin_name(b)) by {
        lemma_table_entry(b);
    }
    assert forall|b: Builtin| #[trigger] builtin_table()[builtin_name(b)] == (BuiltinFn {
        nargs: builtin_arity(b),
        fnc: b,
    }) by {
        lemma_table_entry(b);
    }
    assert forall|k: Seq<char>| #[trigger] builtin_table().contains_key(k) implies builtin_name(
        builtin_table()[k].fnc,
    ) == k by {
        let b = if k == "print"@ {
            Builtin::Print
        } else if k == "println"@ {
            Builtin::Println
        } else if k == "input"@ {
            Builtin::Input
        } else if k == "syscall"@ {
            Builtin::Syscall
        } else if k == "strlen"@ {
            Builtin::Strlen
        } else if k == "typeof"@ {
            Builtin::Typeof
        } else if k == "platformid"@ {
            Builtin::Platformid
        } else if k == "sin"@ {
            Builtin::Sin
        } else if k == "cos"@ {
            Builtin::Cos
        } else if k == "tan"@ {
            Builtin::Tan
        } else if k == "abs"@ {
            Builtin::Abs
        } else if k == "sqrt"@ {
            Builtin::Sqrt
        } else if k == "log"@ {
            Builtin::Log
        } else {
            Builtin::Log10
        };
        assert(k == builtin_name(b));
        lemma_table_entry(b);
    }
}

/// A call by name in the built-in table: with as many arguments as the function
/// takes, each built-in function other than `strlen` and `typeof` is handed to
/// the caller to run, under its own name's function and with the arguments as
/// given, the machine waiting for the answer; with another number of arguments
/// the call is an error that names both numbers.  A name that is neither built
/// in nor declared is an unknown function.
pub proof fn law_builtin_calls(env: EnvView, stack: Seq<FrameView>, b: Builtin, args: Seq<ValueView>, name: Seq<char>)
    requires
        env.bfns == builtin_table(),
    ensures
        (builtin_arity(b) == -1 || args.len() == builtin_arity(b)) && b != Builtin::Strlen && b != Builtin::Typeof
            ==> begin_call(env, stack, builtin_name(b), args) == (
            mv(env, CtrlView::Wait, stack),
            ActionView::Builtin { func: b, args },
        ),
        builtin_arity(b) != -1 && args.len() != builtin_arity(b) ==> begin_call(env, stack, builtin_name(b), args)
            == cont(
            mv(
                env,
                CtrlView::Raise(
                    RuntimeErrorView::WrongArgCount { expected: builtin_arity(b) as usize, got: args.len() as usize },
                ),
                stack,
            ),
        ),
        !builtin_table().contains_key(name) && !env.ufns.contains_key(name) ==> begin_call(env, stack, name, args)
            == cont(mv(env, CtrlView::Raise(RuntimeErrorView::UnknownFunction(name)), stack)),
{
    lemma_table_entry(b);
    if builtin_arity(b) != -1 && args.len() != builtin_arity(b) {
        assert(builtin_arity(b) == 0 || builtin_arity(b) == 1);
        assert((builtin_arity(b) as usize) as int == builtin_arity(b));
    }
}

/// The kind of a value, as a number.
pub open spec fn kind(v: ValueView) -> int {
    match v {
        ValueView::Int(_) => 0,
        ValueView::Float(_) => 1,
        ValueView::Str(_) => 2,
        ValueView::Bool(_) => 3,
        ValueView::Array(_) => 4,
    }
}

/// Called by their names in the built-in table, `strlen` answers the number of
/// characters of an ASCII string and 0 for a value that is no string, and
/// `typeof` answers a string that tells values of different kinds apart; both
/// answer at once, the variables and the stack as they were.
pub proof fn law_strlen_and_typeof(env: EnvView, stack: Seq<FrameView>, v: ValueView, w: ValueView)
    requires
        env.bfns == builtin_table(),
    ensures
        v matches ValueView::Str(t) ==> (vstd::utf8::is_ascii_chars(t) && t.len() <= isize::MAX ==> begin_call(
            env,
            stack,
            "strlen"@,
            seq![v],
        ) == cont(mv(env, CtrlView::Val(ValueView::Int(t.len() as i64)), stack))),
        !(v is Str) ==> begin_call(env, stack, "strlen"@, seq![v]) == cont(
            mv(env, CtrlView::Val(ValueView::Int(0)), stack),
        ),
        begin_call(env, stack, "typeof"@, seq![v]).0.ctrl matches CtrlView::Val(ValueView::Str(a))
            && begin_call(env, stack, "typeof"@, seq![w]).0.ctrl matches CtrlView::Val(ValueView::Str(b))
            && (kind(v) != kind(w) ==> a != b),
{
    lemma_table_entry(Builtin::Strlen);
    lemma_table_entry(Builtin::Typeof);
    if let ValueView::Str(t) = v {
        if vstd::utf8::is_ascii_chars(t) {
            vstd::utf8::is_ascii_chars_encode_utf8(t);
            assert(vstd::utf8::encode_utf8(t).len() == t.len());
        }
    }
    reveal_strlit("int");
    reveal_strlit("float");
    reveal_strlit("string");
    reveal_strlit("bool");
    reveal_strlit("array");
    let names = seq!["int"@, "float"@, "string"@, "bool"@, "array"@];
    assert forall|i: int, j: int| 0 <= i < j < 5 implies names[i] != names[j] by {
        if names[i].len() == names[j].len() {
            assert(names[i][0] != names[j][0]);
        }
    }
}

/// An ASCII letter, either case.
pub open spec fn ascii_letter(c: char) -> bool {
    ('a' <= c && c <= 'z') || ('A' <= c && c <= 'Z')
}

/// The words of the language that are no identifiers.
pub open spec fn reserved(w: Seq<char>) -> bool {
    w == seq!['f', 'n'] || w == seq!['r', 'e', 't'] || w == seq!['i', 'f'] || w == seq!['e', 'l', 'i', 'f']
        || w == seq!['e', 'l', 's', 'e'] || w == seq!['l', 'e', 't'] || w == seq!['t', 'r', 'u', 'e'] || w
        == seq!['f', 'a', 'l', 's', 'e'] || w == seq!['w', 'h', 'i', 'l', 'e']
}

/// An identifier: a letter (either case) or `_`, then letters, digits and `_`,
/// and no reserved word.
pub open spec fn identifier(w: Seq<char>) -> bool {
    &&& w.len() > 0
    &&& (ascii_letter(w[0]) || w[0] == '_')
    &&& forall|i: int| 0 <= i < w.len() ==> ascii_letter(#[trigger] w[i]) || ('0' <= w[i] && w[i] <= '9') || w[i] == '_'
    &&& !reserved(w)
}

proof fn lemma_word_end_at(s: Seq<char>, i: int, e: int)
    requires
        0 <= i <= e < s.len(),
        forall|j: int| i <= j < e ==> is_word_char(#[trigger] s[j]),
        !is_word_char(s[e]),
    ensures
        word_end(s, i) == e,
    decreases e - i,
{
    if i < e {
        lemma_word_end_at(s, i + 1, e);
    }
}

/// No reserved word stands at the start of an identifier followed by `;`.
proof fn lemma_no_keyword(w: Seq<char>, k: Seq<char>)
    requires
        identifier(w),
        reserved(k),
    ensures
        !kw_at(w + seq![';'], 0, k),
{
    let s = w + seq![';'];
    if kw_at(s, 0, k) {
        assert(forall|j: int| 0 <= j < k.len() ==> ascii_letter(#[trigger] k[j]));
        if k.len() < w.len() {
            assert(is_word_char(s[k.len() as int]));
        } else if k.len() == w.len() {
            assert(s.subrange(0, k.len() as int) =~= w);
        } else {
            assert(s.subrange(0, k.len() as int)[w.len() as int] == ';');
        }
    }
}

/// A text of one identifier and `;` lexes to that identifier, the statement end
/// and `Eof`: every ASCII letter, upper case included, starts and continues an
/// identifier.
pub proof fn law_identifier_lexes(w: Seq<char>)
    requires
        identifier(w),
    ensures
        lex_spec(w + seq![';']) == LexedView::Tokens(seq![TokenOf::Ident(w), TokenOf::Eos, TokenOf::Eof]),
{
    let s = w + seq![';'];
    let n = w.len() as int;
    assert(s[n] == ';');
    assert forall|j: int| 0 <= j < n implies #[trigger] s[j] == w[j] by {}
    assert forall|j: int| 0 <= j < n implies is_word_char(#[trigger] s[j]) by {
        assert(s[j] == w[j]);
    }
    lemma_word_end_at(s, 0, n);
    assert(s.subrange(0, n) =~= w);
    assert(ws_end(s, 0) == 0);
    lemma_no_keyword(w, w_fn());
    lemma_no_keyword(w, w_ret());
    lemma_no_keyword(w, w_elif());
    lemma_no_keyword(w, w_else());
    lemma_no_keyword(w, w_if());
    lemma_no_keyword(w, w_let());
    lemma_no_keyword(w, w_true());
    lemma_no_keyword(w, w_false());
    lemma_no_keyword(w, w_while());
    assert(!keyword_at(s, 0));
    assert(scan(s, 0) == ScanView::Tok(TokenOf::Ident(w), n));
    assert(ws_end(s, n) == n);
    assert(!keyword_at(s, n));
    assert(scan(s, n) == ScanView::Tok(TokenOf::<Seq<char>>::Eos, n + 1));
    let acc1 = Seq::<TokenView>::empty().push(TokenOf::Ident(w));
    assert(lex_from(s, n + 1, acc1.push(TokenOf::Eos)) == LexedView::Tokens(acc1.push(TokenOf::Eos).push(TokenOf::Eof)));
    assert(lex_from(s, n, acc1) == lex_from(s, n + 1, acc1.push(TokenOf::Eos)));
    assert(lex_from(s, 0, Seq::empty()) == lex_from(s, n, acc1));
    assert(acc1.push(TokenOf::Eos).push(TokenOf::Eof) =~= seq![TokenOf::Ident(w), TokenOf::Eos, TokenOf::Eof]);
}

// ---------------------------------------------------------------------------
// Operator precedence.
// ---------------------------------------------------------------------------

/// The prefix that selects the base of an integer literal: `0x`, `0o`, `0b`, or
/// none for decimal.
pub open spec fn base_prefix(base: nat) -> Seq<char> {
    if base == 16 {
        seq!['0', 'x']
    } else if base == 8 {
        seq!['0', 'o']
    } else if base == 2 {
        seq!['0', 'b']
    } else {
        seq![]
    }
}

/// What a digit character is worth: `0`-`9` their value, `a`-`f` and `A`-`F`
/// ten to fifteen, anything else -1.
pub open spec fn digit_worth(c: char) -> int {
    if '0' <= c && c <= '9' {
        c as int - 48
    } else if 'a' <= c && c <= 'f' {
        c as int - 87
    } else if 'A' <= c && c <= 'F' {
        c as int - 55
    } else {
        -1
    }
}

/// The number that a string of digits denotes in positional notation.
pub open spec fn numeral(d: Seq<char>, base: nat) -> int
    decreases d.len(),
{
    if d.len() == 0 {
        0
    } else {
        numeral(d.drop_last(), base) * base + digit_worth(d.last())
    }
}

/// A nonempty string of digits of `base`, each worth less than the base.
pub open spec fn digits_of_base(d: Seq<char>, base: nat) -> bool {
    d.len() > 0 && forall|i: int| 0 <= i < d.len() ==> 0 <= digit_worth(#[trigger] d[i]) < base
}

proof fn lemma_numeral_agrees(d: Seq<char>, base: nat)
    requires
        forall|i: int| 0 <= i < d.len() ==> 0 <= digit_worth(#[trigger] d[i]) < base,
    ensures
        digits_value(d, base) == numeral(d, base),
    decreases d.len(),
{
    if d.len() > 0 {
        let e = d.subrange(0, d.len() - 1);
        assert(e =~= d.drop_last());
        assert forall|i: int| 0 <= i < e.len() implies 0 <= digit_worth(#[trigger] e[i]) < base by {
            assert(e[i] == d[i]);
        }
        lemma_numeral_agrees(e, base);
        let c = d[d.len() - 1];
        assert(0 <= digit_worth(c) < base);
        assert(digit_of(c) == digit_worth(c));
    }
}

proof fn lemma_digits_end_at(s: Seq<char>, i: int, e: int, base: nat)
    requires
        0 <= i <= e < s.len(),
        forall|j: int| i <= j < e ==> in_base(#[trigger] s[j], base),
        !in_base(s[e], base),
    ensures
        digits_end(s, i, base) == e,
    decreases e - i,
{
    if i < e {
        lemma_digits_end_at(s, i + 1, e, base);
    }
}

/// No keyword stands at a position that holds a digit.
proof fn lemma_no_keyword_at_digit(s: Seq<char>, k: Seq<char>)
    requires
        s.len() > 0,
        '0' <= s[0] && s[0] <= '9',
        k.len() > 0,
        ascii_letter(k[0]),
    ensures
        !kw_at(s, 0, k),
{
    if word_at(s, 0, k) {
        assert(s.subrange(0, k.len() as int)[0] == s[0]);
    }
}

/// An integer literal in any of the four bases, with its prefix, followed by `;`,
/// lexes to the integer it denotes, the statement end and `Eof`; a literal that
/// denotes more than the largest 64-bit integer is a bad number.
#[verifier::spinoff_prover]
#[verifier::rlimit(50)]
pub proof fn law_integer_lexes(d: Seq<char>, base: nat)
    requires
        base == 2 || base == 8 || base == 10 || base == 16,
        digits_of_base(d, base),
    ensures
        numeral(d, base) <= i64::MAX ==> lex_spec(base_prefix(base) + d + seq![';']) == LexedView::Tokens(
            seq![TokenOf::Int(numeral(d, base) as i64), TokenOf::Eos, TokenOf::Eof],
        ),
        numeral(d, base) > i64::MAX ==> lex_spec(base_prefix(base) + d + seq![';']) == LexedView::Failed(
            LexerErrorView::BadNumber,
        ),
{
    let p = base_prefix(base);
    let s = p + d + seq![';'];
    let k = p.len() as int;
    let n = k + d.len();
    assert(s.len() == n + 1);
    assert(s[n] == ';');
    assert forall|j: int| 0 <= j < d.len() implies #[trigger] s[k + j] == d[j] by {}
    assert forall|j: int| k <= j < n implies in_base(#[trigger] s[j], base) by {
        assert(s[j] == d[j - k]);
        assert(0 <= digit_worth(d[j - k]) < base);
    }
    lemma_digits_end_at(s, k, n, base);
    assert(s.subrange(k, n) =~= d);
    lemma_numeral_agrees(d, base);
    assert('0' <= s[0] && s[0] <= '9') by {
        if k == 0 {
            assert(s[0] == d[0]);
            assert(0 <= digit_worth(d[0]) < 10);
        } else {
            assert(s[0] == p[0]);
        }
    }
    lemma_no_keyword_at_digit(s, w_fn());
    lemma_no_keyword_at_digit(s, w_ret());
    lemma_no_keyword_at_digit(s, w_elif());
    lemma_no_keyword_at_digit(s, w_else());
    lemma_no_keyword_at_digit(s, w_if());
    lemma_no_keyword_at_digit(s, w_let());
    lemma_no_keyword_at_digit(s, w_true());
    lemma_no_keyword_at_digit(s, w_false());
    lemma_no_keyword_at_digit(s, w_while());
    assert(!keyword_at(s, 0));
    assert(ws_end(s, 0) == 0);
    if base == 16 {
        assert(s.subrange(0, 2) =~= seq!['0', 'x']);
    } else if base == 8 {
        assert(s[1] == 'o');
        assert(!word_at(s, 0, seq!['0', 'x'])) by {
            if word_at(s, 0, seq!['0', 'x']) {
                assert(s.subrange(0, 2)[1] == s[1]);
            }
        }
        assert(s.subrange(0, 2) =~= seq!['0', 'o']);
    } else if base == 2 {
        assert(s[1] == 'b');
        assert(!word_at(s, 0, seq!['0', 'x'])) by {
            if word_at(s, 0, seq!['0', 'x']) {
                assert(s.subrange(0, 2)[1] == s[1]);
            }
        }
        assert(!word_at(s, 0, seq!['0', 'o'])) by {
            if word_at(s, 0, seq!['0', 'o']) {
                assert(s.subrange(0, 2)[1] == s[1]);
            }
        }
        assert(s.subrange(0, 2) =~= seq!['0', 'b']);
    } else {
        assert(s[1] == ';' || ('0' <= s[1] && s[1] <= '9')) by {
            if d.len() > 1 {
                assert(s[1] == d[1]);
                assert(0 <= digit_worth(d[1]) < 10);
            }
        }
        assert(!word_at(s, 0, seq!['0', 'x'])) by {
            if word_at(s, 0, seq!['0', 'x']) {
                assert(s.subrange(0, 2)[1] == s[1]);
            }
        }
        assert(!word_at(s, 0, seq!['0', 'o'])) by {
            if word_at(s, 0, seq!['0', 'o']) {
                assert(s.subrange(0, 2)[1] == s[1]);
            }
        }
        assert(!word_at(s, 0, seq!['0', 'b'])) by {
            if word_at(s, 0, seq!['0', 'b']) {
                assert(s.subrange(0, 2)[1] == s[1]);
            }
        }
    }
    let v = numeral(d, base);
    if v > i64::MAX {
        assert(scan(s, 0) == ScanView::BadNumber);
    } else {
        assert(scan(s, 0) == ScanView::Tok(TokenOf::<Seq<char>>::Int(v as i64), n));
        assert(ws_end(s, n) == n);
        assert(!keyword_at(s, n));
        assert(scan(s, n) == ScanView::Tok(TokenOf::<Seq<char>>::Eos, n + 1));
        let acc1 = Seq::<TokenView>::empty().push(TokenOf::Int(v as i64));
        assert(lex_from(s, n + 1, acc1.push(TokenOf::Eos)) == LexedView::Tokens(
            acc1.push(TokenOf::Eos).push(TokenOf::Eof),
        ));
        assert(lex_from(s, n, acc1) == lex_from(s, n + 1, acc1.push(TokenOf::Eos)));
        assert(lex_from(s, 0, Seq::empty()) == lex_from(s, n, acc1));
        assert(acc1.push(TokenOf::Eos).push(TokenOf::Eof) =~= seq![
            TokenOf::Int(v as i64),
            TokenOf::Eos,
            TokenOf::Eof,
        ]);
    }
}

proof fn lemma_quote_end_at(s: Seq<char>, i: int, e: int)
    requires
        0 <= i <= e < s.len(),
        forall|j: int| i <= j < e ==> #[trigger] s[j] != '"',
        s[e] == '"',
    ensures
        quote_end(s, i) == e,
    decreases e - i,
{
    if i < e {
        lemma_quote_end_at(s, i + 1, e);
    }
}

/// A string literal followed by `;` lexes to a string of exactly the characters
/// between its quotes, the statement end and `Eof`.
#[verifier::spinoff_prover]
pub proof fn law_string_lexes(w: Seq<char>)
    requires
        forall|i: int| 0 <= i < w.len() ==> #[trigger] w[i] != '"',
    ensures
        lex_spec(seq!['"'] + w + seq!['"', ';']) == LexedView::Tokens(
            seq![TokenOf::String(w), TokenOf::Eos, TokenOf::Eof],
        ),
{
    let s = seq!['"'] + w + seq!['"', ';'];
    let n = w.len() as int;
    assert(s[0] == '"');
    assert(s[n + 1] == '"');
    assert(s[n + 2] == ';');
    assert forall|j: int| 1 <= j < n + 1 implies #[trigger] s[j] != '"' by {
        assert(s[j] == w[j - 1]);
    }
    lemma_quote_end_at(s, 1, n + 1);
    assert(s.subrange(1, n + 1) =~= w);
    assert(ws_end(s, 0) == 0);
    assert(scan(s, 0) == ScanView::Tok(TokenOf::String(w), n + 2));
    let m = n + 2;
    assert(ws_end(s, m) == m);
    assert(!keyword_at(s, m));
    assert(scan(s, m) == ScanView::Tok(TokenOf::<Seq<char>>::Eos, m + 1));
    let acc1 = Seq::<TokenView>::empty().push(TokenOf::String(w));
    assert(lex_from(s, m + 1, acc1.push(TokenOf::Eos)) == LexedView::Tokens(
        acc1.push(TokenOf::Eos).push(TokenOf::Eof),
    ));
    assert(lex_from(s, m, acc1) == lex_from(s, m + 1, acc1.push(TokenOf::Eos)));
    assert(lex_from(s, 0, Seq::empty()) == lex_from(s, m, acc1));
    assert(acc1.push(TokenOf::Eos).push(TokenOf::Eof) =~= seq![TokenOf::String(w), TokenOf::Eos, TokenOf::Eof]);
}

/// Decimal digits, possibly none.
pub open spec fn decimal_digits(d: Seq<char>) -> bool {
    forall|i: int| 0 <= i < d.len() ==> '0' <= #[trigger] d[i] && d[i] <= '9'
}

/// A decimal literal with a point, followed by `;`, lexes to a float carrying
/// exactly that text, the statement end and `Eof`.
#[verifier::spinoff_prover]
#[verifier::rlimit(50)]
pub proof fn law_float_lexes(d1: Seq<char>, d2: Seq<char>)
    requires
        d1.len() > 0,
        decimal_digits(d1),
        decimal_digits(d2),
    ensures
        lex_spec(d1 + seq!['.'] + d2 + seq![';']) == LexedView::Tokens(
            seq![TokenOf::Float(d1 + seq!['.'] + d2), TokenOf::Eos, TokenOf::Eof],
        ),
{
    let lit_text = d1 + seq!['.'] + d2;
    let s = lit_text + seq![';'];
    let n1 = d1.len() as int;
    let n = lit_text.len() as int;
    assert(s.len() == n + 1);
    assert(s[n1] == '.');
    assert(s[n] == ';');
    assert forall|j: int| 0 <= j < n1 implies in_base(#[trigger] s[j], 10) by {
        assert(s[j] == d1[j]);
    }
    assert forall|j: int| n1 + 1 <= j < n implies in_base(#[trigger] s[j], 10) by {
        assert(s[j] == d2[j - n1 - 1]);
    }
    lemma_digits_end_at(s, 0, n1, 10);
    lemma_digits_end_at(s, n1 + 1, n, 10);
    assert(s.subrange(0, n) =~= lit_text);
    assert(s[0] == d1[0]);
    assert('0' <= s[0] && s[0] <= '9');
    assert(s[1] == '.' || ('0' <= s[1] && s[1] <= '9')) by {
        if n1 > 1 {
            assert(s[1] == d1[1]);
        }
    }
    lemma_no_keyword_at_digit(s, w_fn());
    lemma_no_keyword_at_digit(s, w_ret());
    lemma_no_keyword_at_digit(s, w_elif());
    lemma_no_keyword_at_digit(s, w_else());
    lemma_no_keyword_at_digit(s, w_if());
    lemma_no_keyword_at_digit(s, w_let());
    lemma_no_keyword_at_digit(s, w_true());
    lemma_no_keyword_at_digit(s, w_false());
    lemma_no_keyword_at_digit(s, w_while());
    assert(!keyword_at(s, 0));
    assert(ws_end(s, 0) == 0);
    assert(!word_at(s, 0, seq!['0', 'x'])) by {
        if word_at(s, 0, seq!['0', 'x']) {
            assert(s.subrange(0, 2)[1] == s[1]);
        }
    }
    assert(!word_at(s, 0, seq!['0', 'o'])) by {
        if word_at(s, 0, seq!['0', 'o']) {
            assert(s.subrange(0, 2)[1] == s[1]);
        }
    }
    assert(!word_at(s, 0, seq!['0', 'b'])) by {
        if word_at(s, 0, seq!['0', 'b']) {
            assert(s.subrange(0, 2)[1] == s[1]);
        }
    }
    assert(scan(s, 0) == ScanView::Tok(TokenOf::Float(lit_text), n));
    assert(ws_end(s, n) == n);
    assert(!keyword_at(s, n));
    assert(scan(s, n) == ScanView::Tok(TokenOf::<Seq<char>>::Eos, n + 1));
    let acc1 = Seq::<TokenView>::empty().push(TokenOf::Float(lit_text));
    assert(lex_from(s, n + 1, acc1.push(TokenOf::Eos)) == LexedView::Tokens(
        acc1.push(TokenOf::Eos).push(TokenOf::Eof),
    ));
    assert(lex_from(s, n, acc1) == lex_from(s, n + 1, acc1.push(TokenOf::Eos)));
    assert(lex_from(s, 0, Seq::empty()) == lex_from(s, n, acc1));
    assert(acc1.push(TokenOf::Eos).push(TokenOf::Eof) =~= seq![TokenOf::Float(lit_text), TokenOf::Eos, TokenOf::Eof]);
}

/// How each keyword is written.
pub open spec fn keyword_text(t: TokenView) -> Seq<char> {
    match t {
        TokenOf::Fn => seq!['f', 'n'],
        TokenOf::Ret => seq!['r', 'e', 't'],
        TokenOf::If => seq!['i', 'f'],
        TokenOf::Elif => seq!['e', 'l', 'i', 'f'],
        TokenOf::Else => seq!['e', 'l', 's', 'e'],
        TokenOf::Let => seq!['l', 'e', 't'],
        TokenOf::Bool(true) => seq!['t', 'r', 'u', 'e'],
        TokenOf::Bool(false) => seq!['f', 'a', 'l', 's', 'e'],
        TokenOf::While => seq!['w', 'h', 'i', 'l', 'e'],
        _ => seq![],
    }
}

/// A keyword followed by `;` lexes to its own token, the statement end and `Eof`.
#[verifier::spinoff_prover]
pub proof fn law_keyword_lexes(t: TokenView)
    requires
        keyword_text(t).len() > 0,
    ensures
        lex_spec(keyword_text(t) + seq![';']) == LexedView::Tokens(seq![t, TokenOf::Eos, TokenOf::Eof]),
{
    let w = keyword_text(t);
    let s = w + seq![';'];
    let n = w.len() as int;
    assert(s.subrange(0, n) =~= w);
    assert(s[n] == ';');
    assert(forall|j: int| 0 <= j < n ==> #[trigger] s[j] == w[j]);
    assert(ws_end(s, 0) == 0);
    assert(kw_at(s, 0, w));
    assert(keyword_at(s, 0));
    assert(word_at(s, 0, w));
    assert(scan(s, 0) == ScanView::Tok(t, n)) by {
        if n >= 2 {
            assert(s.subrange(0, 2)[0] == s[0] && s.subrange(0, 2)[1] == s[1]);
        }
        if n >= 3 {
            assert(s.subrange(0, 3)[2] == s[2]);
        }
        if n >= 4 {
            assert(s.subrange(0, 4)[3] == s[3]);
        }
    }
    assert(ws_end(s, n) == n);
    assert(!keyword_at(s, n));
    assert(scan(s, n) == ScanView::Tok(TokenOf::<Seq<char>>::Eos, n + 1));
    let acc1 = Seq::<TokenView>::empty().push(t);
    assert(lex_from(s, n + 1, acc1.push(TokenOf::Eos)) == LexedView::Tokens(
        acc1.push(TokenOf::Eos).push(TokenOf::Eof),
    ));
    assert(lex_from(s, n, acc1) == lex_from(s, n + 1, acc1.push(TokenOf::Eos)));
    assert(lex_from(s, 0, Seq::empty()) == lex_from(s, n, acc1));
    assert(acc1.push(TokenOf::Eos).push(TokenOf::Eof) =~= seq![t, TokenOf::Eos, TokenOf::Eof]);
}

/// How each operator and bracket is written.
pub open spec fn operator_text(t: TokenView) -> Seq<char> {
    match t {
        TokenOf::Lparen => seq!['('],
        TokenOf::Rparen => seq![')'],
        TokenOf::Lbrace => seq!['{'],
        TokenOf::Rbrace => seq!['}'],
        TokenOf::Lbrack => seq!['['],
        TokenOf::Rbrack => seq![']'],
        TokenOf::Logor => seq!['|', '|'],
        TokenOf::Logand => seq!['&', '&'],
        TokenOf::Eq => seq!['=', '='],
        TokenOf::Neq => seq!['!', '='],
        TokenOf::Bitor => seq!['|'],
        TokenOf::Bitand => seq!['&'],
        TokenOf::Bitxor => seq!['^'],
        TokenOf::Ge => seq!['>', '='],
        TokenOf::Shr => seq!['>', '>'],
        TokenOf::Gt => seq!['>'],
        TokenOf::Le => seq!['<', '='],
        TokenOf::Shl => seq!['<', '<'],
        TokenOf::Lt => seq!['<'],
        TokenOf::Add => seq!['+'],
        TokenOf::Min => seq!['-'],
        TokenOf::Pwr => seq!['*', '*'],
        TokenOf::Mul => seq!['*'],
        TokenOf::Div => seq!['/'],
        TokenOf::Mod => seq!['%'],
        TokenOf::Not => seq!['!'],
        TokenOf::Bnot => seq!['~'],
        TokenOf::Comma => seq![','],
        TokenOf::Assign => seq!['='],
        _ => seq![],
    }
}

/// No keyword stands at a position that holds no letter.
proof fn lemma_no_keyword_at_sign(s: Seq<char>, k: Seq<char>)
    requires
        s.len() > 0,
        !ascii_letter(s[0]),
        k.len() > 0,
        ascii_letter(k[0]),
    ensures
        !kw_at(s, 0, k),
{
    if word_at(s, 0, k) {
        assert(s.subrange(0, k.len() as int)[0] == s[0]);
    }
}

/// An operator or bracket followed by `;` lexes to its token, the statement end
/// and `Eof`: each is read by its written form, the two-character ones whole.
pub proof fn law_operator_lexes(t: TokenView)
    requires
        operator_text(t).len() > 0,
    ensures
        lex_spec(operator_text(t) + seq![';']) == LexedView::Tokens(seq![t, TokenOf::Eos, TokenOf::Eof]),
{
    let w = operator_text(t);
    let s = w + seq![';'];
    let n = w.len() as int;
    assert(s[0] == w[0]);
    assert(s[n] == ';');
    if n == 2 {
        assert(s[1] == w[1]);
    }
    assert(!ascii_letter(s[0]));
    lemma_no_keyword_at_sign(s, w_fn());
    lemma_no_keyword_at_sign(s, w_ret());
    lemma_no_keyword_at_sign(s, w_elif());
    lemma_no_keyword_at_sign(s, w_else());
    lemma_no_keyword_at_sign(s, w_if());
    lemma_no_keyword_at_sign(s, w_let());
    lemma_no_keyword_at_sign(s, w_true());
    lemma_no_keyword_at_sign(s, w_false());
    lemma_no_keyword_at_sign(s, w_while());
    assert(!keyword_at(s, 0));
    assert(ws_end(s, 0) == 0);
    assert(scan(s, 0) == ScanView::Tok(t, n));
    assert(ws_end(s, n) == n);
    assert(!keyword_at(s, n));
    assert(scan(s, n) == ScanView::Tok(TokenOf::<Seq<char>>::Eos, n + 1));
    let acc1 = Seq::<TokenView>::empty().push(t);
    assert(lex_from(s, n + 1, acc1.push(TokenOf::Eos)) == LexedView::Tokens(
        acc1.push(TokenOf::Eos).push(TokenOf::Eof),
    ));
    assert(lex_from(s, n, acc1) == lex_from(s, n + 1, acc1.push(TokenOf::Eos)));
    assert(lex_from(s, 0, Seq::empty()) == lex_from(s, n, acc1));
    assert(acc1.push(TokenOf::Eos).push(TokenOf::Eof) =~= seq![t, TokenOf::Eos, TokenOf::Eof]);
}

/// How tightly a binary operator binds, from `||` (0) to `*` `/` `%` (9):
/// `||`, `&&`, `|`, `&`, `==` `!=`, `>` `<` `>=` `<=`, `<<` `>>`, `+` `-`,
/// `*` `/` `%`.  `^` has none: it is never taken as a binary operator; `**` is
/// tighter than all of these and not chained.  Any other token: -1.
pub open spec fn binding_rank(op: TokenView) -> int {
    match op {
        TokenOf::Logor => 0,
        TokenOf::Logand => 1,
        TokenOf::Bitor => 2,
        TokenOf::Bitand => 4,
        TokenOf::Eq | TokenOf::Neq => 5,
        TokenOf::Gt | TokenOf::Lt | TokenOf::Ge | TokenOf::Le => 6,
        TokenOf::Shl | TokenOf::Shr => 7,
        TokenOf::Add | TokenOf::Min => 8,
        TokenOf::Mul | TokenOf::Div | TokenOf::Mod => 9,
        _ => -1,
    }
}

/// The tokens of `a o1 b o2 c;` for integer literals.
pub open spec fn three_operands(a: i64, o1: TokenView, b: i64, o2: TokenView, c: i64) -> Seq<TokenView> {
    seq![TokenOf::Int(a), o1, TokenOf::Int(b), o2, TokenOf::Int(c), TokenOf::Eos]
}

pub open spec fn lit(n: i64) -> ExprView {
    ExprView::Literal { val: ValueView::Int(n) }
}

pub open spec fn bin(op: TokenView, l: ExprView, r: ExprView) -> ExprView {
    ExprView::Binary { op, left: Box::new(l), right: Box::new(r) }
}

/// Which binary operators each level of the grammar takes, in terms of their
/// binding rank (`&` is taken by the level above its own as well).
proof fn lemma_levels(l: int, op: TokenView)
    requires
        0 <= l <= 9,
    ensures
        level_op(l, op) <==> (binding_rank(op) == l || (op == TokenOf::<Seq<char>>::Bitand && l == 3)),
{
}

proof fn lemma_atom(t: Seq<TokenView>, i: int)
    requires
        t.len() == 6,
        t[5] == TokenOf::<Seq<char>>::Eos,
        i == 0 || i == 2 || i == 4,
        t[i] is Int,
        binding_rank(t[i + 1]) >= 0 || t[i + 1] == TokenOf::<Seq<char>>::Eos,
        forall|j: int| 0 <= j < 6 ==> #[trigger] t[j] != TokenOf::<Seq<char>>::Eof,
    ensures
        sp_unary(t, i) == (Ok::<ExprView, ParserErrorView>(lit(t[i]->Int_0)), i + 1),
{
    assert(t[i + 1] != TokenOf::<Seq<char>>::Eof);
    assert(t[i] != TokenOf::<Seq<char>>::Eof);
    assert(sp_literal(t, i) == (Ok::<ExprView, ParserErrorView>(lit(t[i]->Int_0)), i + 1));
    assert(sp_index_rest(t, i + 1, lit(t[i]->Int_0)) == (Ok::<ExprView, ParserErrorView>(lit(t[i]->Int_0)), i + 1));
    assert(sp_primary(t, i) == (Ok::<ExprView, ParserErrorView>(lit(t[i]->Int_0)), i + 1));
    assert(sp_power(t, i) == (Ok::<ExprView, ParserErrorView>(lit(t[i]->Int_0)), i + 1));
}

proof fn lemma_facts(a: i64, o1: TokenView, b: i64, o2: TokenView, c: i64)
    requires
        binding_rank(o1) >= 0,
        binding_rank(o2) >= 0,
    ensures
        ({
            let t = three_operands(a, o1, b, o2, c);
            &&& sp_unary(t, 0) == (Ok::<ExprView, ParserErrorView>(lit(a)), 1int)
            &&& sp_unary(t, 2) == (Ok::<ExprView, ParserErrorView>(lit(b)), 3int)
            &&& sp_unary(t, 4) == (Ok::<ExprView, ParserErrorView>(lit(c)), 5int)
            &&& forall|j: int| 0 <= j < 6 ==> #[trigger] t[j] != TokenOf::<Seq<char>>::Eof
            &&& p_peek(t, 1) == o1 && p_next(t, 1) == 2
            &&& p_peek(t, 3) == o2 && p_next(t, 3) == 4
            &&& p_peek(t, 5) == TokenOf::<Seq<char>>::Eos
        }),
{
    let t = three_operands(a, o1, b, o2, c);
    assert forall|j: int| 0 <= j < 6 implies #[trigger] t[j] != TokenOf::<Seq<char>>::Eof by {}
    lemma_atom(t, 0);
    lemma_atom(t, 2);
    lemma_atom(t, 4);
}

/// From the last operand on, every level gives that operand.
proof fn lemma_from_last(a: i64, o1: TokenView, b: i64, o2: TokenView, c: i64, lvl: int)
    requires
        binding_rank(o1) >= 0,
        binding_rank(o2) >= 0,
        0 <= lvl <= 9,
    ensures
        sp_level(three_operands(a, o1, b, o2, c), 4, lvl) == (Ok::<ExprView, ParserErrorView>(lit(c)), 5int),
    decreases 9 - lvl,
{
    let t = three_operands(a, o1, b, o2, c);
    lemma_facts(a, o1, b, o2, c);
    lemma_levels(lvl, TokenOf::Eos);
    assert(!level_op(lvl, p_peek(t, 5)));
    assert(sp_level_rest(t, 5, lvl, lit(c)) == (Ok::<ExprView, ParserErrorView>(lit(c)), 5int));
    if lvl < 9 {
        lemma_from_last(a, o1, b, o2, c, lvl + 1);
    }
}

proof fn lemma_rest_at_end(a: i64, o1: TokenView, b: i64, o2: TokenView, c: i64, lvl: int, x: ExprView)
    requires
        binding_rank(o1) >= 0,
        binding_rank(o2) >= 0,
        0 <= lvl <= 9,
    ensures
        sp_level_rest(three_operands(a, o1, b, o2, c), 5, lvl, x) == (Ok::<ExprView, ParserErrorView>(x), 5int),
{
    let t = three_operands(a, o1, b, o2, c);
    lemma_facts(a, o1, b, o2, c);
    lemma_levels(lvl, TokenOf::Eos);
}

/// The operands to the right of position `i` at level `lvl` + 1, or by the prefix
/// level below level 9.
pub open spec fn below(t: Seq<TokenView>, i: int, lvl: int) -> (Result<ExprView, ParserErrorView>, int) {
    if lvl < 9 {
        sp_level(t, i, lvl + 1)
    } else {
        sp_unary(t, i)
    }
}

/// From the middle operand on: `b o2 c` at the levels at or below the rank of
/// `o2`, `b` alone above it.
proof fn lemma_from_middle(a: i64, o1: TokenView, b: i64, o2: TokenView, c: i64, lvl: int)
    requires
        binding_rank(o1) >= 0,
        binding_rank(o2) >= 0,
        0 <= lvl <= 9,
    ensures
        sp_level(three_operands(a, o1, b, o2, c), 2, lvl) == if lvl > binding_rank(o2) {
            (Ok::<ExprView, ParserErrorView>(lit(b)), 3int)
        } else {
            (Ok::<ExprView, ParserErrorView>(bin(o2, lit(b), lit(c))), 5int)
        },
    decreases 9 - lvl,
{
    let t = three_operands(a, o1, b, o2, c);
    let r2 = binding_rank(o2);
    lemma_facts(a, o1, b, o2, c);
    lemma_levels(lvl, o2);
    if lvl < 9 {
        lemma_from_middle(a, o1, b, o2, c, lvl + 1);
        lemma_from_last(a, o1, b, o2, c, lvl + 1);
    }
    if lvl > r2 {
        assert(below(t, 2, lvl) == (Ok::<ExprView, ParserErrorView>(lit(b)), 3int));
        assert(sp_level_rest(t, 3, lvl, lit(b)) == (Ok::<ExprView, ParserErrorView>(lit(b)), 3int));
    } else if lvl == r2 {
        assert(below(t, 2, lvl) == (Ok::<ExprView, ParserErrorView>(lit(b)), 3int));
        assert(below(t, 4, lvl) == (Ok::<ExprView, ParserErrorView>(lit(c)), 5int));
        lemma_rest_at_end(a, o1, b, o2, c, lvl, bin(o2, lit(b), lit(c)));
        assert(sp_level_rest(t, 3, lvl, lit(b)) == sp_level_rest(t, 5, lvl, bin(o2, lit(b), lit(c))));
    } else {
        assert(below(t, 2, lvl) == (Ok::<ExprView, ParserErrorView>(bin(o2, lit(b), lit(c))), 5int));
        lemma_rest_at_end(a, o1, b, o2, c, lvl, bin(o2, lit(b), lit(c)));
    }
}

/// From the first operand on, level by level.
proof fn lemma_from_first(a: i64, o1: TokenView, b: i64, o2: TokenView, c: i64, lvl: int)
    requires
        binding_rank(o1) >= 0,
        binding_rank(o2) >= 0,
        0 <= lvl <= 9,
    ensures
        ({
            let r1 = binding_rank(o1);
            let r2 = binding_rank(o2);
            sp_level(three_operands(a, o1, b, o2, c), 0, lvl) == if r1 >= r2 {
                if lvl > r1 {
                    (Ok::<ExprView, ParserErrorView>(lit(a)), 1int)
                } else if lvl > r2 {
                    (Ok::<ExprView, ParserErrorView>(bin(o1, lit(a), lit(b))), 3int)
                } else {
                    (Ok::<ExprView, ParserErrorView>(bin(o2, bin(o1, lit(a), lit(b)), lit(c))), 5int)
                }
            } else {
                if lvl > r1 {
                    (Ok::<ExprView, ParserErrorView>(lit(a)), 1int)
                } else {
                    (Ok::<ExprView, ParserErrorView>(bin(o1, lit(a), bin(o2, lit(b), lit(c)))), 5int)
                }
            }
        }),
    decreases 9 - lvl,
{
    let t = three_operands(a, o1, b, o2, c);
    let r1 = binding_rank(o1);
    let r2 = binding_rank(o2);
    lemma_facts(a, o1, b, o2, c);
    lemma_levels(lvl, o1);
    lemma_levels(lvl, o2);
    if lvl < 9 {
        lemma_from_first(a, o1, b, o2, c, lvl + 1);
        lemma_from_middle(a, o1, b, o2, c, lvl + 1);
        lemma_from_last(a, o1, b, o2, c, lvl + 1);
    }
    let ab = bin(o1, lit(a), lit(b));
    if lvl > r1 && lvl > r2 {
        assert(below(t, 0, lvl) == (Ok::<ExprView, ParserErrorView>(lit(a)), 1int));
        assert(sp_level_rest(t, 1, lvl, lit(a)) == (Ok::<ExprView, ParserErrorView>(lit(a)), 1int));
    } else if r1 >= r2 {
        if lvl == r1 {
            assert(below(t, 0, lvl) == (Ok::<ExprView, ParserErrorView>(lit(a)), 1int));
            assert(below(t, 2, lvl) == (Ok::<ExprView, ParserErrorView>(lit(b)), 3int));
            if lvl > r2 {
                assert(sp_level_rest(t, 3, lvl, ab) == (Ok::<ExprView, ParserErrorView>(ab), 3int));
            } else {
                assert(below(t, 4, lvl) == (Ok::<ExprView, ParserErrorView>(lit(c)), 5int));
                lemma_rest_at_end(a, o1, b, o2, c, lvl, bin(o2, ab, lit(c)));
                assert(sp_level_rest(t, 3, lvl, ab) == sp_level_rest(t, 5, lvl, bin(o2, ab, lit(c))));
            }
            assert(sp_level_rest(t, 1, lvl, lit(a)) == sp_level_rest(t, 3, lvl, ab));
        } else if lvl > r2 {
            assert(below(t, 0, lvl) == (Ok::<ExprView, ParserErrorView>(ab), 3int));
            assert(sp_level_rest(t, 3, lvl, ab) == (Ok::<ExprView, ParserErrorView>(ab), 3int));
        } else if lvl == r2 {
            assert(below(t, 0, lvl) == (Ok::<ExprView, ParserErrorView>(ab), 3int));
            assert(below(t, 4, lvl) == (Ok::<ExprView, ParserErrorView>(lit(c)), 5int));
            lemma_rest_at_end(a, o1, b, o2, c, lvl, bin(o2, ab, lit(c)));
            assert(sp_level_rest(t, 3, lvl, ab) == sp_level_rest(t, 5, lvl, bin(o2, ab, lit(c))));
        } else {
            assert(below(t, 0, lvl) == (Ok::<ExprView, ParserErrorView>(bin(o2, ab, lit(c))), 5int));
            lemma_rest_at_end(a, o1, b, o2, c, lvl, bin(o2, ab, lit(c)));
        }
    } else {
        let bc = bin(o2, lit(b), lit(c));
        if lvl > r1 {
            assert(below(t, 0, lvl) == (Ok::<ExprView, ParserErrorView>(lit(a)), 1int));
            assert(sp_level_rest(t, 1, lvl, lit(a)) == (Ok::<ExprView, ParserErrorView>(lit(a)), 1int));
        } else if lvl == r1 {
            assert(below(t, 0, lvl) == (Ok::<ExprView, ParserErrorView>(lit(a)), 1int));
            assert(below(t, 2, lvl) == (Ok::<ExprView, ParserErrorView>(bc), 5int));
            lemma_rest_at_end(a, o1, b, o2, c, lvl, bin(o1, lit(a), bc));
            assert(sp_level_rest(t, 1, lvl, lit(a)) == sp_level_rest(t, 5, lvl, bin(o1, lit(a), bc)));
        } else {
            assert(below(t, 0, lvl) == (Ok::<ExprView, ParserErrorView>(bin(o1, lit(a), bc)), 5int));
            lemma_rest_at_end(a, o1, b, o2, c, lvl, bin(o1, lit(a), bc));
        }
    }
}

/// Precedence and associativity: in `a o1 b o2 c`, the operator that binds more
/// tightly takes its operands first, and of two that bind alike the left one does
/// (so `1 + 2 < 4` is `(1 + 2) < 4`, `1 < 2 + 4` is `1 < (2 + 4)`, and
/// `1 - 2 - 3` is `(1 - 2) - 3`).
pub proof fn law_precedence(a: i64, o1: TokenView, b: i64, o2: TokenView, c: i64)
    requires
        binding_rank(o1) >= 0,
        binding_rank(o2) >= 0,
    ensures
        sp_expr(three_operands(a, o1, b, o2, c), 0) == (
            Ok::<ExprView, ParserErrorView>(
                if binding_rank(o1) >= binding_rank(o2) {
                    bin(o2, bin(o1, lit(a), lit(b)), lit(c))
                } else {
                    bin(o1, lit(a), bin(o2, lit(b), lit(c)))
                },
            ),
            5int,
        ),
{
    lemma_from_first(a, o1, b, o2, c, 0);
}

/// A lone integer literal, followed by `;` or `{`, is an expression of its own at
/// every level.
proof fn lemma_lone_literal(t: Seq<TokenView>, i: int, lvl: int)
    requires
        0 <= i,
        i + 1 < t.len(),
        t[i] is Int,
        t[i + 1] == TokenOf::<Seq<char>>::Eos || t[i + 1] == TokenOf::<Seq<char>>::Lbrace,
        0 <= lvl <= 9,
    ensures
        sp_level(t, i, lvl) == (Ok::<ExprView, ParserErrorView>(lit(t[i]->Int_0)), i + 1),
    decreases 9 - lvl,
{
    let e = lit(t[i]->Int_0);
    assert(sp_literal(t, i) == (Ok::<ExprView, ParserErrorView>(e), i + 1));
    assert(sp_index_rest(t, i + 1, e) == (Ok::<ExprView, ParserErrorView>(e), i + 1));
    assert(sp_primary(t, i) == (Ok::<ExprView, ParserErrorView>(e), i + 1));
    assert(sp_power(t, i) == (Ok::<ExprView, ParserErrorView>(e), i + 1));
    assert(sp_unary(t, i) == (Ok::<ExprView, ParserErrorView>(e), i + 1));
    lemma_levels(lvl, t[i + 1]);
    assert(sp_level_rest(t, i + 1, lvl, e) == (Ok::<ExprView, ParserErrorView>(e), i + 1));
    if lvl < 9 {
        lemma_lone_literal(t, i, lvl + 1);
    }
}

/// The tokens of `if a {} elif b {} else {}`.
pub open spec fn if_elif_else(a: i64, b: i64) -> Seq<TokenView> {
    seq![
        TokenOf::If, TokenOf::Int(a), TokenOf::Lbrace, TokenOf::Rbrace,
        TokenOf::Elif, TokenOf::Int(b), TokenOf::Lbrace, TokenOf::Rbrace,
        TokenOf::Else, TokenOf::Lbrace, TokenOf::Rbrace, TokenOf::Eof,
    ]
}

#[verifier::spinoff_prover]
proof fn lemma_let_form(x: Seq<char>, a: i64)
    ensures
        sp_stmt(seq![TokenOf::Let, TokenOf::Ident(x), TokenOf::Assign, TokenOf::Int(a), TokenOf::Eos, TokenOf::Eof], 0)
            == (Ok::<StmtView, ParserErrorView>(StmtView::Let { name: x, expr: lit(a) }), 5int),
{
    lemma_lone_literal(
        seq![TokenOf::Let, TokenOf::Ident(x), TokenOf::Assign, TokenOf::Int(a), TokenOf::Eos, TokenOf::Eof],
        3,
        0,
    );
}

#[verifier::spinoff_prover]
proof fn lemma_assign_form(x: Seq<char>, a: i64)
    ensures
        sp_stmt(seq![TokenOf::Ident(x), TokenOf::Assign, TokenOf::Int(a), TokenOf::Eos, TokenOf::Eof], 0) == (
            Ok::<StmtView, ParserErrorView>(StmtView::Assign { name: x, expr: lit(a) }),
            4int,
        ),
{
    lemma_lone_literal(seq![TokenOf::Ident(x), TokenOf::Assign, TokenOf::Int(a), TokenOf::Eos, TokenOf::Eof], 2, 0);
}

#[verifier::spinoff_prover]
proof fn lemma_ret_form(a: i64)
    ensures
        sp_stmt(seq![TokenOf::Ret, TokenOf::Int(a), TokenOf::Eos, TokenOf::Eof], 0) == (
            Ok::<StmtView, ParserErrorView>(StmtView::Ret { expr: lit(a) }),
            3int,
        ),
{
    lemma_lone_literal(seq![TokenOf::Ret, TokenOf::Int(a), TokenOf::Eos, TokenOf::Eof], 1, 0);
}

#[verifier::spinoff_prover]
proof fn lemma_while_form(a: i64)
    ensures
        sp_stmt(seq![TokenOf::While, TokenOf::Int(a), TokenOf::Lbrace, TokenOf::Rbrace, TokenOf::Eof], 0) == (
            Ok::<StmtView, ParserErrorView>(StmtView::While { cond: lit(a), body: seq![] }),
            4int,
        ),
{
    let t = seq![TokenOf::While, TokenOf::Int(a), TokenOf::Lbrace, TokenOf::Rbrace, TokenOf::Eof];
    lemma_lone_literal(t, 1, 0);
    assert(sp_expr(t, 1) == (Ok::<ExprView, ParserErrorView>(lit(a)), 2int));
    assert(sp_stmts(t, 3, Seq::empty()) == (Ok::<Seq<StmtView>, ParserErrorView>(Seq::empty()), 3int));
    assert(sp_block(t, 2) == (Ok::<Seq<StmtView>, ParserErrorView>(Seq::empty()), 4int));
    assert(sp_condblk(t, 1) == (Ok::<CondView, ParserErrorView>((lit(a), Seq::empty())), 4int));
    assert(sp_while(t, 1) == (Ok::<StmtView, ParserErrorView>(StmtView::While { cond: lit(a), body: seq![] }), 4int));
}

#[verifier::spinoff_prover]
proof fn lemma_if_form(a: i64, b: i64)
    ensures
        sp_stmt(if_elif_else(a, b), 0) == (
            Ok::<StmtView, ParserErrorView>(
                StmtView::If {
                    branches: seq![(lit(a), Seq::<StmtView>::empty()), (lit(b), Seq::<StmtView>::empty())],
                    else_body: Some(Seq::<StmtView>::empty()),
                },
            ),
            11int,
        ),
{
    let t = if_elif_else(a, b);
    let e = Seq::<StmtView>::empty();
    lemma_lone_literal(t, 1, 0);
    lemma_lone_literal(t, 5, 0);
    assert(sp_expr(t, 1) == (Ok::<ExprView, ParserErrorView>(lit(a)), 2int));
    assert(sp_expr(t, 5) == (Ok::<ExprView, ParserErrorView>(lit(b)), 6int));
    assert(sp_stmts(t, 3, e) == (Ok::<Seq<StmtView>, ParserErrorView>(e), 3int));
    assert(sp_stmts(t, 7, e) == (Ok::<Seq<StmtView>, ParserErrorView>(e), 7int));
    assert(sp_stmts(t, 10, e) == (Ok::<Seq<StmtView>, ParserErrorView>(e), 10int));
    assert(sp_block(t, 2) == (Ok::<Seq<StmtView>, ParserErrorView>(e), 4int));
    assert(sp_block(t, 6) == (Ok::<Seq<StmtView>, ParserErrorView>(e), 8int));
    assert(sp_block(t, 9) == (Ok::<Seq<StmtView>, ParserErrorView>(e), 11int));
    assert(sp_condblk(t, 1) == (Ok::<CondView, ParserErrorView>((lit(a), e)), 4int));
    assert(sp_condblk(t, 5) == (Ok::<CondView, ParserErrorView>((lit(b), e)), 8int));
    let b1: CondView = (lit(a), e);
    let b2: CondView = (lit(b), e);
    assert(sp_elifs(t, 8, seq![b1, b2]) == (Ok::<Seq<CondView>, ParserErrorView>(seq![b1, b2]), 8int));
    assert(seq![b1].push(b2) =~= seq![b1, b2]);
    assert(sp_elifs(t, 4, seq![b1]) == (Ok::<Seq<CondView>, ParserErrorView>(seq![b1, b2]), 8int));
    assert(sp_if(t, 1) == (
        Ok::<StmtView, ParserErrorView>(StmtView::If { branches: seq![b1, b2], else_body: Some(e) }),
        11int,
    ));
}

/// The statement forms: `let x = a;`, `x = a;`, `ret a;`, `while a {}` and
/// `if a {} elif b {} else {}` each parse to the statement they write, with the
/// branches of an `if` in the order written, and the parser stands after them.
pub proof fn law_statement_forms(x: Seq<char>, a: i64, b: i64)
    ensures
        sp_stmt(seq![TokenOf::Let, TokenOf::Ident(x), TokenOf::Assign, TokenOf::Int(a), TokenOf::Eos, TokenOf::Eof], 0)
            == (Ok::<StmtView, ParserErrorView>(StmtView::Let { name: x, expr: lit(a) }), 5int),
        sp_stmt(seq![TokenOf::Ident(x), TokenOf::Assign, TokenOf::Int(a), TokenOf::Eos, TokenOf::Eof], 0) == (
            Ok::<StmtView, ParserErrorView>(StmtView::Assign { name: x, expr: lit(a) }),
            4int,
        ),
        sp_stmt(seq![TokenOf::Ret, TokenOf::Int(a), TokenOf::Eos, TokenOf::Eof], 0) == (
            Ok::<StmtView, ParserErrorView>(StmtView::Ret { expr: lit(a) }),
            3int,
        ),
        sp_stmt(seq![TokenOf::While, TokenOf::Int(a), TokenOf::Lbrace, TokenOf::Rbrace, TokenOf::Eof], 0) == (
            Ok::<StmtView, ParserErrorView>(StmtView::While { cond: lit(a), body: seq![] }),
            4int,
        ),
        sp_stmt(if_elif_else(a, b), 0) == (
            Ok::<StmtView, ParserErrorView>(
                StmtView::If {
                    branches: seq![(lit(a), Seq::<StmtView>::empty()), (lit(b), Seq::<StmtView>::empty())],
                    else_body: Some(Seq::<StmtView>::empty()),
                },
            ),
            11int,
        ),
{
    lemma_let_form(x, a);
    lemma_assign_form(x, a);
    lemma_ret_form(a);
    lemma_while_form(a);
    lemma_if_form(a, b);
}

proof fn lemma_decimal_numeral(n: int)
    requires
        n >= 0,
    ensures
        digits_of_base(decimal(n), 10),
        numeral(decimal(n), 10) == n,
    decreases n,
{
    if n < 10 {
        let d = decimal(n);
        assert(d.drop_last() =~= Seq::<char>::empty());
        assert(numeral(Seq::<char>::empty(), 10) == 0);
        assert(digit_worth(digit_char(n)) == n);
        assert(numeral(d, 10) == numeral(d.drop_last(), 10) * 10 + digit_worth(d.last()));
    } else {
        lemma_decimal_numeral(n / 10);
        let d = decimal(n);
        let h = decimal(n / 10);
        assert(d.drop_last() =~= h);
        assert(digit_worth(digit_char(n % 10)) == n % 10);
        assert(d.last() == digit_char(n % 10));
        assert(numeral(d, 10) == numeral(h, 10) * 10 + n % 10);
        assert(n == (n / 10) * 10 + n % 10);
        assert forall|i: int| 0 <= i < d.len() implies 0 <= digit_worth(#[trigger] d[i]) < 10 by {
            if i < h.len() {
                assert(d[i] == h[i]);
            }
        }
    }
}

/// A printed natural number reads back: its text, followed by `;`, lexes to that
/// same number, the statement end and `Eof`.
pub proof fn law_printed_integers_lex_back(n: i64)
    requires
        n >= 0,
    ensures
        lex_spec(value_text(ValueView::Int(n)) + seq![';']) == LexedView::Tokens(
            seq![TokenOf::Int(n), TokenOf::Eos, TokenOf::Eof],
        ),
{
    lemma_decimal_numeral(n as int);
    law_integer_lexes(decimal(n as int), 10);
    assert(base_prefix(10) + decimal(n as int) =~= decimal(n as int));
}

/// A printed boolean reads back: `true` and `false` lex to the booleans they
/// print.
pub proof fn law_printed_booleans_lex_back(b: bool)
    ensures
        lex_spec(value_text(ValueView::Bool(b)) + seq![';']) == LexedView::Tokens(
            seq![TokenOf::Bool(b), TokenOf::Eos, TokenOf::Eof],
        ),
{
    assert(value_text(ValueView::Bool(b)) == keyword_text(TokenOf::Bool(b)));
    law_keyword_lexes(TokenOf::Bool(b));
}

} // verus!
