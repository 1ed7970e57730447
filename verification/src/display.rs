use vstd::prelude::*;

use crate::tokenizer::push_char;
use crate::value::{lemma_values_view_index, values_view, Value, ValueView};

verus! {

// ---------------------------------------------------------------------------
// How values are printed: integers in decimal, booleans as `true` / `false`,
// strings as they are, floats as their carried text, arrays as `{` and their
// members each followed by `, ` (the last by ` ` alone) and `}`.
// ---------------------------------------------------------------------------

/// The character of a decimal digit.
pub open spec fn digit_char(d: int) -> char {
    if d == 0 {
        '0'
    } else if d == 1 {
        '1'
    } else if d == 2 {
        '2'
    } else if d == 3 {
        '3'
    } else if d == 4 {
        '4'
    } else if d == 5 {
        '5'
    } else if d == 6 {
        '6'
    } else if d == 7 {
        '7'
    } else if d == 8 {
        '8'
    } else {
        '9'
    }
}

/// The decimal digits of a natural number.
pub open spec fn decimal(n: int) -> Seq<char>
    decreases n,
{
    if n < 10 {
        seq![digit_char(n)]
    } else {
        decimal(n / 10).push(digit_char(n % 10))
    }
}

/// An integer in decimal, with `-` before a negative one.
pub open spec fn int_text(n: int) -> Seq<char> {
    if n < 0 {
        seq!['-'] + decimal(-n)
    } else {
        decimal(n)
    }
}

/// The printed text of a value.
pub open spec fn value_text(v: ValueView) -> Seq<char>
    decreases v, 0int,
{
    match v {
        ValueView::Int(n) => int_text(n as int),
        ValueView::Float(t) => t,
        ValueView::Bool(b) => if b {
            seq!['t', 'r', 'u', 'e']
        } else {
            seq!['f', 'a', 'l', 's', 'e']
        },
        ValueView::Str(s) => s,
        ValueView::Array(vs) => seq!['{'] + items_text(vs, vs.len() as int) + seq!['}'],
    }
}

/// The printed text of the first `n` members of an array.
pub open spec fn items_text(vs: Seq<ValueView>, n: int) -> Seq<char>
    decreases vs, n,
{
    if n <= 0 || n > vs.len() {
        Seq::empty()
    } else {
        items_text(vs, n - 1) + value_text(vs[n - 1]) + (if n < vs.len() {
            seq![',', ' ']
        } else {
            seq![' ']
        })
    }
}

fn digit(d: u64) -> (c: char)
    requires
        d < 10,
    ensures
        c == digit_char(d as int),
{
    if d == 0 {
        '0'
    } else if d == 1 {
        '1'
    } else if d == 2 {
        '2'
    } else if d == 3 {
        '3'
    } else if d == 4 {
        '4'
    } else if d == 5 {
        '5'
    } else if d == 6 {
        '6'
    } else if d == 7 {
        '7'
    } else if d == 8 {
        '8'
    } else {
        '9'
    }
}

/// The decimal digits of a natural number.
pub fn decimal_text(n: u64) -> (s: String)
    ensures
        s@ == decimal(n as int),
    decreases n,
{
    if n < 10 {
        let mut s = String::new();
        push_char(&mut s, digit(n));
        assert(s@ =~= seq![digit_char(n as int)]);
        s
    } else {
        let mut s = decimal_text(n / 10);
        push_char(&mut s, digit(n % 10));
        s
    }
}

/// An integer in decimal.
pub fn int_to_text(n: i64) -> (s: String)
    ensures
        s@ == int_text(n as int),
{
    if n >= 0 {
        decimal_text(n as u64)
    } else {
        let magnitude: u64 = if n == i64::MIN {
            0x8000_0000_0000_0000
        } else {
            (-n) as u64
        };
        let digits = decimal_text(magnitude);
        let mut s = String::new();
        push_char(&mut s, '-');
        s.append(digits.as_str());
        assert(s@ =~= seq!['-'] + decimal(-(n as int)));
        s
    }
}

impl Value {
    /// The printed text of the value.  A float prints as the text it carries: a
    /// float computed by the caller carries the text of Rust's `{:?}` form of the
    /// number, but a float literal carries its source text (`3.` stays `3.`) and a
    /// float counted by a `for` loop its plain digits (`0`, not `0.0`); printing
    /// such a number the way `{:?}` would is floating-point formatting, left to the
    /// caller.
    pub fn to_text(&self) -> (s: String)
        ensures
            s@ == value_text(self@),
        decreases self,
    {
        match self {
            Value::Int(n) => int_to_text(*n),
            Value::Float(t) => t.clone(),
            Value::Bool(b) => {
                let s = if *b {
                    "true".to_string()
                } else {
                    "false".to_string()
                };
                proof {
                    reveal_strlit("true");
                    reveal_strlit("false");
                }
                assert(s@ =~= value_text(self@));
                s
            },
            Value::String(s) => s.clone(),
            Value::Array(a) => {
                proof {
                    lemma_values_view_index(a@);
                }
                let mut s = String::new();
                push_char(&mut s, '{');
                let items = items_to_text(a);
                s.append(items.as_str());
                push_char(&mut s, '}');
                assert(s@ =~= value_text(self@));
                s
            },
        }
    }
}

fn items_to_text(a: &Vec<Value>) -> (s: String)
    ensures
        s@ == items_text(values_view(a@), a@.len() as int),
    decreases a@,
{
    proof {
        lemma_values_view_index(a@);
    }
    let ghost vs = values_view(a@);
    let mut s = String::new();
    let mut i: usize = 0;
    while i < a.len()
        invariant
            i <= a.len(),
            vs == values_view(a@),
            vs.len() == a.len(),
            forall|j: int| 0 <= j < a.len() ==> #[trigger] vs[j] == a@[j]@,
            s@ == items_text(vs, i as int),
        decreases a.len() - i,
    {
        proof {
            assert(decreases_to!(a@ => a@[i as int]));
        }
        let t = a[i].to_text();
        s.append(t.as_str());
        if i + 1 < a.len() {
            push_char(&mut s, ',');
            push_char(&mut s, ' ');
        } else {
            push_char(&mut s, ' ');
        }
        proof {
            let sep = if i + 1 < vs.len() {
                seq![',', ' ']
            } else {
                seq![' ']
            };
            assert(items_text(vs, i + 1) == items_text(vs, i as int) + value_text(vs[i as int]) + sep);
            assert(s@ =~= items_text(vs, i + 1));
        }
        i = i + 1;
    }
    s
}

} // verus!
