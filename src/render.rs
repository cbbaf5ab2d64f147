//! Text form of values, as the print instruction writes them.

use vstd::prelude::*;
use crate::bytecode::Value;

verus! {

pub open spec fn digit_char(d: nat) -> char {
    if d == 0 {
        '0'
    } else if d == 1 {
        '1'
    } else if d == 2 {
        '2'
    } else if d == 3 {
        '3'
    } else if d == 4 {
        '4'
    } else if d == 5 {
        '5'
    } else if d == 6 {
        '6'
    } else if d == 7 {
        '7'
    } else if d == 8 {
        '8'
    } else {
        '9'
    }
}

/// Decimal digits of `n`, most significant first, without leading zeros.
pub open spec fn digits(n: nat) -> Seq<char>
    decreases n,
{
    if n < 10 {
        seq![digit_char(n)]
    } else {
        digits(n / 10).push(digit_char(n % 10))
    }
}

/// Decimal text of an integer, with a leading `-` when negative.
pub open spec fn int_text(i: int) -> Seq<char> {
    if i < 0 {
        seq!['-'] + digits((-i) as nat)
    } else {
        digits(i as nat)
    }
}

/// Text of one value: integers in decimal, booleans as `true`/`false`,
/// characters and strings as their contents, unit as `()`.
pub open spec fn value_text(v: Value) -> Seq<char> {
    match v {
        Value::Int(i) => int_text(i as int),
        Value::Bool(b) => if b {
            seq!['t', 'r', 'u', 'e']
        } else {
            seq!['f', 'a', 'l', 's', 'e']
        },
        Value::Char(c) => seq![c],
        Value::Str(s) => s@,
        Value::Unit => seq!['(', ')'],
    }
}

/// Texts of the values joined by single spaces.
pub open spec fn line_text(vals: Seq<Value>) -> Seq<char>
    decreases vals.len(),
{
    if vals.len() == 0 {
        Seq::empty()
    } else if vals.len() == 1 {
        value_text(vals[0])
    } else {
        line_text(vals.drop_last()) + seq![' '] + value_text(vals.last())
    }
}

/// Relies on `String::push`: appends one character.
#[verifier::external_body]
pub(crate) fn push_char(s: &mut String, c: char)
    ensures
        final(s)@ == old(s)@.push(c),
{
    s.push(c);
}

fn digit_to_char(d: u64) -> (c: char)
    requires
        d < 10,
    ensures
        c == digit_char(d as nat),
{
    if d == 0 {
        '0'
    } else if d == 1 {
        '1'
    } else if d == 2 {
        '2'
    } else if d == 3 {
        '3'
    } else if d == 4 {
        '4'
    } else if d == 5 {
        '5'
    } else if d == 6 {
        '6'
    } else if d == 7 {
        '7'
    } else if d == 8 {
        '8'
    } else {
        '9'
    }
}

fn push_digits(s: &mut String, n: u64)
    ensures
        final(s)@ == old(s)@ + digits(n as nat),
    decreases n,
{
    if n >= 10 {
        push_digits(s, n / 10);
    }
    push_char(s, digit_to_char(n % 10));
    assert(final(s)@ =~= old(s)@ + digits(n as nat));
}

/// Appends the text of `v`.
pub fn push_value_text(s: &mut String, v: &Value)
    ensures
        final(s)@ == old(s)@ + value_text(*v),
{
    match v {
        Value::Int(i) => {
            if *i < 0 {
                push_char(s, '-');
                let mag: u64 = (0i128 - (*i as i128)) as u64;
                push_digits(s, mag);
                assert(final(s)@ =~= old(s)@ + value_text(*v));
            } else {
                push_digits(s, *i as u64);
            }
        },
        Value::Bool(b) => {
            if *b {
                let t = "true";
                proof {
                    reveal_strlit("true");
                }
                s.append(t);
                assert(final(s)@ =~= old(s)@ + value_text(*v));
            } else {
                let f = "false";
                proof {
                    reveal_strlit("false");
                }
                s.append(f);
                assert(final(s)@ =~= old(s)@ + value_text(*v));
            }
        },
        Value::Char(c) => {
            push_char(s, *c);
            assert(final(s)@ =~= old(s)@ + value_text(*v));
        },
        Value::Str(t) => {
            s.append(t.as_str());
        },
        Value::Unit => {
            push_char(s, '(');
            push_char(s, ')');
            assert(final(s)@ =~= old(s)@ + value_text(*v));
        },
    }
}

/// The text of one value.
pub fn value_to_string(v: &Value) -> (r: String)
    ensures
        r@ == value_text(*v),
{
    let mut s = String::new();
    push_value_text(&mut s, v);
    assert(s@ =~= value_text(*v));
    s
}

} // verus!
