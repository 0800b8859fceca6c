//! How values are written into the text of a statement: quoted text and
//! decimal numbers.

use crate::text::chars_of;
use vstd::prelude::*;

verus! {

/// What stands for the one character `c` inside a quoted literal: a quote is
/// doubled, any other character stands for itself.
pub open spec fn escaped_char(c: char) -> Seq<char> {
    if c == '\'' {
        seq!['\'', '\'']
    } else {
        seq![c]
    }
}

/// `s` with every quote doubled.
pub open spec fn escaped(s: Seq<char>) -> Seq<char>
    decreases s.len(),
{
    if s.len() == 0 {
        Seq::empty()
    } else {
        escaped(s.drop_last()) + escaped_char(s.last())
    }
}

/// `s` as a quoted literal: its escaped form between two quotes.
pub open spec fn quoted(s: Seq<char>) -> Seq<char> {
    seq!['\''] + escaped(s) + seq!['\'']
}

/// The decimal digit for `d`.
pub open spec fn digit_of(d: int) -> char {
    if d == 0 {
        '0'
    } else if d == 1 {
        '1'
    } else if d == 2 {
        '2'
    } else if d == 3 {
        '3'
    } else if d == 4 {
        '4'
    } else if d == 5 {
        '5'
    } else if d == 6 {
        '6'
    } else if d == 7 {
        '7'
    } else if d == 8 {
        '8'
    } else {
        '9'
    }
}

/// `n` in decimal, without leading zeros.
pub open spec fn decimal_of(n: nat) -> Seq<char>
    decreases n,
{
    if n < 10 {
        seq![digit_of(n as int)]
    } else {
        decimal_of(n / 10).push(digit_of((n % 10) as int))
    }
}

/// `n` in decimal, with a minus sign when it is negative.
pub open spec fn signed_decimal_of(n: int) -> Seq<char> {
    if n < 0 {
        seq!['-'] + decimal_of((-n) as nat)
    } else {
        decimal_of(n as nat)
    }
}

/// The number that a run of decimal digits stands for.
pub open spec fn number_of(digits: Seq<char>) -> nat
    decreases digits.len(),
{
    if digits.len() == 0 {
        0
    } else {
        (number_of(digits.drop_last()) * 10 + (digits.last() as u32 - '0' as u32)) as nat
    }
}

/// A number written in decimal stands for itself.
pub proof fn lemma_decimal_stands_for(n: nat)
    ensures
        number_of(decimal_of(n)) == n,
    decreases n,
{
    reveal_with_fuel(number_of, 2);
    if n < 10 {
        assert(decimal_of(n).drop_last() =~= Seq::<char>::empty());
    } else {
        lemma_decimal_stands_for(n / 10);
        let head = decimal_of(n / 10);
        let d = digit_of((n % 10) as int);
        assert(head.push(d).drop_last() =~= head);
    }
}

/// Appends the escaped form of `value` to `out`.
pub(crate) fn push_escaped(out: &mut String, value: &[char])
    ensures
        final(out)@ == old(out)@ + escaped(value@),
{
    let n = value.len();
    let mut i: usize = 0;
    while i < n
        invariant
            i <= n,
            n == value@.len(),
            out@ == old(out)@ + escaped(value@.take(i as int)),
        decreases n - i,
    {
        let c = value[i];
        proof {
            assert(value@.take(i + 1).drop_last() =~= value@.take(i as int));
        }
        if c == '\'' {
            out.push('\'');
            out.push('\'');
        } else {
            out.push(c);
        }
        proof {
            assert(out@ =~= old(out)@ + escaped(value@.take(i + 1)));
        }
        i = i + 1;
    }
    proof {
        assert(value@.take(n as int) =~= value@);
    }
}

/// Appends `value` as a quoted literal to `out`.
pub(crate) fn push_quoted(out: &mut String, value: &str)
    ensures
        final(out)@ == old(out)@ + quoted(value@),
{
    let chars = chars_of(value);
    out.push('\'');
    push_escaped(out, chars.as_slice());
    out.push('\'');
    proof {
        assert(out@ =~= old(out)@ + quoted(value@));
    }
}

/// Doubles every quote of `value`, so that it can stand between two quotes.
pub fn sql_escape(value: &str) -> (r: String)
    ensures
        r@ == escaped(value@),
{
    let chars = chars_of(value);
    let mut r = String::new();
    push_escaped(&mut r, chars.as_slice());
    r
}

/// Writes `value` as a quoted literal.
pub fn sql_quote(value: &str) -> (r: String)
    ensures
        r@ == quoted(value@),
{
    let mut r = String::new();
    push_quoted(&mut r, value);
    r
}

fn digit(d: u64) -> (c: char)
    requires
        d < 10,
    ensures
        c == digit_of(d as int),
{
    if d == 0 {
        '0'
    } else if d == 1 {
        '1'
    } else if d == 2 {
        '2'
    } else if d == 3 {
        '3'
    } else if d == 4 {
        '4'
    } else if d == 5 {
        '5'
    } else if d == 6 {
        '6'
    } else if d == 7 {
        '7'
    } else if d == 8 {
        '8'
    } else {
        '9'
    }
}

/// Appends `n` in decimal to `out`.
pub(crate) fn push_decimal(out: &mut String, n: u64)
    ensures
        final(out)@ == old(out)@ + decimal_of(n as nat),
{
    let mut low: Vec<char> = Vec::new();
    let mut rest: u64 = n;
    while rest >= 10
        invariant
            decimal_of(n as nat) == decimal_of(rest as nat) + low@.reverse(),
        decreases rest,
    {
        let d = digit(rest % 10);
        proof {
            assert(low@.push(d).reverse() =~= seq![d] + low@.reverse());
            assert(decimal_of(rest as nat) == decimal_of((rest / 10) as nat).push(d));
            assert(decimal_of((rest / 10) as nat).push(d) + low@.reverse() =~= decimal_of(
                (rest / 10) as nat,
            ) + (seq![d] + low@.reverse()));
        }
        low.push(d);
        rest = rest / 10;
    }
    out.push(digit(rest));
    let mut i: usize = low.len();
    while i > 0
        invariant
            i <= low@.len(),
            out@ == old(out)@ + decimal_of(rest as nat) + low@.reverse().take(low@.len() - i),
        decreases i,
    {
        i = i - 1;
        out.push(low[i]);
        proof {
            let r = low@.reverse();
            let k = low@.len() - i;
            assert(r.take(k as int) =~= r.take(k - 1).push(low@[i as int]));
            assert(out@ =~= old(out)@ + decimal_of(rest as nat) + r.take(k as int));
        }
    }
    proof {
        assert(low@.reverse().take(low@.len() as int) =~= low@.reverse());
        assert(out@ =~= old(out)@ + decimal_of(n as nat));
    }
}

/// Appends `n` in decimal to `out`, with a minus sign when it is negative.
pub(crate) fn push_signed_decimal(out: &mut String, n: i64)
    ensures
        final(out)@ == old(out)@ + signed_decimal_of(n as int),
{
    if n < 0 {
        out.push('-');
        let below: i64 = -(n + 1);
        let magnitude: u64 = below as u64 + 1;
        push_decimal(out, magnitude);
        proof {
            assert(out@ =~= old(out)@ + signed_decimal_of(n as int));
        }
    } else {
        push_decimal(out, n as u64);
    }
}

/// Writes `n` in decimal.
pub fn decimal(n: u64) -> (r: String)
    ensures
        r@ == decimal_of(n as nat),
{
    let mut r = String::new();
    push_decimal(&mut r, n);
    r
}

/// Writes `n` in decimal, with a minus sign when it is negative.
pub fn signed_decimal(n: i64) -> (r: String)
    ensures
        r@ == signed_decimal_of(n as int),
{
    let mut r = String::new();
    push_signed_decimal(&mut r, n);
    r
}

} // verus!
