//! String building blocks shared by the library: equality of string slices,
//! appending characters, and decimal rendering of integers and of
//! fixed-point quantities held in millionths.

use vstd::prelude::*;

verus! {

/// Compares two string slices by their characters.
pub(crate) fn str_eq(a: &str, b: &str) -> (r: bool)
    ensures
        r == (a@ == b@),
{
    String::from_str(a) == String::from_str(b)
}

/// Appends one character to a string (std's `String::push`).
#[verifier::external_body]
pub(crate) fn push_char(s: &mut String, c: char)
    ensures
        final(s)@ == old(s)@.push(c),
{
    s.push(c)
}

/// The decimal digit `d` (for `d < 10`).
pub open spec fn digit_char(d: nat) -> char {
    if d == 0 { '0' }
    else if d == 1 { '1' }
    else if d == 2 { '2' }
    else if d == 3 { '3' }
    else if d == 4 { '4' }
    else if d == 5 { '5' }
    else if d == 6 { '6' }
    else if d == 7 { '7' }
    else if d == 8 { '8' }
    else { '9' }
}

/// The decimal text of `n`, without leading zeros.
pub open spec fn nat_text(n: nat) -> Seq<char>
    decreases n,
{
    if n < 10 {
        seq![digit_char(n)]
    } else {
        nat_text(n / 10).push(digit_char(n % 10))
    }
}

/// The decimal text of `n`, with a leading `-` when negative.
pub open spec fn int_text(n: int) -> Seq<char> {
    if n < 0 {
        seq!['-'] + nat_text((-n) as nat)
    } else {
        nat_text(n as nat)
    }
}

fn digit(d: u64) -> (c: char)
    requires
        d < 10,
    ensures
        c == digit_char(d as nat),
{
    if d == 0 { '0' }
    else if d == 1 { '1' }
    else if d == 2 { '2' }
    else if d == 3 { '3' }
    else if d == 4 { '4' }
    else if d == 5 { '5' }
    else if d == 6 { '6' }
    else if d == 7 { '7' }
    else if d == 8 { '8' }
    else { '9' }
}

/// Appends the decimal text of `n`.
pub fn push_nat(s: &mut String, n: u64)
    ensures
        final(s)@ == old(s)@ + nat_text(n as nat),
    decreases n,
{
    if n >= 10 {
        push_nat(s, n / 10);
    }
    push_char(s, digit(n % 10));
    assert(old(s)@ + nat_text(n as nat) =~= if n >= 10 {
        (old(s)@ + nat_text((n / 10) as nat)).push(digit_char((n % 10) as nat))
    } else {
        old(s)@.push(digit_char((n % 10) as nat))
    });
}

/// Appends the decimal text of `n`, with a leading `-` when negative.
pub fn push_int(s: &mut String, n: i64)
    ensures
        final(s)@ == old(s)@ + int_text(n as int),
{
    if n < 0 {
        push_char(s, '-');
        let m = (0i128 - n as i128) as u64;
        push_nat(s, m);
        assert(old(s)@.push('-') + nat_text(m as nat) =~= old(s)@ + int_text(n as int));
    } else {
        push_nat(s, n as u64);
    }
}

/// `v / d` rounded to the nearest integer, ties to even.
pub open spec fn round_half_even(v: nat, d: nat) -> nat
    recommends
        d > 0,
{
    let q = v / d;
    let r = v % d;
    if 2 * r > d || (2 * r == d && q % 2 == 1) {
        q + 1
    } else {
        q
    }
}

/// A quantity held in millionths, written with two decimals.
pub open spec fn fixed2_text(v: nat) -> Seq<char> {
    let q = round_half_even(v, 10_000);
    nat_text(q / 100) + seq!['.', digit_char((q / 10) % 10), digit_char(q % 10)]
}

/// A quantity held in millionths, written with one decimal.
pub open spec fn fixed1_text(v: nat) -> Seq<char> {
    let q = round_half_even(v, 100_000);
    nat_text(q / 10) + seq!['.', digit_char(q % 10)]
}

fn round_even(v: u64, d: u64) -> (r: u64)
    requires
        d > 1,
    ensures
        r == round_half_even(v as nat, d as nat),
{
    let q = v / d;
    let rem = v % d;
    assert(q <= v / 2) by {
        vstd::arithmetic::div_mod::lemma_div_is_ordered_by_denominator(v as int, 2, d as int);
    }
    if rem > d - rem || (rem == d - rem && q % 2 == 1) {
        q + 1
    } else {
        q
    }
}

/// Appends a quantity held in millionths with two decimals.
pub fn push_fixed2(s: &mut String, v: u64)
    ensures
        final(s)@ == old(s)@ + fixed2_text(v as nat),
{
    let q = round_even(v, 10_000);
    push_nat(s, q / 100);
    push_char(s, '.');
    push_char(s, digit((q / 10) % 10));
    push_char(s, digit(q % 10));
    assert(final(s)@ =~= old(s)@ + fixed2_text(v as nat));
}

/// Appends a quantity held in millionths with one decimal.
pub fn push_fixed1(s: &mut String, v: u64)
    ensures
        final(s)@ == old(s)@ + fixed1_text(v as nat),
{
    let q = round_even(v, 100_000);
    push_nat(s, q / 10);
    push_char(s, '.');
    push_char(s, digit(q % 10));
    assert(final(s)@ =~= old(s)@ + fixed1_text(v as nat));
}

} // verus!
