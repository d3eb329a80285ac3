//! Small helpers for building text one character at a time.
use vstd::prelude::*;

verus! {

/// Relies on `String::push`: the character is appended at the end.
#[verifier::external_body]
pub(crate) fn push_char(s: &mut String, c: char)
    ensures
        final(s)@ == old(s)@.push(c),
{
    s.push(c)
}

/// Relies on `str::chars`: the characters of the string, in order.
#[verifier::external_body]
pub(crate) fn chars_of(s: &str) -> (r: Vec<char>)
    ensures
        r@ == s@,
{
    s.chars().collect()
}

/// Appends `t` to `s`.
pub(crate) fn push_text(s: &mut String, t: &str)
    ensures
        final(s)@ == old(s)@ + t@,
{
    s.append(t);
}

/// The decimal digit for `d`.
pub open spec fn digit_char(d: nat) -> char {
    if d == 0 { '0' }
    else if d == 1 { '1' }
    else if d == 2 { '2' }
    else if d == 3 { '3' }
    else if d == 4 { '4' }
    else if d == 5 { '5' }
    else if d == 6 { '6' }
    else if d == 7 { '7' }
    else if d == 8 { '8' }
    else { '9' }
}

/// The decimal digits of `n`, most significant first, without leading zeros.
pub open spec fn digits(n: nat) -> Seq<char>
    decreases n,
{
    if n < 10 {
        seq![digit_char(n)]
    } else {
        digits(n / 10).push(digit_char(n % 10))
    }
}

/// The decimal text of an integer, with a leading `-` when it is negative.
pub open spec fn int_text(i: int) -> Seq<char> {
    if i < 0 {
        seq!['-'] + digits((-i) as nat)
    } else {
        digits(i as nat)
    }
}

/// The last digits of `n`, one for each factor of ten in `p`, with leading zeros.
pub open spec fn fixed_digits(n: nat, p: nat) -> Seq<char>
    decreases p,
{
    if p <= 1 {
        seq![]
    } else {
        fixed_digits(n / 10, p / 10).push(digit_char(n % 10))
    }
}

fn digit_of(d: u64) -> (c: char)
    requires
        d < 10,
    ensures
        c == digit_char(d as nat),
{
    match d {
        0 => '0',
        1 => '1',
        2 => '2',
        3 => '3',
        4 => '4',
        5 => '5',
        6 => '6',
        7 => '7',
        8 => '8',
        _ => '9',
    }
}

/// Appends the decimal digits of `n` to `s`.
pub(crate) fn push_digits(s: &mut String, n: u64)
    ensures
        final(s)@ == old(s)@ + digits(n as nat),
    decreases n,
{
    if n >= 10 {
        push_digits(s, n / 10);
    }
    let c = digit_of(n % 10);
    push_char(s, c);
    proof {
        if n >= 10 {
            assert(final(s)@ =~= old(s)@ + digits(n as nat));
        } else {
            assert(final(s)@ =~= old(s)@ + digits(n as nat));
        }
    }
}

/// Appends the digits of `n` to `s`, as `fixed_digits(n, p)` gives them.
pub(crate) fn push_fixed(s: &mut String, n: u128, p: u128)
    ensures
        final(s)@ == old(s)@ + fixed_digits(n as nat, p as nat),
    decreases p,
{
    if p <= 1 {
        assert(final(s)@ =~= old(s)@ + fixed_digits(n as nat, p as nat));
        return;
    }
    push_fixed(s, n / 10, p / 10);
    let c = digit_of((n % 10) as u64);
    push_char(s, c);
    assert(final(s)@ =~= old(s)@ + fixed_digits(n as nat, p as nat));
}

/// Appends the decimal text of `i` to `s`.
pub(crate) fn push_int(s: &mut String, i: i64)
    ensures
        final(s)@ == old(s)@ + int_text(i as int),
{
    if i < 0 {
        push_char(s, '-');
        let m: u64 = (-(i as i128)) as u64;
        push_digits(s, m);
        assert(final(s)@ =~= old(s)@ + int_text(i as int));
    } else {
        push_digits(s, i as u64);
    }
}

/// The one-character string `c`.
pub(crate) fn single(c: char) -> (r: String)
    ensures
        r@ == seq![c],
{
    let mut s = String::new();
    push_char(&mut s, c);
    assert(s@ =~= seq![c]);
    s
}

} // verus!
