//! Text that is written piece by piece.

use vstd::prelude::*;
use vstd::string::*;

verus! {

/// `String::push`: `c` is appended to `s`.
#[verifier::external_body]
pub(crate) fn push_char(s: &mut String, c: char)
    ensures
        final(s)@ == old(s)@.push(c),
{
    s.push(c)
}

/// The character of the decimal digit `d`.
pub open spec fn digit(d: u8) -> char {
    (48u8 + d) as char
}

/// `acc`, and behind it `n` in decimal digits.
pub open spec fn digits(acc: Seq<char>, n: nat) -> Seq<char>
    decreases n,
{
    if n < 10 {
        acc.push(digit(n as u8))
    } else {
        digits(acc, n / 10).push(digit((n % 10) as u8))
    }
}

/// `acc`, and behind it `v` in decimal digits, after a minus sign where `v` is
/// negative.
pub open spec fn number(acc: Seq<char>, v: int) -> Seq<char> {
    if v < 0 {
        digits(acc + "-"@, (-v) as nat)
    } else {
        digits(acc, v as nat)
    }
}

/// Appends `n` in decimal digits.
pub fn push_digits(out: &mut String, n: u64)
    ensures
        final(out)@ == digits(old(out)@, n as nat),
    decreases n,
{
    if n >= 10 {
        push_digits(out, n / 10);
    }
    let d: u8 = (n % 10) as u8;
    push_char(out, (48u8 + d) as char);
}

/// Appends `v` in decimal digits, after a minus sign where `v` is negative.
pub fn push_number(out: &mut String, v: i32)
    ensures
        final(out)@ == number(old(out)@, v as int),
{
    if v < 0 {
        out.append("-");
        push_digits(out, (-(v as i64)) as u64);
    } else {
        push_digits(out, v as u64);
    }
}

} // verus!
