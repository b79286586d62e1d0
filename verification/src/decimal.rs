//! Integers written out in decimal.

use vstd::prelude::*;

verus! {

/// The character of the decimal digit `d`.
pub open spec fn digit(d: nat) -> char
    recommends
        d < 10,
{
    if d == 0 {
        '0'
    } else if d == 1 {
        '1'
    } else if d == 2 {
        '2'
    } else if d == 3 {
        '3'
    } else if d == 4 {
        '4'
    } else if d == 5 {
        '5'
    } else if d == 6 {
        '6'
    } else if d == 7 {
        '7'
    } else if d == 8 {
        '8'
    } else {
        '9'
    }
}

/// The decimal digits of `n`, the most significant first, with no leading
/// zero but for `0` itself.
pub open spec fn decimal(n: nat) -> Seq<char>
    decreases n,
{
    if n < 10 {
        seq![digit(n)]
    } else {
        decimal(n / 10).push(digit(n % 10))
    }
}

/// The decimal form of an integer: a minus sign before the digits of a
/// negative number.
pub open spec fn signed_decimal(n: int) -> Seq<char> {
    if n < 0 {
        seq!['-'] + decimal((-n) as nat)
    } else {
        decimal(n as nat)
    }
}

fn digit_char(d: u64) -> (c: char)
    requires
        d < 10,
    ensures
        c == digit(d as nat),
{
    if d == 0 {
        '0'
    } else if d == 1 {
        '1'
    } else if d == 2 {
        '2'
    } else if d == 3 {
        '3'
    } else if d == 4 {
        '4'
    } else if d == 5 {
        '5'
    } else if d == 6 {
        '6'
    } else if d == 7 {
        '7'
    } else if d == 8 {
        '8'
    } else {
        '9'
    }
}

/// Appends the decimal digits of `n` to `to`.
pub fn write_unsigned(n: u64, to: &mut String)
    ensures
        final(to)@ == old(to)@ + decimal(n as nat),
    decreases n,
{
    if n < 10 {
        to.push(digit_char(n));
        proof {
            assert(to@ =~= old(to)@ + decimal(n as nat));
        }
    } else {
        write_unsigned(n / 10, to);
        to.push(digit_char(n % 10));
        proof {
            assert(to@ =~= old(to)@ + decimal(n as nat));
        }
    }
}

/// Appends the decimal form of `n` to `to`, with a minus sign if `n` is
/// negative.
pub fn write_signed(n: i64, to: &mut String)
    ensures
        final(to)@ == old(to)@ + signed_decimal(n as int),
{
    if n < 0 {
        to.push('-');
        let magnitude: u64 = if n == i64::MIN {
            9223372036854775808u64
        } else {
            (-n) as u64
        };
        write_unsigned(magnitude, to);
        proof {
            assert(to@ =~= old(to)@ + signed_decimal(n as int));
        }
    } else {
        write_unsigned(n as u64, to);
    }
}

} // verus!
