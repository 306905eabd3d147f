//! Decimal rendering of durations: hours, then minutes and seconds as
//! two-digit fields.

use vstd::prelude::*;

use crate::string_ext::string_from_chars;

verus! {

/// The digit character for a value below ten.
pub open spec fn digit_char(d: int) -> char {
    if d == 0 {
        '0'
    } else if d == 1 {
        '1'
    } else if d == 2 {
        '2'
    } else if d == 3 {
        '3'
    } else if d == 4 {
        '4'
    } else if d == 5 {
        '5'
    } else if d == 6 {
        '6'
    } else if d == 7 {
        '7'
    } else if d == 8 {
        '8'
    } else {
        '9'
    }
}

/// The decimal digits of a non-negative number, most significant first.
pub open spec fn dec_digits(n: int) -> Seq<char>
    decreases n,
{
    if n < 10 {
        seq![digit_char(n)]
    } else {
        dec_digits(n / 10).push(digit_char(n % 10))
    }
}

/// A number padded to at least two digits.
pub open spec fn two_digits(n: int) -> Seq<char> {
    if n < 10 {
        seq!['0'] + dec_digits(n)
    } else {
        dec_digits(n)
    }
}

/// A non-negative duration in seconds as `H:MM:SS`.
pub open spec fn spec_duration_str(secs: int) -> Seq<char> {
    dec_digits(secs / 3600) + seq![':'] + two_digits((secs / 60) % 60) + seq![':'] + two_digits(
        secs % 60,
    )
}

/// Append the decimal digits of `n`.
fn push_dec(out: &mut Vec<char>, n: u64)
    ensures
        final(out)@ == old(out)@ + dec_digits(n as int),
    decreases n,
{
    if n < 10 {
        out.push(digit_of(n));
        proof {
            assert(out@ =~= old(out)@ + dec_digits(n as int));
        }
    } else {
        push_dec(out, n / 10);
        out.push(digit_of(n % 10));
        proof {
            assert(out@ =~= old(out)@ + dec_digits(n as int));
        }
    }
}

/// The digit character for a value below ten.
fn digit_of(d: u64) -> (c: char)
    requires
        d < 10,
    ensures
        c == digit_char(d as int),
{
    if d == 0 {
        '0'
    } else if d == 1 {
        '1'
    } else if d == 2 {
        '2'
    } else if d == 3 {
        '3'
    } else if d == 4 {
        '4'
    } else if d == 5 {
        '5'
    } else if d == 6 {
        '6'
    } else if d == 7 {
        '7'
    } else if d == 8 {
        '8'
    } else {
        '9'
    }
}

/// Append `n` as at least two digits.
fn push_two(out: &mut Vec<char>, n: u64)
    ensures
        final(out)@ == old(out)@ + two_digits(n as int),
{
    if n < 10 {
        out.push('0');
    }
    push_dec(out, n);
    proof {
        assert(out@ =~= old(out)@ + two_digits(n as int));
    }
}

/// A non-negative duration in seconds as `H:MM:SS`: whole hours, then
/// minutes and seconds as two-digit fields.
pub fn duration_to_string(secs: i64) -> (r: String)
    requires
        secs >= 0,
    ensures
        r@ == spec_duration_str(secs as int),
{
    let mut out: Vec<char> = Vec::new();
    push_dec(&mut out, (secs / 3600) as u64);
    out.push(':');
    push_two(&mut out, ((secs / 60) % 60) as u64);
    out.push(':');
    push_two(&mut out, (secs % 60) as u64);
    proof {
        assert(out@ =~= spec_duration_str(secs as int));
    }
    string_from_chars(&out)
}

} // verus!
