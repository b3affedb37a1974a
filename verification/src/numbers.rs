//! Counting in 64 bits, and IEEE 754 doubles as their 64 bits: telling the
//! special values apart and spelling them as Prometheus does.
use vstd::prelude::*;
use vstd::string::*;

verus! {

/// Bits of positive infinity; the non-negative finite doubles lie below, in
/// their numeric order.
pub const INFINITY_BITS: u64 = 0x7FF0_0000_0000_0000;

/// Bits of negative zero: the sign alone.
pub const SIGN_BIT: u64 = 0x8000_0000_0000_0000;

/// Bits of 1.0.
pub const ONE_BITS: u64 = 0x3FF0_0000_0000_0000;

/// One more, as far as a `u64` counts.
pub open spec fn one_more(n: u64) -> u64 {
    if n == u64::MAX {
        n
    } else {
        (n + 1) as u64
    }
}

/// The number after `n`, and 0 after the last.
pub open spec fn next_number(n: u64) -> u64 {
    if n == u64::MAX {
        0
    } else {
        (n + 1) as u64
    }
}

/// The bits without the sign.
pub open spec fn magnitude(bits: u64) -> u64 {
    if bits >= SIGN_BIT {
        (bits - SIGN_BIT) as u64
    } else {
        bits
    }
}

/// The bits are those of some NaN.
pub open spec fn is_nan(bits: u64) -> bool {
    magnitude(bits) > INFINITY_BITS
}

/// The bits are those of a finite number that is not below zero (negative zero
/// counts as zero).
pub open spec fn finite_non_negative(bits: u64) -> bool {
    bits < INFINITY_BITS || bits == SIGN_BIT
}

/// A number that orders the finite non-negative doubles as they are ordered:
/// the two zeros are one.
pub open spec fn rank(bits: u64) -> u64 {
    if bits == SIGN_BIT {
        0
    } else {
        bits
    }
}

/// The number that `bits` stands for: every NaN is the same.
pub open spec fn canonical(bits: u64) -> u64 {
    if is_nan(bits) {
        (INFINITY_BITS + 1) as u64
    } else {
        bits
    }
}

/// Prometheus spelling of a double: `NaN`, `+Inf`, `-Inf`, or for a finite one
/// its shortest decimal form.
pub open spec fn spelling(bits: u64, shortest: Seq<char>) -> Seq<char> {
    if is_nan(bits) {
        "NaN"@
    } else if bits == INFINITY_BITS {
        "+Inf"@
    } else if magnitude(bits) == INFINITY_BITS {
        "-Inf"@
    } else {
        shortest
    }
}

/// Whether `bits` is a finite number that is not below zero.
pub fn is_finite_non_negative(bits: u64) -> (r: bool)
    ensures
        r == finite_non_negative(bits),
{
    bits < INFINITY_BITS || bits == SIGN_BIT
}

/// The rank of `bits` among the finite non-negative doubles.
pub fn rank_of(bits: u64) -> (r: u64)
    ensures
        r == rank(bits),
{
    if bits == SIGN_BIT {
        0
    } else {
        bits
    }
}

/// Prometheus value spelling (`NaN`, `+Inf`, `-Inf`) of the double with these
/// bits; `shortest` is how it is written where it is finite.
#[must_use]
pub fn format_value(bits: u64, shortest: &str) -> (r: String)
    ensures
        r@ == spelling(bits, shortest@),
{
    let size: u64 = if bits >= SIGN_BIT {
        bits - SIGN_BIT
    } else {
        bits
    };
    if size > INFINITY_BITS {
        "NaN".to_string()
    } else if size == INFINITY_BITS {
        if bits == INFINITY_BITS {
            "+Inf".to_string()
        } else {
            "-Inf".to_string()
        }
    } else {
        shortest.to_string()
    }
}

/// The spelling of a double goes by its bits: all ones in the exponent with a
/// rest is a NaN, without one an infinity with the sign in front, and anything
/// else is a finite number, written as it is.
pub proof fn law_spelling(bits: u64, shortest: Seq<char>)
    ensures
        0x7FF0_0000_0000_0000 < bits < 0x8000_0000_0000_0000 || bits > 0xFFF0_0000_0000_0000
            ==> spelling(bits, shortest) == "NaN"@,
        bits == 0x7FF0_0000_0000_0000 ==> spelling(bits, shortest) == "+Inf"@,
        bits == 0xFFF0_0000_0000_0000 ==> spelling(bits, shortest) == "-Inf"@,
        bits < 0x7FF0_0000_0000_0000 || 0x8000_0000_0000_0000 <= bits < 0xFFF0_0000_0000_0000
            ==> spelling(bits, shortest) == shortest,
{
}

/// Counting goes up by one; it stays at the greatest number, and numbering
/// begins again there.
pub proof fn law_counting(n: u64)
    ensures
        n < u64::MAX ==> one_more(n) == n + 1 && next_number(n) == n + 1,
        one_more(u64::MAX) == u64::MAX,
        next_number(u64::MAX) == 0,
{
}

}
