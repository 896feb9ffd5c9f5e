//! The order of 64-bit floats, read off their bit patterns.
//!
//! A pattern is a sign bit followed by a magnitude. Patterns of equal sign are ordered by magnitude;
//! the two zeros are equal; a magnitude above that of infinity is no number.

use vstd::prelude::*;

verus! {

/// The first pattern with the sign bit set.
pub const SIGN: u64 = 0x8000_0000_0000_0000;

/// The magnitude of infinity.
pub const INFINITE: u64 = 0x7FF0_0000_0000_0000;

/// The largest finite value.
pub const LARGEST: u64 = 0x7FEF_FFFF_FFFF_FFFF;

/// A pattern without its sign bit.
pub open spec fn magnitude(bits: u64) -> int {
    if bits < SIGN {
        bits as int
    } else {
        bits - SIGN
    }
}

/// The pattern is no number.
pub open spec fn is_nan(bits: u64) -> bool {
    magnitude(bits) > INFINITE
}

/// The pattern is that of a finite number.
pub open spec fn is_finite(bits: u64) -> bool {
    magnitude(bits) < INFINITE
}

/// An integer that orders as the float does.
pub open spec fn rank(bits: u64) -> int {
    if bits < SIGN {
        magnitude(bits)
    } else {
        -magnitude(bits)
    }
}

/// `a <= b` as floats: never where either is no number.
pub open spec fn at_most(a: u64, b: u64) -> bool {
    !is_nan(a) && !is_nan(b) && rank(a) <= rank(b)
}

/// The magnitude of a pattern.
pub fn magnitude_of(bits: u64) -> (m: u64)
    ensures
        m == magnitude(bits),
        m < SIGN,
{
    if bits < SIGN {
        bits
    } else {
        bits - SIGN
    }
}

/// The rank of a pattern.
pub fn rank_of(bits: u64) -> (r: i64)
    ensures
        r == rank(bits),
        -i64::MAX <= r,
{
    let m = magnitude_of(bits) as i64;
    if bits < SIGN {
        m
    } else {
        -m
    }
}

/// Whether a pattern is that of a finite number.
pub fn finite(bits: u64) -> (yes: bool)
    ensures
        yes == is_finite(bits),
{
    magnitude_of(bits) < INFINITE
}

/// Whether `a <= b` as floats.
pub fn not_above(a: u64, b: u64) -> (yes: bool)
    ensures
        yes == at_most(a, b),
{
    magnitude_of(a) <= INFINITE && magnitude_of(b) <= INFINITE && rank_of(a) <= rank_of(b)
}

/// On numbers `<=` is a total preorder: any two compare, and it is transitive.
pub proof fn order_is_total(a: u64, b: u64, c: u64)
    requires
        !is_nan(a),
        !is_nan(b),
        !is_nan(c),
    ensures
        at_most(a, b) || at_most(b, a),
        at_most(a, b) && at_most(b, c) ==> at_most(a, c),
{
}

/// Patterns without the sign bit order as they are, those with it the other way round and below the
/// others; the two zeros are equal. What lies beyond infinity is no number and compares with nothing.
pub proof fn patterns_order_as_floats(a: u64, b: u64)
    ensures
        is_nan(a) <==> 0x7FF0_0000_0000_0000 < a < 0x8000_0000_0000_0000 || 0xFFF0_0000_0000_0000 < a,
        is_finite(a) <==> a < 0x7FF0_0000_0000_0000 || 0x8000_0000_0000_0000 <= a
            < 0xFFF0_0000_0000_0000,
        is_nan(a) || is_nan(b) ==> !at_most(a, b),
        !is_nan(a) && !is_nan(b) ==> (at_most(a, b) <==> rank(a) <= rank(b)),
        a < 0x8000_0000_0000_0000 && b < 0x8000_0000_0000_0000 ==> (rank(a) <= rank(b) <==> a <= b),
        a >= 0x8000_0000_0000_0000 && b >= 0x8000_0000_0000_0000 ==> (rank(a) <= rank(b) <==> b
            <= a),
        a >= 0x8000_0000_0000_0000 && b < 0x8000_0000_0000_0000 ==> rank(a) <= rank(b),
        a < 0x8000_0000_0000_0000 && b >= 0x8000_0000_0000_0000 ==> (rank(a) <= rank(b) <==> a == 0
            && b == 0x8000_0000_0000_0000),
        rank(0) == 0,
{
}

} // verus!
