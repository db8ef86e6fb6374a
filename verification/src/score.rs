//! Scores, kept as the bits of single-precision numbers, and how such numbers compare.

use vstd::prelude::*;

verus! {

/// The bits of minus zero: from here on a number has its sign bit set.
pub const SIGN: u32 = 0x8000_0000;

/// The bits of infinity. With more than these, sign aside, the bits are not a number.
pub const INFINITY: u32 = 0x7f80_0000;

/// The bits without the sign.
pub open spec fn magnitude(bits: u32) -> int {
    if bits < SIGN {
        bits as int
    } else {
        bits - SIGN
    }
}

pub open spec fn is_nan(bits: u32) -> bool {
    magnitude(bits) > INFINITY
}

/// An integer that orders as the number does; both zeros have the same.
pub open spec fn order(bits: u32) -> int {
    if bits < SIGN {
        magnitude(bits)
    } else {
        -magnitude(bits)
    }
}

/// Whether one number is greater than another. Nothing is greater where there is no number.
pub open spec fn exceeds(a: u32, b: u32) -> bool {
    !is_nan(a) && !is_nan(b) && order(a) > order(b)
}

/// Whether one number is as great as another, or greater.
pub open spec fn at_least(a: u32, b: u32) -> bool {
    !is_nan(a) && !is_nan(b) && order(a) >= order(b)
}

/// The place in the total order of all bit patterns: negative ones come first, minus zero before
/// zero, and what is not a number at the ends.
pub open spec fn rank(bits: u32) -> int {
    if bits < SIGN {
        bits as int
    } else {
        SIGN - 1 - bits
    }
}

fn score_magnitude(bits: u32) -> (r: u32)
    ensures
        r == magnitude(bits),
        r < SIGN,
{
    if bits < SIGN {
        bits
    } else {
        bits - SIGN
    }
}

fn score_order(bits: u32) -> (r: i64)
    ensures
        r == order(bits),
{
    let size = score_magnitude(bits) as i64;
    if bits < SIGN {
        size
    } else {
        -size
    }
}

pub fn score_is_nan(bits: u32) -> (r: bool)
    ensures
        r == is_nan(bits),
{
    score_magnitude(bits) > INFINITY
}

pub fn score_exceeds(a: u32, b: u32) -> (r: bool)
    ensures
        r == exceeds(a, b),
{
    !score_is_nan(a) && !score_is_nan(b) && score_order(a) > score_order(b)
}

pub fn score_at_least(a: u32, b: u32) -> (r: bool)
    ensures
        r == at_least(a, b),
{
    !score_is_nan(a) && !score_is_nan(b) && score_order(a) >= score_order(b)
}

pub fn score_rank(bits: u32) -> (r: i64)
    ensures
        r == rank(bits),
{
    if bits < SIGN {
        bits as i64
    } else {
        (SIGN - 1) as i64 - bits as i64
    }
}

/// The total order puts no two bit patterns in the same place.
pub proof fn law_ranks_are_distinct(a: u32, b: u32)
    requires
        rank(a) == rank(b),
    ensures
        a == b,
{
}

/// Between numbers, the greater one has the higher rank.
pub proof fn law_rank_follows_order(a: u32, b: u32)
    ensures
        exceeds(a, b) ==> rank(a) > rank(b),
        !is_nan(a) && !is_nan(b) ==> exceeds(a, b) || exceeds(b, a) || order(a) == order(b),
{
}

/// Being greater is an order, and the opposite of being at most as great, among numbers; what is no
/// number is neither greater nor as great as anything.
pub proof fn law_scores_compare_as_numbers(a: u32, b: u32, c: u32)
    ensures
        !exceeds(a, a),
        exceeds(a, b) && exceeds(b, c) ==> exceeds(a, c),
        !is_nan(a) && !is_nan(b) ==> (at_least(a, b) <==> !exceeds(b, a)),
        is_nan(a) ==> !exceeds(a, b) && !exceeds(b, a) && !at_least(a, b) && !at_least(b, a),
{
}

/// Numbers without a sign compare as their bits do, numbers with a sign the other way round and
/// below all others; zero and minus zero are as great as each other.
pub proof fn law_bits_order_numbers(a: u32, b: u32)
    ensures
        a < 0x8000_0000 && b < 0x8000_0000 && a <= 0x7f80_0000 && b <= 0x7f80_0000 ==> (exceeds(a, b)
            <==> a > b),
        0x8000_0000 <= a <= 0xff80_0000 && 0x8000_0000 <= b <= 0xff80_0000 ==> (exceeds(a, b)
            <==> a < b),
        a <= 0x7f80_0000 && 0x8000_0000 < b <= 0xff80_0000 ==> exceeds(a, b),
        at_least(0, 0x8000_0000) && at_least(0x8000_0000, 0),
        0x7f80_0000 < a < 0x8000_0000 || a > 0xff80_0000 <==> is_nan(a),
{
}

} // verus!
