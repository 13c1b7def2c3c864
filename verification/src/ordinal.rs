//! Real numbers as integers that are ordered as the numbers are.
//!
//! The library compares integers only. A sample's entry and a split's
//! threshold are doubles in the caller's hands; each enters as its ordinal,
//! which is computed from the bits of the double. The two kinds of ordinal
//! differ on what is no number: such an entry is above every threshold, and
//! such a threshold is below every entry, so that neither is ever "at most".

use vstd::prelude::*;

verus! {

/// The bits of a double without its sign.
pub open spec fn magnitude(bits: u64) -> u64 {
    bits & 0x7FFF_FFFF_FFFF_FFFF
}

/// Whether the sign bit of a double is set.
pub open spec fn is_negative(bits: u64) -> bool {
    bits & 0x8000_0000_0000_0000 != 0
}

/// Whether the bits are those of no number: the exponent is all ones and the
/// fraction is not zero.
pub open spec fn is_nan(bits: u64) -> bool {
    magnitude(bits) > 0x7FF0_0000_0000_0000
}

/// The place of a double among the doubles. Doubles of one sign are ordered
/// as their bits are, so the place is the magnitude, taken negative under a
/// sign bit. Both zeros have place 0.
pub open spec fn rank(bits: u64) -> int {
    if is_negative(bits) {
        -(magnitude(bits) as int)
    } else {
        magnitude(bits) as int
    }
}

/// What `<=` says of two doubles: both are numbers, and the first is not the
/// greater.
pub open spec fn at_most(a: u64, b: u64) -> bool {
    !is_nan(a) && !is_nan(b) && rank(a) <= rank(b)
}

/// The ordinal of a sample's entry.
pub open spec fn spec_sample_ordinal(bits: u64) -> int {
    if is_nan(bits) {
        i64::MAX as int
    } else {
        rank(bits)
    }
}

/// The ordinal of a split's threshold.
pub open spec fn spec_threshold_ordinal(bits: u64) -> int {
    if is_nan(bits) {
        i64::MIN as int
    } else {
        rank(bits)
    }
}

/// The place of a number, as a machine integer.
fn rank_of(bits: u64) -> (r: i64)
    requires
        !is_nan(bits),
    ensures
        r == rank(bits),
{
    let magnitude = bits & 0x7FFF_FFFF_FFFF_FFFF;
    if bits & 0x8000_0000_0000_0000 != 0 {
        -(magnitude as i64)
    } else {
        magnitude as i64
    }
}

/// The ordinal of a sample's entry, from the bits of the double: its place,
/// or, for what is no number, an ordinal above every threshold's.
pub fn sample_ordinal(bits: u64) -> (ordinal: i64)
    ensures
        ordinal == spec_sample_ordinal(bits),
{
    if bits & 0x7FFF_FFFF_FFFF_FFFF > 0x7FF0_0000_0000_0000 {
        i64::MAX
    } else {
        rank_of(bits)
    }
}

/// The ordinal of a split's threshold, from the bits of the double: its place,
/// or, for what is no number, an ordinal below every entry's.
pub fn threshold_ordinal(bits: u64) -> (ordinal: i64)
    ensures
        ordinal == spec_threshold_ordinal(bits),
{
    if bits & 0x7FFF_FFFF_FFFF_FFFF > 0x7FF0_0000_0000_0000 {
        i64::MIN
    } else {
        rank_of(bits)
    }
}

/// An entry's ordinal is at most a threshold's exactly where the entry is at
/// most the threshold, as `<=` on doubles has it.
pub proof fn lemma_ordinals_compare_as_doubles(entry: u64, threshold: u64)
    ensures
        spec_sample_ordinal(entry) <= spec_threshold_ordinal(threshold) <==> at_most(
            entry,
            threshold,
        ),
{
}

} // verus!
