//! The reading measure: how many characters a line of body text should hold.
//!
//! The width that delivers a measure depends on the face and size and is
//! found by shaping a prose sample; what is fixed here is the character count
//! and the range a stored setting is brought into.
use vstd::prelude::*;

verus! {

/// The sample whose shaped advance defines one character's mean width:
/// lowercase English prose with its natural spacing.
pub const PROSE_SAMPLE: &'static str = "the quick brown fox jumps over a lazy dog while the rest of the type sets itself into an ordinary line of running text";

/// The default reading measure in characters, the middle of the 72-80 band.
pub const DEFAULT_MEASURE_CHARS: u32 = 76;

/// The narrowest accepted user-set measure, in characters.
pub const MIN_MEASURE_CHARS: u32 = 20;

/// The widest accepted user-set measure, in characters.
pub const MAX_MEASURE_CHARS: u32 = 160;

/// A measure setting brought into
/// [`MIN_MEASURE_CHARS`]`..=`[`MAX_MEASURE_CHARS`]: a value outside the range
/// is clamped to the nearer end, one inside it is kept.
pub fn clamp_measure_chars(chars: u32) -> (r: u32)
    ensures
        MIN_MEASURE_CHARS <= r <= MAX_MEASURE_CHARS,
        MIN_MEASURE_CHARS <= chars <= MAX_MEASURE_CHARS ==> r == chars,
        chars < MIN_MEASURE_CHARS ==> r == MIN_MEASURE_CHARS,
        chars > MAX_MEASURE_CHARS ==> r == MAX_MEASURE_CHARS,
{
    if chars < MIN_MEASURE_CHARS {
        MIN_MEASURE_CHARS
    } else if chars > MAX_MEASURE_CHARS {
        MAX_MEASURE_CHARS
    } else {
        chars
    }
}

} // verus!
