//! The last step of flat shading: from a light level to a stored intensity.

use vstd::prelude::*;
use crate::bounds::clamp;

verus! {

/// The largest intensity that a cell can store.
pub const MAX_INTENSITY: usize = 255;

/// Turns the light level of a face, already scaled to the range from 0 to
/// 256 and truncated to a whole number, into the intensity to store: levels
/// above the largest intensity are held at it.
pub fn intensity_of_level(level: usize) -> (intensity: u8)
    ensures
        intensity == if level > MAX_INTENSITY {
            MAX_INTENSITY
        } else {
            level
        },
{
    let bounded: usize = clamp(level, 0, MAX_INTENSITY);
    bounded as u8
}

} // verus!
