//! The cadence of the render loop: when to look at the terminal size, and
//! how long to rest after a frame.

use vstd::prelude::*;

verus! {

/// The terminal size is looked at once in this many frames.
pub const POLL_INTERVAL: u64 = 6;

/// Microseconds in one second.
pub const MICROS_PER_SECOND: u64 = 1000000;

/// Tells whether the terminal size is to be looked at before the frame with
/// this number, counted from zero.
pub fn poll_due(frame: u64) -> (due: bool)
    ensures
        due == (frame % POLL_INTERVAL == 0),
{
    frame % POLL_INTERVAL == 0
}

/// The time that one frame may take at a rate of `fps` frames in a second, in
/// whole microseconds. A rate of zero has no such time.
pub fn frame_interval_micros(fps: u64) -> (interval: Option<u64>)
    ensures
        interval == if fps == 0 {
            None
        } else {
            Some((MICROS_PER_SECOND / fps) as u64)
        },
{
    if fps == 0 {
        None
    } else {
        Some(MICROS_PER_SECOND / fps)
    }
}

/// The time to rest after a frame that took `elapsed` microseconds, where a
/// frame may take `interval`: what is left of the interval, and nothing
/// where the frame took as long or longer.
pub fn rest_micros(interval: u64, elapsed: u64) -> (rest: u64)
    ensures
        rest == if interval > elapsed {
            interval - elapsed
        } else {
            0
        },
{
    if interval > elapsed {
        interval - elapsed
    } else {
        0
    }
}

} // verus!
