//! The frame counter of an animated bone.

use vstd::prelude::*;

verus! {

/// The frame that follows `frame` in a cycle of `duration` frames, which are
/// counted from 1.
pub open spec fn next_frame_spec(frame: u32, duration: u32) -> u32 {
    if frame >= duration {
        1
    } else {
        (frame + 1) as u32
    }
}

/// The frame that follows `frame`: the next one, or the first after the last.
pub fn next_frame(frame: u32, duration: u32) -> (r: u32)
    ensures
        r == next_frame_spec(frame, duration),
        r >= 1,
{
    if frame >= duration {
        1
    } else {
        frame + 1
    }
}

} // verus!
