//! What the frame loop shows about itself.

use vstd::prelude::*;

verus! {

/// The frames per second that a frame time in milliseconds amounts to. One
/// millisecond is added to the frame time, so that a frame that took no
/// time counts as a thousand frames per second.
pub fn frames_per_second(delta_millis: u128) -> (fps: u128)
    requires
        delta_millis < u128::MAX,
    ensures
        fps == 1000int / (delta_millis + 1),
{
    1000 / (delta_millis + 1)
}

} // verus!
