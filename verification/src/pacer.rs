//! Frame pacing: how long to sleep after a frame so that the loop does not
//! run faster than the configured rate.

use vstd::prelude::*;

verus! {

/// Nanoseconds in one second.
pub const NANOS_PER_SECOND: u64 = 1_000_000_000;

/// The time one frame may take at `fps` frames per second, in whole
/// nanoseconds.
pub open spec fn frame_budget(fps: nat) -> nat
    recommends
        fps > 0,
{
    NANOS_PER_SECOND as nat / fps
}

/// The sleep that caps the loop at `target_fps`: nothing when the rate is
/// uncapped or the frame already used up its budget, else the rest of the
/// budget.
pub open spec fn sleep_for(frame_cost: nat, target_fps: Option<u64>) -> nat {
    match target_fps {
        None => 0,
        Some(fps) => if frame_cost < frame_budget(fps as nat) {
            (frame_budget(fps as nat) - frame_cost) as nat
        } else {
            0
        },
    }
}

/// Returns how many nanoseconds to sleep after a frame that took
/// `frame_cost` nanoseconds.
///
/// A late frame is never compensated for: the result is zero and the next
/// frame starts at once.
pub fn pace(frame_cost: u64, target_fps: Option<u64>) -> (sleep: u64)
    requires
        target_fps matches Some(fps) ==> fps > 0,
    ensures
        sleep == sleep_for(frame_cost as nat, target_fps),
        sleep + frame_cost >= sleep_for(0, target_fps),
        target_fps is None ==> sleep == 0,
{
    match target_fps {
        None => 0,
        Some(fps) => {
            let budget: u64 = NANOS_PER_SECOND / fps;
            if frame_cost < budget {
                budget - frame_cost
            } else {
                0
            }
        },
    }
}

} // verus!
