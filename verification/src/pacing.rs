//! Frame pacing for the host loop. Times are nanoseconds from any fixed
//! origin the host picks. Without audio output the clock alone decides when
//! the next frame runs; with it, a frame runs whenever the audio queue has
//! drained to its target, and the clock only forces one when the queue has
//! held back four frame times.

use vstd::prelude::*;

verus! {

/// One frame time at 60 Hz, in nanoseconds.
pub const FRAME_NS: i64 = 16_666_667;

/// What the host loop does next.
#[derive(Clone, Copy, Debug, PartialEq, Eq, Structural)]
pub struct Pace {
    /// Run one frame now.
    pub due: bool,
    /// The time the frame after it is due.
    pub next_frame: i64,
    /// The time to wake and ask again.
    pub wake: i64,
}

/// Whether a frame is due at `now`. `audio` is the number of samples queued
/// for output and the number the output aims to keep queued.
pub open spec fn frame_due(now: int, next_frame: int, audio: Option<(usize, usize)>) -> bool {
    match audio {
        Some((queued, target)) => queued <= target || now >= next_frame + 4 * FRAME_NS,
        None => now >= next_frame,
    }
}

/// When the next frame is due: one frame time after the last due time, but
/// never more than one frame time behind `now`.
pub open spec fn next_due(now: int, next_frame: int, due: bool) -> int {
    if !due {
        next_frame
    } else if next_frame + FRAME_NS >= now - FRAME_NS {
        next_frame + FRAME_NS
    } else {
        now - FRAME_NS
    }
}

/// When to wake: an eighth of a frame on with audio output, else when the
/// next frame is due.
pub open spec fn wake_time(now: int, next: int, audio: Option<(usize, usize)>) -> int {
    match audio {
        Some(_) => now + FRAME_NS / 8,
        None => next,
    }
}

/// Decides at time `now`, with the next frame due at `next_frame`, whether
/// to run a frame, when the one after it is due, and when to wake.
pub fn pace(now: i64, next_frame: i64, audio: Option<(usize, usize)>) -> (p: Pace)
    requires
        next_frame + 4 * FRAME_NS <= i64::MAX,
        now - FRAME_NS >= i64::MIN,
        now + FRAME_NS / 8 <= i64::MAX,
    ensures
        p.due == frame_due(now as int, next_frame as int, audio),
        p.next_frame == next_due(now as int, next_frame as int, p.due),
        p.wake == wake_time(now as int, p.next_frame as int, audio),
{
    let due = match audio {
        Some((queued, target)) => queued <= target || now >= next_frame + 4 * FRAME_NS,
        None => now >= next_frame,
    };
    let next = if !due {
        next_frame
    } else if next_frame + FRAME_NS >= now - FRAME_NS {
        next_frame + FRAME_NS
    } else {
        now - FRAME_NS
    };
    let wake = match audio {
        Some(_) => now + FRAME_NS / 8,
        None => next,
    };
    Pace { due, next_frame: next, wake }
}

/// A frame that runs moves the due time on by at least one frame time, and
/// leaves it no more than one frame time behind the clock; a frame that
/// does not run leaves it where it was.
pub proof fn law_due_time_advances(now: int, next_frame: int, due: bool)
    ensures
        due ==> next_due(now, next_frame, due) >= next_frame + FRAME_NS,
        due ==> next_due(now, next_frame, due) >= now - FRAME_NS,
        !due ==> next_due(now, next_frame, due) == next_frame,
{
}

} // verus!
