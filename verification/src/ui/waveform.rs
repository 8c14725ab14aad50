//! The waveform view's window onto the file, and what a frame of the view
//! reports back.

use vstd::prelude::*;
use crate::loop_range::clamp_between;
use crate::time::{Seconds, NANOS_PER_SECOND};

verus! {

/// The span of one preview value: 20 ms.
pub const BUCKET_NANOS: i64 = 20_000_000;

/// What one frame of the waveform view reports: the visible window after
/// panning, and the pointer's gesture.
#[derive(Debug, Clone, Copy)]
pub struct WaveformResult {
    pub x_min: Seconds,
    pub x_max: Seconds,
    /// The time under the pointer, where the pointer is over the view.
    pub pointer_seconds: Option<Seconds>,
    pub drag_started: bool,
    pub drag_active: bool,
    pub drag_released: bool,
    pub shift_down: bool,
}

impl WaveformResult {
    /// The report of a view that has nothing to show.
    pub fn empty() -> (r: WaveformResult)
        ensures
            r.x_min@ == 0,
            r.x_max@ == 0,
            r.pointer_seconds is None,
            !r.drag_started && !r.drag_active && !r.drag_released && !r.shift_down,
    {
        WaveformResult {
            x_min: Seconds { nanos: 0 },
            x_max: Seconds { nanos: 0 },
            pointer_seconds: None,
            drag_started: false,
            drag_active: false,
            drag_released: false,
            shift_down: false,
        }
    }
}

/// The time that a preview of `buckets` values covers, and no more than the
/// longest span a [`Seconds`] can hold.
pub open spec fn preview_span(buckets: int) -> int {
    clamp_between(buckets * BUCKET_NANOS as int, 0, i64::MAX as int)
}

/// The time that a preview of `buckets` values covers.
pub fn preview_duration(buckets: usize) -> (d: Seconds)
    ensures
        d@ == preview_span(buckets as int),
{
    let span: u128 = (buckets as u128) * (BUCKET_NANOS as u128);
    if span > i64::MAX as u128 {
        Seconds { nanos: i64::MAX }
    } else {
        Seconds { nanos: span as i64 }
    }
}

/// The instant `t` held inside `[0, duration]`.
pub fn clamp_to_file(t: Seconds, duration: Seconds) -> (r: Seconds)
    requires
        duration@ >= 0,
    ensures
        r@ == clamp_between(t@, 0, duration@),
{
    if t.nanos < 0 {
        Seconds { nanos: 0 }
    } else if t.nanos > duration.nanos {
        duration
    } else {
        t
    }
}

/// The upper bound of the window that `view_window` shows.
pub open spec fn window_max(x_min: int, x_max: int, duration: int) -> int {
    let lo = clamp_between(x_min, 0, duration);
    let hi = clamp_between(x_max, 0, duration);
    if hi <= lo {
        if lo + NANOS_PER_SECOND > duration {
            duration
        } else {
            lo + NANOS_PER_SECOND
        }
    } else {
        hi
    }
}

/// The window that the view shows for the bounds it was asked for: both
/// bounds held inside the file, and an empty window widened to one second or
/// to the file's end.
pub fn view_window(x_min: Seconds, x_max: Seconds, duration: Seconds) -> (r: (Seconds, Seconds))
    requires
        duration@ >= 0,
    ensures
        r.0@ == clamp_between(x_min@, 0, duration@),
        r.1@ == window_max(x_min@, x_max@, duration@),
        0 <= r.0@ <= r.1@ <= duration@,
{
    let lo = clamp_to_file(x_min, duration);
    let hi = clamp_to_file(x_max, duration);
    if hi.nanos <= lo.nanos {
        let widened: i64 = if duration.nanos - lo.nanos < NANOS_PER_SECOND {
            duration.nanos
        } else {
            lo.nanos + NANOS_PER_SECOND
        };
        (lo, Seconds { nanos: widened })
    } else {
        (lo, hi)
    }
}

} // verus!
