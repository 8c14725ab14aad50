//! The loop range model: a pair of endpoints in seconds, kept ordered and
//! inside the file.
//!
//! The playback engine and the waveform view both go through this type, so
//! that they cannot disagree about where a loop lies.

use vstd::prelude::*;
use crate::time::Seconds;

verus! {

/// A span `[start, end]` of the file, in seconds.
#[derive(Clone, Copy, Debug, PartialEq, Eq, Structural)]
pub struct LoopRange {
    pub start: Seconds,
    pub end: Seconds,
}

/// `x` held inside `[lo, hi]`.
pub open spec fn clamp_between(x: int, lo: int, hi: int) -> int {
    if x < lo {
        lo
    } else if x > hi {
        hi
    } else {
        x
    }
}

impl LoopRange {
    /// The endpoints are in order.
    pub open spec fn is_ordered(&self) -> bool {
        self.start@ <= self.end@
    }

    /// The range is ordered and lies inside `[0, duration]`.
    pub open spec fn within(&self, duration: Seconds) -> bool {
        0 <= self.start@ <= self.end@ <= duration@
    }

    /// The range between two endpoints given in either order.
    pub fn ordered(a: Seconds, b: Seconds) -> (r: LoopRange)
        ensures
            r.is_ordered(),
            r.start@ == if a@ <= b@ { a@ } else { b@ },
            r.end@ == if a@ <= b@ { b@ } else { a@ },
    {
        if a.nanos <= b.nanos {
            LoopRange { start: a, end: b }
        } else {
            LoopRange { start: b, end: a }
        }
    }

    /// The range with both endpoints held inside `[0, duration]`, and put in
    /// order where that is needed.
    pub fn clamp(self, duration: Seconds) -> (r: LoopRange)
        requires
            duration@ >= 0,
        ensures
            r.within(duration),
            ({
                let s = clamp_between(self.start@, 0, duration@);
                let e = clamp_between(self.end@, 0, duration@);
                &&& r.start@ == if e < s { e } else { s }
                &&& r.end@ == if e < s { s } else { e }
            }),
    {
        let start: i64 = if self.start.nanos < 0 {
            0
        } else if self.start.nanos > duration.nanos {
            duration.nanos
        } else {
            self.start.nanos
        };
        let end: i64 = if self.end.nanos < 0 {
            0
        } else if self.end.nanos > duration.nanos {
            duration.nanos
        } else {
            self.end.nanos
        };
        if end < start {
            LoopRange { start: Seconds { nanos: end }, end: Seconds { nanos: start } }
        } else {
            LoopRange { start: Seconds { nanos: start }, end: Seconds { nanos: end } }
        }
    }

    /// The length of the range: `end - start`, not below zero and not above
    /// the longest span a [`Seconds`] can hold.
    pub fn duration(&self) -> (d: Seconds)
        ensures
            d@ == clamp_between(self.end@ - self.start@, 0, i64::MAX as int),
    {
        if self.end.nanos <= self.start.nanos {
            Seconds { nanos: 0 }
        } else {
            let span: i128 = self.end.nanos as i128 - self.start.nanos as i128;
            if span > i64::MAX as i128 {
                Seconds { nanos: i64::MAX }
            } else {
                Seconds { nanos: span as i64 }
            }
        }
    }
}

} // verus!
