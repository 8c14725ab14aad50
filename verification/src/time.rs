//! Time spans at nanosecond resolution and their conversion to and from frame
//! counts.

use vstd::prelude::*;
use vstd::arithmetic::div_mod::{lemma_fundamental_div_mod, lemma_mod_bound};
use crate::math::div_floor;

verus! {

/// Nanoseconds in one second.
pub const NANOS_PER_SECOND: i64 = 1_000_000_000;

/// A signed span of time, held as a whole number of nanoseconds.
#[derive(Clone, Copy, Debug, PartialEq, Eq, Structural)]
pub struct Seconds {
    pub nanos: i64,
}

impl View for Seconds {
    type V = int;

    open spec fn view(&self) -> int {
        self.nanos as int
    }
}

/// The span of `frames` frames at `sample_rate`, in nanoseconds rounded
/// down, and no more than the longest span a [`Seconds`] can hold.
pub open spec fn frames_to_seconds(frames: int, sample_rate: int) -> int {
    let exact = frames * NANOS_PER_SECOND as int / sample_rate;
    if exact > i64::MAX {
        i64::MAX as int
    } else {
        exact
    }
}

/// The frame in which the instant `nanos` falls, at `sample_rate`.
pub open spec fn frame_floor(nanos: int, sample_rate: int) -> int {
    nanos * sample_rate / (NANOS_PER_SECOND as int)
}

/// The first frame that starts at or after the instant `nanos`, at
/// `sample_rate`.
pub open spec fn frame_ceil(nanos: int, sample_rate: int) -> int {
    -((-(nanos * sample_rate)) / (NANOS_PER_SECOND as int))
}

impl Seconds {
    pub fn from_nanos(nanos: i64) -> (s: Seconds)
        ensures
            s@ == nanos,
    {
        Seconds { nanos }
    }

    pub fn zero() -> (s: Seconds)
        ensures
            s@ == 0,
    {
        Seconds { nanos: 0 }
    }

    /// The span of `frames` frames at `sample_rate`.
    pub fn from_frames(frames: u64, sample_rate: u32) -> (s: Seconds)
        requires
            sample_rate > 0,
        ensures
            s@ == frames_to_seconds(frames as int, sample_rate as int),
    {
        assert(frames * 1_000_000_000 <= 0xFFFF_FFFF_FFFF_FFFF * 1_000_000_000int)
            by (nonlinear_arith)
            requires
                0 <= frames <= 0xFFFF_FFFF_FFFF_FFFF,
        ;
        let exact: u128 = (frames as u128) * 1_000_000_000u128 / (sample_rate as u128);
        if exact > i64::MAX as u128 {
            Seconds { nanos: i64::MAX }
        } else {
            Seconds { nanos: exact as i64 }
        }
    }

    /// The frame in which this instant falls, at `sample_rate`.
    pub fn frame_floor(self, sample_rate: u32) -> (frame: i128)
        ensures
            frame == frame_floor(self@, sample_rate as int),
            -0x1_0000_0000_0000_0000_0000_0000 < frame < 0x1_0000_0000_0000_0000_0000_0000,
    {
        assert(-0x8000_0000_0000_0000 * 0x1_0000_0000int <= self.nanos * sample_rate
            <= 0x8000_0000_0000_0000 * 0x1_0000_0000int) by (nonlinear_arith)
            requires
                -0x8000_0000_0000_0000 <= self.nanos <= 0x8000_0000_0000_0000,
                0 <= sample_rate <= 0x1_0000_0000,
        ;
        let product: i128 = (self.nanos as i128) * (sample_rate as i128);
        proof {
            lemma_fundamental_div_mod(product as int, NANOS_PER_SECOND as int);
            lemma_mod_bound(product as int, NANOS_PER_SECOND as int);
        }
        div_floor(product, NANOS_PER_SECOND as i128)
    }

    /// The first frame that starts at or after this instant, at
    /// `sample_rate`.
    pub fn frame_ceil(self, sample_rate: u32) -> (frame: i128)
        ensures
            frame == frame_ceil(self@, sample_rate as int),
            -0x1_0000_0000_0000_0000_0000_0000 < frame < 0x1_0000_0000_0000_0000_0000_0000,
    {
        assert(-0x8000_0000_0000_0000 * 0x1_0000_0000int <= self.nanos * sample_rate
            <= 0x8000_0000_0000_0000 * 0x1_0000_0000int) by (nonlinear_arith)
            requires
                -0x8000_0000_0000_0000 <= self.nanos <= 0x8000_0000_0000_0000,
                0 <= sample_rate <= 0x1_0000_0000,
        ;
        let product: i128 = (self.nanos as i128) * (sample_rate as i128);
        proof {
            lemma_fundamental_div_mod(-product as int, NANOS_PER_SECOND as int);
            lemma_mod_bound(-product as int, NANOS_PER_SECOND as int);
        }
        let down: i128 = div_floor(-product, NANOS_PER_SECOND as i128);
        -down
    }
}

} // verus!
