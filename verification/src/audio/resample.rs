//! Linear interpolation between two samples and the volume gain, in exact
//! integer arithmetic.
//!
//! A playhead is a whole source frame and a fraction of the next one, the
//! fraction counted in units of one over the device's sample rate. Each
//! output frame moves the playhead by `source_rate / device_rate` frames,
//! that is by `source_rate` such units.

use vstd::prelude::*;
use vstd::arithmetic::div_mod::{lemma_div_is_ordered, lemma_div_multiples_vanish};
use crate::math::div_floor;
use crate::time::{Seconds, NANOS_PER_SECOND};

verus! {

/// The volume that leaves samples as they are.
pub const UNITY_GAIN: u32 = 0x1_0000;

/// The value at `frac / den` of the way from `s0` to `s1`, rounded down.
pub open spec fn lerp(s0: int, s1: int, frac: int, den: int) -> int {
    s0 + (s1 - s0) * frac / den
}

/// `x` limited to the range of a sample.
pub open spec fn clamp_sample(x: int) -> int {
    if x < i32::MIN {
        i32::MIN as int
    } else if x > i32::MAX {
        i32::MAX as int
    } else {
        x
    }
}

/// Sample `s` scaled by `volume / UNITY_GAIN`, rounded down and limited to
/// the range of a sample.
pub open spec fn apply_gain(s: int, volume: int) -> int {
    clamp_sample(s * volume / (UNITY_GAIN as int))
}

/// One output sample: the interpolation between two source samples, scaled
/// by the volume.
pub open spec fn mix(s0: int, s1: int, frac: int, den: int, volume: int) -> int {
    apply_gain(lerp(s0, s1, frac, den), volume)
}

/// A fraction of a difference lies between zero and the difference.
pub proof fn lemma_fraction_between(x: int, frac: int, den: int)
    requires
        0 <= frac < den,
    ensures
        x >= 0 ==> 0 <= x * frac / den <= x,
        x <= 0 ==> x <= x * frac / den <= 0,
{
    lemma_div_multiples_vanish(x, den);
    assert(x * den == den * x) by (nonlinear_arith);
    assert(0int / den == 0) by {
        lemma_div_multiples_vanish(0, den);
    }
    if x >= 0 {
        assert(0 <= x * frac <= x * den) by (nonlinear_arith)
            requires
                x >= 0,
                0 <= frac < den,
        ;
        lemma_div_is_ordered(0, x * frac, den);
        lemma_div_is_ordered(x * frac, x * den, den);
    }
    if x <= 0 {
        assert(x * den <= x * frac <= 0) by (nonlinear_arith)
            requires
                x <= 0,
                0 <= frac < den,
        ;
        lemma_div_is_ordered(x * frac, 0, den);
        lemma_div_is_ordered(x * den, x * frac, den);
    }
}

/// Computes one output sample.
pub fn mix_sample(s0: i32, s1: i32, frac: u32, den: u32, volume: u32) -> (r: i32)
    requires
        frac < den,
    ensures
        r == mix(s0 as int, s1 as int, frac as int, den as int, volume as int),
{
    let diff: i128 = s1 as i128 - s0 as i128;
    assert(-0x1_0000_0000 * 0x1_0000_0000int <= diff * frac <= 0x1_0000_0000 * 0x1_0000_0000int)
        by (nonlinear_arith)
        requires
            -0x1_0000_0000 <= diff <= 0x1_0000_0000,
            0 <= frac <= 0x1_0000_0000,
    ;
    let part: i128 = div_floor(diff * (frac as i128), den as i128);
    proof {
        lemma_fraction_between(diff as int, frac as int, den as int);
    }
    let mid: i128 = s0 as i128 + part;
    assert(-0x1_0000_0000 * 0x1_0000_0000int <= mid * volume <= 0x1_0000_0000 * 0x1_0000_0000int)
        by (nonlinear_arith)
        requires
            -0x1_0000_0000 <= mid <= 0x1_0000_0000,
            0 <= volume <= 0x1_0000_0000,
    ;
    let scaled: i128 = div_floor(mid * (volume as i128), UNITY_GAIN as i128);
    if scaled < i32::MIN as i128 {
        i32::MIN
    } else if scaled > i32::MAX as i128 {
        i32::MAX
    } else {
        scaled as i32
    }
}

/// The source time of a playhead at `frame + frac / device_rate` frames, in
/// nanoseconds rounded down, and no more than the longest span a
/// [`Seconds`] can hold.
pub open spec fn playhead_nanos(frame: int, frac: int, device_rate: int, sample_rate: int) -> int {
    let exact = (frame * device_rate + frac) * (NANOS_PER_SECOND as int) / (device_rate
        * sample_rate);
    if exact > i64::MAX {
        i64::MAX as int
    } else {
        exact
    }
}

/// The source time of a playhead.
pub fn playhead_seconds(frame: u64, frac: u32, device_rate: u32, sample_rate: u32) -> (t: Seconds)
    requires
        device_rate > 0,
        sample_rate > 0,
    ensures
        t@ == playhead_nanos(frame as int, frac as int, device_rate as int, sample_rate as int),
{
    assert(0 <= frame * device_rate <= 0x1_0000_0000_0000_0000 * 0x1_0000_0000int)
        by (nonlinear_arith)
        requires
            0 <= frame <= 0x1_0000_0000_0000_0000,
            0 <= device_rate <= 0x1_0000_0000,
    ;
    let ticks: u128 = (frame as u128) * (device_rate as u128) + frac as u128;
    assert(0 <= ticks * 1_000_000_000 <= 0x2_0000_0000_0000_0000_0000_0000 * 1_000_000_000int)
        by (nonlinear_arith)
        requires
            0 <= ticks <= 0x2_0000_0000_0000_0000_0000_0000,
    ;
    assert(0 < device_rate * sample_rate <= 0x1_0000_0000 * 0x1_0000_0000int)
        by (nonlinear_arith)
        requires
            0 < device_rate <= 0x1_0000_0000,
            0 < sample_rate <= 0x1_0000_0000,
    ;
    let per_second: u128 = (device_rate as u128) * (sample_rate as u128);
    let exact: u128 = ticks * 1_000_000_000u128 / per_second;
    if exact > i64::MAX as u128 {
        Seconds { nanos: i64::MAX }
    } else {
        Seconds { nanos: exact as i64 }
    }
}

} // verus!
