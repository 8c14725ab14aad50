//! The RMS preview: one amplitude value per fixed window of frames.
//!
//! A frame is reduced to the average of its channels, and a window to the
//! root of the mean square of its frames. Both steps are folded into one
//! exact quotient, so the only rounding is the final square root:
//! `rms = floor(sqrt(sum of (frame sum)^2 / (frames * channels^2)))`.
//!
//! Windows run over the stream as a whole: where one chunk ends and the
//! next begins has no effect on the preview. Frames left over after the last
//! full window form a shorter last window.

use vstd::prelude::*;
use vstd::arithmetic::div_mod::{lemma_fundamental_div_mod, lemma_mod_bound};
use crate::math::{
    is_isqrt, isqrt, isqrt_u64, lemma_div_mod_step, lemma_floor_div_unique, lemma_isqrt_exists,
    lemma_multiple_mod,
};

verus! {

/// Preview windows per second of audio.
pub const WINDOWS_PER_SECOND: u32 = 50;

/// No sample is larger in magnitude than this.
pub const SAMPLE_PEAK: i64 = 0x8000_0000;

/// Frames per preview window: `sample_rate / 50` rounded to the nearest
/// whole number, and at least one.
pub open spec fn window_frames(sample_rate: int) -> int {
    let w = (sample_rate + WINDOWS_PER_SECOND as int / 2) / (WINDOWS_PER_SECOND as int);
    if w < 1 {
        1
    } else {
        w
    }
}

/// The sum of `data[lo..hi]`.
pub open spec fn sum_samples(data: Seq<i32>, lo: int, hi: int) -> int
    decreases hi - lo,
{
    if hi <= lo {
        0
    } else {
        sum_samples(data, lo, hi - 1) + data[hi - 1] as int
    }
}

/// The sum of the channels of frame `f` of interleaved `data`.
pub open spec fn frame_sum(data: Seq<i32>, channels: int, f: int) -> int {
    sum_samples(data, f * channels, f * channels + channels)
}

/// The sum over frames `lo..hi` of the squared frame sums.
pub open spec fn energy(data: Seq<i32>, channels: int, lo: int, hi: int) -> int
    decreases hi - lo,
{
    if hi <= lo {
        0
    } else {
        energy(data, channels, lo, hi - 1) + frame_sum(data, channels, hi - 1) * frame_sum(
            data,
            channels,
            hi - 1,
        )
    }
}

/// The RMS of the channel averages of frames `lo..hi`, rounded down.
pub open spec fn window_rms(data: Seq<i32>, channels: int, lo: int, hi: int) -> int {
    isqrt(energy(data, channels, lo, hi) / ((hi - lo) * channels * channels))
}

/// The number of preview values for `total` frames: every full window and a
/// shorter last one where frames are left over.
pub open spec fn preview_len(total: int, window: int) -> int {
    (total + window - 1) / window
}

/// The leading part of `samples` that is made of whole frames.
pub open spec fn whole_frames(samples: Seq<i32>, channels: int) -> Seq<i32> {
    samples.subrange(0, (samples.len() as int / channels) * channels)
}

/// Value `k` of the preview of `data`.
pub open spec fn preview_value(data: Seq<i32>, channels: int, window: int, k: int) -> int {
    let total = data.len() as int / channels;
    let hi = if k * window + window <= total { k * window + window } else { total };
    window_rms(data, channels, k * window, hi)
}

/// The preview of interleaved `data`: one RMS value per window of `window`
/// frames, in time order.
pub open spec fn rms_preview(data: Seq<i32>, channels: int, window: int) -> Seq<u32> {
    Seq::new(
        preview_len(data.len() as int / channels, window) as nat,
        |k: int| preview_value(data, channels, window, k) as u32,
    )
}

/// Sums over ranges that hold the same values, one shifted by `d`, are equal.
pub proof fn lemma_sum_samples_shift(a: Seq<i32>, b: Seq<i32>, lo: int, hi: int, d: int)
    requires
        forall|i: int| lo <= i < hi ==> a[i] == #[trigger] b[i + d],
    ensures
        sum_samples(a, lo, hi) == sum_samples(b, lo + d, hi + d),
    decreases hi - lo,
{
    if hi > lo {
        lemma_sum_samples_shift(a, b, lo, hi - 1, d);
        assert(a[hi - 1] == b[hi - 1 + d]);
    }
}

/// A sum of samples of magnitude at most `m` has magnitude at most `m` times
/// their number.
pub proof fn lemma_sum_samples_bound(data: Seq<i32>, lo: int, hi: int, m: int)
    requires
        lo <= hi,
        forall|i: int| lo <= i < hi ==> -m <= #[trigger] data[i] <= m,
    ensures
        -((hi - lo) * m) <= sum_samples(data, lo, hi) <= (hi - lo) * m,
    decreases hi - lo,
{
    if hi > lo {
        lemma_sum_samples_bound(data, lo, hi - 1, m);
        assert(-m <= data[hi - 1] <= m);
        assert((hi - lo) * m == (hi - 1 - lo) * m + m) by (nonlinear_arith);
    } else {
        assert((hi - lo) * m == 0) by (nonlinear_arith)
            requires
                hi == lo,
        ;
    }
}

/// The energy of frames `lo..hi` depends only on the samples of those frames.
pub proof fn lemma_energy_agree(a: Seq<i32>, b: Seq<i32>, channels: int, lo: int, hi: int)
    requires
        channels > 0,
        forall|i: int| lo * channels <= i < hi * channels ==> a[i] == #[trigger] b[i],
    ensures
        energy(a, channels, lo, hi) == energy(b, channels, lo, hi),
    decreases hi - lo,
{
    if hi > lo {
        let f = hi - 1;
        assert(lo * channels <= f * channels && f * channels + channels == hi * channels)
            by (nonlinear_arith)
            requires
                lo <= f,
                hi == f + 1,
                channels > 0,
        ;
        assert forall|i: int| lo * channels <= i < f * channels implies a[i]
            == #[trigger] b[i] by {}
        lemma_energy_agree(a, b, channels, lo, f);
        assert forall|i: int| f * channels <= i < f * channels + channels implies a[i]
            == #[trigger] b[i + 0] by {}
        lemma_sum_samples_shift(a, b, f * channels, f * channels + channels, 0);
    }
}

/// Where every sample of frames `lo..hi` has magnitude at most `m`, their
/// energy is at most that of as many frames at full magnitude.
pub proof fn lemma_energy_bound(data: Seq<i32>, channels: int, lo: int, hi: int, m: int)
    requires
        channels > 0,
        lo <= hi,
        m >= 0,
        forall|i: int| lo * channels <= i < hi * channels ==> -m <= #[trigger] data[i] <= m,
    ensures
        0 <= energy(data, channels, lo, hi) <= (hi - lo) * (channels * channels * (m * m)),
    decreases hi - lo,
{
    if hi > lo {
        let f = hi - 1;
        assert(lo * channels <= f * channels && f * channels + channels == hi * channels)
            by (nonlinear_arith)
            requires
                lo <= f,
                hi == f + 1,
                channels > 0,
        ;
        assert forall|i: int| lo * channels <= i < f * channels implies -m <= #[trigger] data[i]
            <= m by {}
        lemma_energy_bound(data, channels, lo, f, m);
        assert forall|i: int| f * channels <= i < f * channels + channels implies -m
            <= #[trigger] data[i] <= m by {}
        lemma_sum_samples_bound(data, f * channels, f * channels + channels, m);
        let s = frame_sum(data, channels, f);
        let c = channels * m;
        assert(-c <= s <= c);
        assert(0 <= s * s <= c * c) by (nonlinear_arith)
            requires
                -c <= s <= c,
        ;
        assert(c * c == channels * channels * (m * m)) by (nonlinear_arith)
            requires
                c == channels * m,
        ;
        assert((hi - lo) * (channels * channels * (m * m)) == (f - lo) * (channels * channels * (m
            * m)) + channels * channels * (m * m)) by (nonlinear_arith)
            requires
                hi == f + 1,
        ;
    }
}

/// Where the mean square `e / n` is at most `m * m`, its root is at most `m`.
pub proof fn lemma_root_of_mean_bound(e: int, n: int, m: int)
    requires
        n > 0,
        m >= 0,
        0 <= e <= n * (m * m),
    ensures
        0 <= e / n <= m * m,
        0 <= isqrt(e / n) <= m,
        is_isqrt(e / n, isqrt(e / n)),
{
    let q = e / n;
    assert(0 <= q <= m * m) by (nonlinear_arith)
        requires
            n > 0,
            0 <= e <= n * (m * m),
            q == e / n,
    ;
    lemma_isqrt_exists(q);
    let r = isqrt(q);
    if r > m {
        assert(r * r > m * m) by (nonlinear_arith)
            requires
                r > m,
                m >= 0,
        ;
    }
}

/// The RMS of a window is never negative and never above the largest sample
/// magnitude in the window.
pub proof fn lemma_window_rms_bound(data: Seq<i32>, channels: int, lo: int, hi: int, m: int)
    requires
        channels > 0,
        lo < hi,
        m >= 0,
        forall|i: int| lo * channels <= i < hi * channels ==> -m <= #[trigger] data[i] <= m,
    ensures
        0 <= window_rms(data, channels, lo, hi) <= m,
{
    lemma_energy_bound(data, channels, lo, hi, m);
    let n = (hi - lo) * channels * channels;
    assert(n > 0 && n * (m * m) == (hi - lo) * (channels * channels * (m * m)))
        by (nonlinear_arith)
        requires
            n == (hi - lo) * channels * channels,
            hi > lo,
            channels > 0,
    ;
    lemma_root_of_mean_bound(energy(data, channels, lo, hi), n, m);
}

/// Every value of a preview is at most the largest sample magnitude among
/// the frames of its window.
pub proof fn lemma_preview_value_bound(
    data: Seq<i32>,
    channels: int,
    window: int,
    k: int,
    m: int,
)
    requires
        channels > 0,
        window > 0,
        m >= 0,
        0 <= k < rms_preview(data, channels, window).len(),
        forall|i: int|
            k * window * channels <= i < (k * window + window) * channels && i < data.len() ==> -m
                <= #[trigger] data[i] <= m,
    ensures
        rms_preview(data, channels, window)[k] <= m,
{
    let total = data.len() as int / channels;
    lemma_fundamental_div_mod(data.len() as int, channels);
    lemma_mod_bound(data.len() as int, channels);
    lemma_preview_len(total, window);
    lemma_div_mod_step(total, window);
    let lo = k * window;
    let hi = if lo + window <= total {
        lo + window
    } else {
        total
    };
    assert(lo < hi) by (nonlinear_arith)
        requires
            lo == k * window,
            hi == if lo + window <= total {
                lo + window
            } else {
                total
            },
            0 <= k,
            k < total / window + if total % window > 0 {
                1int
            } else {
                0
            },
            total == (total / window) * window + total % window,
            0 <= total % window < window,
    ;
    assert(hi * channels <= data.len() && lo * channels == k * window * channels && hi * channels
        <= (k * window + window) * channels) by (nonlinear_arith)
        requires
            hi <= total,
            hi <= lo + window,
            lo == k * window,
            channels > 0,
            data.len() == channels * total + data.len() as int % channels,
            0 <= data.len() as int % channels,
    ;
    lemma_window_rms_bound(data, channels, lo, hi, m);
    // The value fits the preview's type whatever `m` is.
    lemma_window_rms_bound(data, channels, lo, hi, SAMPLE_PEAK as int);
}

/// The sum of one frame of interleaved samples.
fn sum_frame(samples: &Vec<i32>, base: usize, channels: usize) -> (sum: i64)
    requires
        0 < channels <= u16::MAX,
        base + channels <= samples.len(),
    ensures
        sum == sum_samples(samples@, base as int, base + channels),
        -(channels * SAMPLE_PEAK) <= sum <= channels * SAMPLE_PEAK,
{
    let mut sum: i64 = 0;
    let mut c: usize = 0;
    while c < channels
        invariant
            c <= channels <= u16::MAX,
            base + channels <= samples.len(),
            sum == sum_samples(samples@, base as int, base + c),
            -(c * SAMPLE_PEAK) <= sum <= c * SAMPLE_PEAK,
        decreases channels - c,
    {
        let x: i32 = samples[base + c];
        sum = sum + x as i64;
        c = c + 1;
    }
    sum
}

/// Builds the preview of a stream of interleaved samples as they arrive.
pub struct PreviewBuilder {
    channels: u16,
    window: u32,
    acc_sq: u128,
    acc_count: u32,
    total_frames: u64,
    values: Vec<u32>,
    seen: Ghost<Seq<i32>>,
}

impl PreviewBuilder {
    /// All whole frames accepted so far, interleaved.
    pub closed spec fn seen(&self) -> Seq<i32> {
        self.seen@
    }

    /// The channel count of the stream.
    pub closed spec fn channels(&self) -> int {
        self.channels as int
    }

    /// Frames per preview window.
    pub closed spec fn window(&self) -> int {
        self.window as int
    }

    /// The builder's state is the summary of the first `total_frames` frames
    /// of `data`.
    spec fn summarizes(&self, data: Seq<i32>) -> bool {
        let ch = self.channels as int;
        let w = self.window as int;
        let t = self.total_frames as int;
        &&& ch > 0
        &&& 0 < w <= 0x0800_0000
        &&& t * ch <= data.len()
        &&& self.acc_count as int == t % w
        &&& self.values@.len() == t / w
        &&& forall|k: int|
            0 <= k < self.values@.len() ==> #[trigger] self.values@[k] as int == window_rms(
                data,
                ch,
                k * w,
                k * w + w,
            )
        &&& self.acc_sq as int == energy(data, ch, t - self.acc_count, t)
    }

    pub closed spec fn wf(&self) -> bool {
        &&& self.summarizes(self.seen@)
        &&& self.seen@.len() == self.total_frames * self.channels
    }

    /// A well-formed builder has a channel count and a window above zero,
    /// and has seen whole frames only.
    pub proof fn lemma_params_positive(&self)
        requires
            self.wf(),
        ensures
            self.channels() > 0,
            self.window() > 0,
            self.seen().len() % (self.channels() as nat) == 0,
    {
        lemma_multiple_mod(self.total_frames as int, self.channels as int);
    }

    /// A summary of a prefix is a summary of every extension of it.
    proof fn lemma_extend(&self, a: Seq<i32>, b: Seq<i32>)
        requires
            self.summarizes(a),
            a.len() <= b.len(),
            forall|i: int| 0 <= i < a.len() ==> a[i] == #[trigger] b[i],
        ensures
            self.summarizes(b),
    {
        let ch = self.channels as int;
        let w = self.window as int;
        let t = self.total_frames as int;
        lemma_div_mod_step(t, w);
        assert forall|k: int| 0 <= k < self.values@.len() implies #[trigger] self.values@[k] as int
            == window_rms(b, ch, k * w, k * w + w) by {
            assert(0 <= k * w && k * w + w <= t) by (nonlinear_arith)
                requires
                    0 <= k < t / w,
                    t == (t / w) * w + t % w,
                    0 <= t % w,
                    w > 0,
            ;
            assert(0 <= (k * w) * ch && (k * w + w) * ch <= t * ch) by (nonlinear_arith)
                requires
                    0 <= k * w,
                    k * w + w <= t,
                    ch > 0,
            ;
            lemma_energy_agree(a, b, ch, k * w, k * w + w);
        }
        let lo = t - self.acc_count;
        assert(0 <= lo * ch && t * ch <= a.len()) by (nonlinear_arith)
            requires
                0 <= lo,
                ch > 0,
                t * ch <= a.len(),
        ;
        lemma_energy_agree(a, b, ch, lo, t);
    }
}

impl PreviewBuilder {
    /// An empty builder for a stream of `channels` channels at `sample_rate`.
    pub fn new(sample_rate: u32, channels: u16) -> (b: PreviewBuilder)
        requires
            channels > 0,
        ensures
            b.wf(),
            b.seen() == Seq::<i32>::empty(),
            b.channels() == channels,
            b.window() == window_frames(sample_rate as int),
    {
        let per_second: u64 = WINDOWS_PER_SECOND as u64;
        let rounded: u64 = (sample_rate as u64 + per_second / 2) / per_second;
        let window: u32 = if rounded < 1 { 1 } else { rounded as u32 };
        let b = PreviewBuilder {
            channels,
            window,
            acc_sq: 0,
            acc_count: 0,
            total_frames: 0,
            values: Vec::new(),
            seen: Ghost(Seq::empty()),
        };
        proof {
            lemma_div_mod_step(0, window as int);
            assert(0int % (window as int) == 0 && 0int / (window as int) == 0) by {
                lemma_floor_div_unique(0, window as int, 0);
                lemma_fundamental_div_mod(0, window as int);
            }
        }
        b
    }

    /// The number of whole frames accepted so far.
    pub fn total_frames(&self) -> (n: u64)
        requires
            self.wf(),
        ensures
            n == self.seen().len() / (self.channels() as nat),
            n * self.channels() == self.seen().len(),
    {
        proof {
            let ch = self.channels as int;
            let t = self.total_frames as int;
            assert(t * ch <= self.seen@.len() < (t + 1) * ch) by (nonlinear_arith)
                requires
                    self.seen@.len() == t * ch,
                    ch > 0,
            ;
            lemma_floor_div_unique(self.seen@.len() as int, ch, t);
        }
        self.total_frames
    }

    /// Folds the next frame, whose channels add up to `sum`, into the
    /// summary.
    fn absorb(&mut self, sum: i64, Ghost(data): Ghost<Seq<i32>>)
        requires
            old(self).summarizes(data),
            (old(self).total_frames + 1) * old(self).channels <= data.len(),
            old(self).total_frames < u64::MAX,
            sum == frame_sum(data, old(self).channels as int, old(self).total_frames as int),
        ensures
            final(self).summarizes(data),
            final(self).total_frames == old(self).total_frames + 1,
            final(self).channels == old(self).channels,
            final(self).window == old(self).window,
            final(self).seen == old(self).seen,
    {
        let ghost ch = self.channels as int;
        let ghost w = self.window as int;
        let ghost t = self.total_frames as int;
        let ghost c = self.acc_count as int;
        let ghost peak = SAMPLE_PEAK as int;
        proof {
            lemma_div_mod_step(t, w);
            assert(0 <= (t - c) * ch) by (nonlinear_arith)
                requires
                    0 <= t - c,
                    ch > 0,
            ;
            lemma_energy_bound(data, ch, t - c, t + 1, peak);
            lemma_sum_samples_bound(data, t * ch, t * ch + ch, peak);
            assert((c + 1) * (ch * ch * (peak * peak)) <= 0x0800_0000 * (0x1_0000 * 0x1_0000 * (
                0x8000_0000int * 0x8000_0000int))) by (nonlinear_arith)
                requires
                    0 <= c + 1 <= 0x0800_0000,
                    0 < ch <= 0x1_0000,
                    peak == 0x8000_0000,
            ;
            assert(ch * peak <= 0x1_0000 * 0x8000_0000int) by (nonlinear_arith)
                requires
                    0 < ch <= 0x1_0000,
                    peak == 0x8000_0000,
            ;
        }
        let mag: u64 = if sum < 0 { (-sum) as u64 } else { sum as u64 };
        assert(mag * mag == sum * sum && mag * mag <= 0x8000_0000_0000int * 0x8000_0000_0000int)
            by (nonlinear_arith)
            requires
                mag == sum || mag == -sum,
                0 <= mag <= 0x8000_0000_0000,
        ;
        let sq: u128 = (mag as u128) * (mag as u128);
        self.acc_sq = self.acc_sq + sq;
        self.acc_count = self.acc_count + 1;
        self.total_frames = self.total_frames + 1;
        if self.acc_count == self.window {
            assert(0 < w * ch <= 0x0800_0000 * 0x1_0000int) by (nonlinear_arith)
                requires
                    0 < w <= 0x0800_0000,
                    0 < ch <= 0x1_0000,
            ;
            assert(w * ch * ch == (t + 1 - (t - c)) * ch * ch && 0 < w * ch * ch <= 0x0800_0000
                * 0x1_0000 * 0x1_0000int && (w * ch * ch) * (peak * peak) == (c + 1) * (ch * ch * (
            peak * peak))) by (nonlinear_arith)
                requires
                    w == c + 1,
                    0 < w <= 0x0800_0000,
                    0 < ch <= 0x1_0000,
            ;
            let n: u128 = (self.window as u128) * (self.channels as u128) * (self.channels as u128);
            let q: u128 = self.acc_sq / n;
            proof {
                lemma_root_of_mean_bound(self.acc_sq as int, n as int, peak);
            }
            let r: u32 = isqrt_u64(q as u64);
            self.values.push(r);
            self.acc_sq = 0;
            self.acc_count = 0;
            proof {
                let k = t / w;
                assert(k * w == t - c && k * w + w == t + 1) by (nonlinear_arith)
                    requires
                        t == k * w + c,
                        w == c + 1,
                ;
                assert(self.values@[k] as int == window_rms(data, ch, k * w, k * w + w));
            }
        }
    }

    /// Accepts the whole frames of `samples` as the next part of the stream.
    /// A chunk that would take the frame count past `u64::MAX` is refused and
    /// changes nothing.
    pub fn push_frames(&mut self, samples: &Vec<i32>) -> (accepted: bool)
        requires
            old(self).wf(),
        ensures
            final(self).wf(),
            final(self).channels() == old(self).channels(),
            final(self).window() == old(self).window(),
            accepted == (old(self).seen().len() / (old(self).channels() as nat) + samples@.len() / (
            old(self).channels() as nat) <= u64::MAX),
            accepted ==> final(self).seen() == old(self).seen() + whole_frames(
                samples@,
                old(self).channels(),
            ),
            !accepted ==> final(self).seen() == old(self).seen(),
    {
        let ch: usize = self.channels as usize;
        let n: usize = samples.len() / ch;
        let t0: u64 = self.total_frames;
        proof {
            let t = t0 as int;
            assert(t * ch <= self.seen@.len() < (t + 1) * ch) by (nonlinear_arith)
                requires
                    self.seen@.len() == t * ch,
                    ch > 0,
            ;
            lemma_floor_div_unique(self.seen@.len() as int, ch as int, t);
        }
        if n as u64 > u64::MAX - t0 {
            return false;
        }
        let ghost old_seen = self.seen@;
        let ghost data = old_seen + whole_frames(samples@, ch as int);
        proof {
            lemma_fundamental_div_mod(samples@.len() as int, ch as int);
            lemma_mod_bound(samples@.len() as int, ch as int);
            assert(ch * n == n * ch) by (nonlinear_arith);
            assert((t0 + n) * ch == t0 * ch + n * ch) by (nonlinear_arith);
            self.lemma_extend(old_seen, data);
        }
        self.seen = Ghost(data);
        let mut f: usize = 0;
        let mut base: usize = 0;
        while f < n
            invariant
                f <= n,
                base == f * ch,
                n * ch <= samples.len(),
                0 < ch <= u16::MAX,
                ch == self.channels,
                self.channels == old(self).channels,
                self.window == old(self).window,
                self.seen@ == data,
                self.summarizes(data),
                self.total_frames == t0 + f,
                t0 + n <= u64::MAX,
                data.len() == (t0 + n) * ch,
                forall|j: int| 0 <= j < n * ch ==> data[t0 * ch + j] == #[trigger] samples@[j],
            decreases n - f,
        {
            assert((f + 1) * ch <= n * ch && (f + 1) * ch == f * ch + ch && (t0 + f) * ch == t0
                * ch + f * ch && (t0 + f + 1) * ch <= (t0 + n) * ch) by (nonlinear_arith)
                requires
                    f + 1 <= n,
                    ch > 0,
                    t0 >= 0,
            ;
            let sum: i64 = sum_frame(samples, base, ch);
            proof {
                let lo = (t0 + f) * ch;
                assert forall|i: int| lo <= i < lo + ch implies data[i] == #[trigger] samples@[i + (
                -(t0 * ch))] by {
                    let j = i - t0 * ch;
                    assert(0 <= j < n * ch);
                    assert(data[t0 * ch + j] == samples@[j]);
                }
                lemma_sum_samples_shift(data, samples@, lo, lo + ch, -(t0 * ch));
            }
            self.absorb(sum, Ghost(data));
            f = f + 1;
            base = base + ch;
        }
        true
    }
}

/// The preview has one value per full window, and one more where frames are
/// left over.
pub proof fn lemma_preview_len(total: int, window: int)
    requires
        total >= 0,
        window > 0,
    ensures
        preview_len(total, window) == total / window + if total % window > 0 { 1int } else { 0 },
{
    lemma_div_mod_step(total, window);
    let k = total / window;
    assert((k + 1) * window == k * window + window) by (nonlinear_arith);
    assert((k + 1 + 1) * window == k * window + window + window) by (nonlinear_arith);
    if total % window > 0 {
        lemma_floor_div_unique(total + window - 1, window, k + 1);
    } else {
        lemma_floor_div_unique(total + window - 1, window, k);
    }
}

impl PreviewBuilder {
    /// Closes the stream and returns its preview. Frames left over after the
    /// last full window form a shorter last window.
    pub fn finish(self) -> (values: Vec<u32>)
        requires
            self.wf(),
        ensures
            values@ == rms_preview(self.seen(), self.channels(), self.window()),
    {
        let ghost data = self.seen@;
        let ghost ch = self.channels as int;
        let ghost w = self.window as int;
        let ghost t = self.total_frames as int;
        let ghost c = self.acc_count as int;
        let ghost peak = SAMPLE_PEAK as int;
        let ghost full = self.values@;
        let count: u32 = self.acc_count;
        let channels: u16 = self.channels;
        let acc_sq: u128 = self.acc_sq;
        let mut values = self.values;
        proof {
            lemma_div_mod_step(t, w);
            lemma_preview_len(t, w);
            assert(t * ch <= data.len() < (t + 1) * ch) by (nonlinear_arith)
                requires
                    data.len() == t * ch,
                    ch > 0,
            ;
            lemma_floor_div_unique(data.len() as int, ch, t);
        }
        if count > 0 {
            proof {
                assert(0 <= (t - c) * ch) by (nonlinear_arith)
                    requires
                        0 <= t - c,
                        ch > 0,
                ;
                lemma_energy_bound(data, ch, t - c, t, peak);
                assert(0 < c * ch <= 0x0800_0000 * 0x1_0000int) by (nonlinear_arith)
                    requires
                        0 < c <= 0x0800_0000,
                        0 < ch <= 0x1_0000,
                ;
                assert(c * ch * ch == (t - (t - c)) * ch * ch && 0 < c * ch * ch <= 0x0800_0000
                    * 0x1_0000 * 0x1_0000int && (c * ch * ch) * (peak * peak) == c * (ch * ch * (
                peak * peak))) by (nonlinear_arith)
                    requires
                        0 < c <= 0x0800_0000,
                        0 < ch <= 0x1_0000,
                ;
            }
            let n: u128 = (count as u128) * (channels as u128) * (channels as u128);
            let q: u128 = acc_sq / n;
            proof {
                lemma_root_of_mean_bound(acc_sq as int, n as int, peak);
            }
            let r: u32 = isqrt_u64(q as u64);
            values.push(r);
        }
        proof {
            let expected = rms_preview(data, ch, w);
            let k_full = t / w;
            assert(values@.len() == expected.len());
            assert forall|k: int| 0 <= k < values@.len() implies values@[k] == expected[k] by {
                if k < k_full {
                    assert(k * w + w <= t) by (nonlinear_arith)
                        requires
                            0 <= k < k_full,
                            t == k_full * w + c,
                            0 <= c,
                            w > 0,
                    ;
                    assert(values@[k] == full[k]);
                } else {
                    assert(k * w == t - c && k * w + w > t) by (nonlinear_arith)
                        requires
                            k == k_full,
                            t == k_full * w + c,
                            c < w,
                    ;
                }
            }
            assert(values@ =~= expected);
        }
        values
    }
}

} // verus!
