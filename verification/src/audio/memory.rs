//! Playback from a whole file in memory: a fractional playhead over the
//! buffer, resampled to the device's rate, with an optional loop window.

use vstd::prelude::*;
use vstd::arithmetic::div_mod::{
    lemma_fundamental_div_mod, lemma_fundamental_div_mod_converse, lemma_mod_bound,
};
use crate::audio::decode::MemoryAudio;
use crate::audio::resample::{mix, mix_sample, playhead_nanos, playhead_seconds};
use crate::math::div_floor;
use crate::math::lemma_floor_div_unique;
use crate::time::{frame_ceil, frame_floor, Seconds, NANOS_PER_SECOND};

verus! {

/// The mathematical state of memory playback.
///
/// The playhead stands at `frame + frac / device_rate` source frames.
pub struct MemoryView {
    pub data: Seq<i32>,
    pub channels: int,
    pub sample_rate: int,
    pub device_rate: int,
    pub frame: int,
    pub frac: int,
    /// The loop window `[start, end)` in frames, where one is set.
    pub loop_range: Option<(int, int)>,
}

impl MemoryView {
    /// The number of frames in the buffer.
    pub open spec fn frames(self) -> int {
        self.data.len() as int / self.channels
    }

    /// The last frame of the buffer, or zero where it is empty.
    pub open spec fn last_frame(self) -> int {
        if self.frames() > 0 {
            self.frames() - 1
        } else {
            0
        }
    }

    /// Where a playhead at `frame + frac / device_rate` comes to rest.
    ///
    /// With a loop window, a playhead before the window moves to its start,
    /// and one at or past its end wraps around by the window's length.
    /// Without one, the playhead is held inside `[0, last_frame]`.
    pub open spec fn enforce(self, frame: int, frac: int) -> (int, int) {
        match self.loop_range {
            Some((start, end)) => {
                if frame < start {
                    (start, 0)
                } else if frame >= end {
                    (start + (frame - start) % (end - start), frac)
                } else {
                    (frame, frac)
                }
            },
            None => {
                if frame < 0 {
                    (0, 0)
                } else if frame > self.last_frame() || (frame == self.last_frame() && frac > 0) {
                    (self.last_frame(), 0)
                } else {
                    (frame, frac)
                }
            },
        }
    }

    /// The playhead is where `enforce` leaves it.
    pub open spec fn settled(self) -> bool {
        self.enforce(self.frame, self.frac) == (self.frame, self.frac)
    }

    /// The playhead is inside the loop window, or inside the buffer where no
    /// loop is set.
    ///
    /// A playhead at rest is in bounds. So is one that was left on the last
    /// frame with a fraction when its loop was cleared; it comes to rest at
    /// the next frame that is played.
    pub open spec fn in_bounds(self) -> bool {
        match self.loop_range {
            Some((start, end)) => start <= self.frame < end,
            None => 0 <= self.frame <= self.last_frame(),
        }
    }

    /// The parameters are sound, the buffer holds whole frames and the loop
    /// window, where one is set, lies inside the buffer.
    pub open spec fn valid(self) -> bool {
        &&& self.channels > 0
        &&& self.sample_rate > 0
        &&& self.device_rate > 0
        &&& self.data.len() == self.frames() * self.channels
        &&& 0 <= self.frac < self.device_rate
        &&& self.loop_range matches Some((start, end)) ==> 0 <= start < end <= self.frames()
    }

    pub open spec fn wf(self) -> bool {
        self.valid() && self.in_bounds()
    }

    /// The loop window that a range in seconds selects: from the frame in
    /// which `start` falls to the first frame at or after `end`, held inside
    /// the buffer and at least one frame long. A range shorter than one
    /// sample period selects nothing, and neither does any range on an
    /// empty buffer.
    pub open spec fn loop_window(self, start: int, end: int) -> Option<(int, int)> {
        if (end - start) * self.sample_rate < NANOS_PER_SECOND || self.frames() <= 0 {
            None
        } else {
            let s = frame_floor(start, self.sample_rate);
            let e = frame_ceil(end, self.sample_rate);
            let s2 = if s < 0 {
                0
            } else if s > self.last_frame() {
                self.last_frame()
            } else {
                s
            };
            let e2 = if e < s2 + 1 {
                s2 + 1
            } else if e > self.frames() {
                self.frames()
            } else {
                e
            };
            Some((s2, e2))
        }
    }

    /// This state with its loop window replaced. Under a new window the
    /// playhead comes to rest at once; where the window is cleared, the
    /// playhead stays where it is.
    pub open spec fn with_loop(self, window: Option<(int, int)>) -> MemoryView {
        match window {
            Some(w) => (MemoryView { loop_range: Some(w), ..self }).moved_to(self.frame, self.frac),
            None => MemoryView { loop_range: None, ..self },
        }
    }

    /// Where a seek to the instant `nanos` aims: that instant as a playhead,
    /// held inside the buffer.
    pub open spec fn seek_target(self, nanos: int) -> (int, int) {
        let ticks = nanos * self.sample_rate * self.device_rate / (NANOS_PER_SECOND as int);
        (MemoryView { loop_range: None, ..self }).enforce(
            ticks / self.device_rate,
            ticks % self.device_rate,
        )
    }

    /// The playhead's source time in nanoseconds.
    pub open spec fn position_nanos(self) -> int {
        playhead_nanos(self.frame, self.frac, self.device_rate, self.sample_rate)
    }

    /// This state with the playhead moved to where `(frame, frac)` comes to
    /// rest.
    pub open spec fn moved_to(self, frame: int, frac: int) -> MemoryView {
        let p = self.enforce(frame, frac);
        MemoryView { frame: p.0, frac: p.1, ..self }
    }

    /// This state with the playhead brought to rest.
    pub open spec fn settle(self) -> MemoryView {
        self.moved_to(self.frame, self.frac)
    }

    /// No frame follows the playhead's frame, so nothing can be
    /// interpolated.
    pub open spec fn stalled(self) -> bool {
        self.frame + 1 >= self.frames()
    }

    /// The state after one output frame: the playhead has moved by
    /// `sample_rate / device_rate` frames and come to rest.
    pub open spec fn advance(self) -> MemoryView {
        let ticks = self.frac + self.sample_rate;
        self.moved_to(self.frame + ticks / self.device_rate, ticks % self.device_rate)
    }

    /// The state after one attempt at an output frame: the playhead comes
    /// to rest, and moves on by one output frame unless it has stalled.
    pub open spec fn step(self) -> MemoryView {
        let rested = self.settle();
        if rested.stalled() {
            rested
        } else {
            rested.advance()
        }
    }

    /// The state after `k` attempts.
    pub open spec fn after(self, k: nat) -> MemoryView
        decreases k,
    {
        if k == 0 {
            self
        } else {
            self.after((k - 1) as nat).step()
        }
    }

    /// How many of the first `limit` attempts produce a frame.
    pub open spec fn written(self, limit: nat) -> nat
        decreases limit,
    {
        if limit == 0 {
            0
        } else {
            let before = self.written((limit - 1) as nat);
            if self.after((limit - 1) as nat).settle().stalled() {
                before
            } else {
                before + 1
            }
        }
    }

    /// Channel `c` of the output frame at the playhead.
    pub open spec fn sample(self, c: int, volume: int) -> int {
        mix(
            self.data[self.frame * self.channels + c] as int,
            self.data[(self.frame + 1) * self.channels + c] as int,
            self.frac,
            self.device_rate,
            volume,
        )
    }

    /// Sample `i` of a rendered buffer of `out_frames` frames: interpolated
    /// audio for the frames that were produced, silence after them.
    pub open spec fn rendered(self, volume: int, out_frames: nat, i: int) -> int {
        let k = i / self.channels;
        if 0 <= k < self.written(out_frames) {
            self.after(k as nat).settle().sample(i % self.channels, volume)
        } else {
            0
        }
    }
}

/// Wherever a playhead is put, it comes to rest inside the loop window.
pub proof fn lemma_enforce_inside_loop(v: MemoryView, frame: int, frac: int)
    requires
        v.loop_range matches Some((start, end)) && start < end,
    ensures
        v.loop_range matches Some((start, end)) && start <= v.enforce(frame, frac).0 < end,
{
    match v.loop_range {
        Some((start, end)) => {
            if frame >= end {
                lemma_mod_bound(frame - start, end - start);
            }
        },
        None => {},
    }
}

/// Moving a playhead leaves it at rest and the state well formed.
pub proof fn lemma_moved_to_wf(v: MemoryView, frame: int, frac: int)
    requires
        v.valid(),
        0 <= frac < v.device_rate,
    ensures
        v.moved_to(frame, frac).wf(),
        v.moved_to(frame, frac).settled(),
        v.moved_to(frame, frac).data == v.data,
        v.moved_to(frame, frac).loop_range == v.loop_range,
{
    let w = v.moved_to(frame, frac);
    assert(w.frames() == v.frames());
    assert(w.last_frame() == v.last_frame());
    match v.loop_range {
        Some((start, end)) => {
            lemma_enforce_inside_loop(v, frame, frac);
        },
        None => {},
    }
}

/// Bringing a playhead to rest leaves the state well formed, changes nothing
/// on a playhead that is at rest, and never turns a playhead that has
/// stalled into one that can go on, or back.
pub proof fn lemma_settle(v: MemoryView)
    requires
        v.wf(),
    ensures
        v.settle().wf(),
        v.settle().settled(),
        v.settle().settle() == v.settle(),
        v.settled() ==> v.settle() == v,
        v.settle().stalled() == v.stalled(),
        !v.stalled() ==> v.settle() == v,
{
    lemma_moved_to_wf(v, v.frame, v.frac);
    let r = v.settle();
    assert(r.frames() == v.frames());
    assert(r.last_frame() == v.last_frame());
    match v.loop_range {
        Some((start, end)) => {},
        None => {},
    }
}

/// Every attempt leaves the state well formed and the playhead at rest, and
/// changes nothing but the playhead.
pub proof fn lemma_after_wf(v: MemoryView, k: nat)
    requires
        v.wf(),
    ensures
        v.after(k).wf(),
        k > 0 ==> v.after(k).settled(),
        v.after(k).data == v.data,
        v.after(k).channels == v.channels,
        v.after(k).sample_rate == v.sample_rate,
        v.after(k).device_rate == v.device_rate,
        v.after(k).loop_range == v.loop_range,
    decreases k,
{
    if k > 0 {
        lemma_after_wf(v, (k - 1) as nat);
        let u = v.after((k - 1) as nat).settle();
        lemma_settle(v.after((k - 1) as nat));
        if !u.stalled() {
            let ticks = u.frac + u.sample_rate;
            lemma_mod_bound(ticks, u.device_rate);
            lemma_moved_to_wf(u, u.frame + ticks / u.device_rate, ticks % u.device_rate);
        }
    }
}

/// While a loop window is set, it stays set and the playhead never leaves
/// it.
pub proof fn lemma_playhead_stays_in_loop(v: MemoryView, k: nat)
    requires
        v.wf(),
        v.loop_range is Some,
    ensures
        v.after(k).loop_range == v.loop_range,
        v.loop_range matches Some((start, end)) && start <= v.after(k).frame < end,
{
    lemma_after_wf(v, k);
}

/// Once stalled, the playhead stays stalled: it comes to rest, and later
/// attempts change nothing and produce nothing.
pub proof fn lemma_stall_is_final(v: MemoryView, k: nat, n: nat)
    requires
        v.wf(),
        k < n,
        v.after(k).settle().stalled(),
    ensures
        v.after(n) == v.after(k).settle(),
        v.written(n) == v.written(k),
    decreases n - k,
{
    lemma_after_wf(v, k);
    lemma_settle(v.after(k));
    if n > k + 1 {
        lemma_stall_is_final(v, k, (n - 1) as nat);
    }
}

/// Fills `buf[start..]` with silence.
pub fn zero_from(buf: &mut Vec<i32>, start: usize)
    requires
        start <= old(buf)@.len(),
    ensures
        final(buf)@.len() == old(buf)@.len(),
        forall|i: int| 0 <= i < start ==> final(buf)@[i] == old(buf)@[i],
        forall|i: int| start <= i < final(buf)@.len() ==> final(buf)@[i] == 0,
{
    let len: usize = buf.len();
    let mut i: usize = start;
    while i < len
        invariant
            start <= i <= len,
            buf@.len() == len,
            forall|j: int| 0 <= j < start ==> buf@[j] == old(buf)@[j],
            forall|j: int| start <= j < i ==> buf@[j] == 0,
        decreases len - i,
    {
        buf[i] = 0;
        i = i + 1;
    }
}

/// Playback state over a whole file in memory.
pub struct MemoryState {
    src: MemoryAudio,
    frame: u64,
    frac: u32,
    device_rate: u32,
    loop_range: Option<(u64, u64)>,
}

impl View for MemoryState {
    type V = MemoryView;

    closed spec fn view(&self) -> MemoryView {
        MemoryView {
            data: self.src.data@,
            channels: self.src.channels as int,
            sample_rate: self.src.sample_rate as int,
            device_rate: self.device_rate as int,
            frame: self.frame as int,
            frac: self.frac as int,
            loop_range: match self.loop_range {
                Some((start, end)) => Some((start as int, end as int)),
                None => None,
            },
        }
    }
}

impl MemoryState {
    /// Everything holds but that the playhead is in bounds.
    spec fn valid(&self) -> bool {
        &&& self@.valid()
        &&& self.src.frames as int == self@.frames()
    }

    pub closed spec fn wf(&self) -> bool {
        self.valid() && self@.in_bounds()
    }

    /// A well-formed state has a well-formed view.
    pub proof fn lemma_view_wf(&self)
        requires
            self.wf(),
        ensures
            self@.wf(),
    {
    }

    /// Playback of `src` from its first frame, on a device that runs at
    /// `device_rate`, with no loop window.
    pub fn new(src: MemoryAudio, device_rate: u32) -> (mem: MemoryState)
        requires
            src.wf(),
            device_rate > 0,
        ensures
            mem.wf(),
            mem@ == (MemoryView {
                data: src.data@,
                channels: src.channels as int,
                sample_rate: src.sample_rate as int,
                device_rate: device_rate as int,
                frame: 0,
                frac: 0,
                loop_range: None,
            }),
    {
        proof {
            let f = src.frames as int;
            let c = src.channels as int;
            assert(f * c <= src.data@.len() < (f + 1) * c) by (nonlinear_arith)
                requires
                    src.data@.len() == f * c,
                    c > 0,
            ;
            lemma_floor_div_unique(src.data@.len() as int, c, f);
        }
        MemoryState { src, frame: 0, frac: 0, device_rate, loop_range: None }
    }

    /// Moves the playhead to where `(frame, frac)` comes to rest.
    fn enforce_loop_bounds(&mut self, frame: u128, frac: u32)
        requires
            old(self).valid(),
            frac < old(self).device_rate,
        ensures
            final(self).wf(),
            final(self)@.settled(),
            final(self)@ == old(self)@.moved_to(frame as int, frac as int),
    {
        proof {
            lemma_moved_to_wf(self@, frame as int, frac as int);
        }
        match self.loop_range {
            Some((start, end)) => {
                if frame < start as u128 {
                    self.frame = start;
                    self.frac = 0;
                } else if frame >= end as u128 {
                    let span: u128 = (end - start) as u128;
                    let offset: u128 = (frame - start as u128) % span;
                    self.frame = start + offset as u64;
                    self.frac = frac;
                } else {
                    self.frame = frame as u64;
                    self.frac = frac;
                }
            },
            None => {
                let last: u64 = if self.src.frames > 0 {
                    self.src.frames - 1
                } else {
                    0
                };
                if frame > last as u128 || (frame == last as u128 && frac > 0) {
                    self.frame = last;
                    self.frac = 0;
                } else {
                    self.frame = frame as u64;
                    self.frac = frac;
                }
            },
        }
    }

    /// Brings the playhead to rest.
    fn settle(&mut self)
        requires
            old(self).wf(),
        ensures
            final(self).wf(),
            final(self)@ == old(self)@.settle(),
    {
        self.enforce_loop_bounds(self.frame as u128, self.frac);
    }

    /// Whether no frame follows the playhead's frame.
    fn is_stalled(&self) -> (stalled: bool)
        requires
            self.wf(),
        ensures
            stalled == self@.stalled(),
    {
        self.frame >= self.src.frames || self.frame + 1 >= self.src.frames
    }

    /// Moves the playhead by one output frame.
    fn advance(&mut self)
        requires
            old(self).wf(),
        ensures
            final(self).wf(),
            final(self)@ == old(self)@.advance(),
    {
        let ticks: u64 = self.frac as u64 + self.src.sample_rate as u64;
        let carry: u64 = ticks / (self.device_rate as u64);
        let frac: u32 = (ticks % (self.device_rate as u64)) as u32;
        self.enforce_loop_bounds(self.frame as u128 + carry as u128, frac);
    }

    /// Puts the playhead at the loop's start, or at the file's start where
    /// no loop is set.
    pub fn reset_to_loop_start(&mut self)
        requires
            old(self).wf(),
        ensures
            final(self).wf(),
            final(self)@ == (MemoryView {
                frame: match old(self)@.loop_range {
                    Some((start, end)) => start,
                    None => 0,
                },
                frac: 0,
                ..old(self)@
            }),
    {
        match self.loop_range {
            Some((start, _)) => {
                self.frame = start;
            },
            None => {
                self.frame = 0;
            },
        }
        self.frac = 0;
    }
}

/// Renders one output buffer from memory.
///
/// While playing, each output frame brings the playhead to rest,
/// interpolates between its frame and the next one and then moves it, until
/// the buffer is full or no next frame exists; the rest of the buffer is
/// silence. While not playing, and where the buffer holds no whole frame,
/// the buffer is silence and the playhead stays.
pub fn process_memory(mem: &mut MemoryState, playing: bool, volume: u32, output: &mut Vec<i32>)
    requires
        old(mem).wf(),
    ensures
        final(mem).wf(),
        final(output)@.len() == old(output)@.len(),
        !playing ==> final(mem)@ == old(mem)@ && forall|i: int|
            0 <= i < final(output)@.len() ==> final(output)@[i] == 0,
        playing ==> {
            let out_frames = (old(output)@.len() as int / old(mem)@.channels) as nat;
            &&& final(mem)@ == old(mem)@.after(out_frames)
            &&& forall|i: int|
                0 <= i < final(output)@.len() ==> final(output)@[i] as int == old(mem)@.rendered(
                    volume as int,
                    out_frames,
                    i,
                )
        },
{
    if !playing {
        zero_from(output, 0);
        return ;
    }
    let len: usize = output.len();
    let ch: usize = mem.src.channels as usize;
    let out_frames: usize = len / ch;
    let ghost v0 = mem@;
    let ghost vol = volume as int;
    proof {
        lemma_fundamental_div_mod(len as int, ch as int);
        lemma_mod_bound(len as int, ch as int);
        assert(ch * out_frames == out_frames * ch) by (nonlinear_arith);
    }
    let mut f: usize = 0;
    let mut base: usize = 0;
    let mut stalled: bool = false;
    proof {
        mem.lemma_view_wf();
    }
    while f < out_frames && !stalled
        invariant
            mem.wf(),
            v0.wf(),
            vol == volume as int,
            !stalled ==> mem@ == v0.after(f as nat),
            stalled ==> f < out_frames && mem@ == v0.after(f as nat).settle() && mem@.stalled(),
            v0.written(f as nat) == f,
            f <= out_frames,
            base == f * ch,
            out_frames * ch <= len,
            output@.len() == len,
            ch == v0.channels,
            0 < ch,
            forall|i: int|
                0 <= i < base ==> output@[i] as int == v0.after(
                    (i / ch as int) as nat,
                ).settle().sample(i % (ch as int), vol),
        decreases out_frames - f, if stalled { 0int } else { 1int },
    {
        proof {
            lemma_after_wf(v0, f as nat);
            lemma_settle(v0.after(f as nat));
        }
        mem.settle();
        if mem.is_stalled() {
            stalled = true;
            continue ;
        }
        let ghost u = mem@;
        proof {
            assert((f + 1) * ch <= out_frames * ch && (f + 1) * ch == f * ch + ch)
                by (nonlinear_arith)
                requires
                    f + 1 <= out_frames,
                    ch > 0,
            ;
            assert((u.frame + 2) * u.channels <= u.frames() * u.channels && (u.frame + 1)
                * u.channels == u.frame * u.channels + u.channels && (u.frame + 2) * u.channels
                == u.frame * u.channels + 2 * u.channels && u.frame <= u.frame * u.channels)
                by (nonlinear_arith)
                requires
                    0 <= u.frame,
                    u.frame + 2 <= u.frames(),
                    u.channels > 0,
            ;
            assert(u.data.len() == mem.src.data.len());
            assert(u.frame * u.channels + 2 * u.channels <= mem.src.data.len());
        }
        let i0: usize = mem.frame as usize * ch;
        let i1: usize = i0 + ch;
        let mut c: usize = 0;
        while c < ch
            invariant
                c <= ch,
                0 < ch,
                vol == volume as int,
                base == f * ch,
                base + ch <= len,
                output@.len() == len,
                mem@ == u,
                u == v0.after(f as nat).settle(),
                ch == u.channels,
                i0 == u.frame * u.channels,
                i1 == (u.frame + 1) * u.channels,
                i1 == i0 + ch,
                i1 + ch <= mem.src.data.len(),
                u.data == mem.src.data@,
                u.frac == mem.frac,
                u.device_rate == mem.device_rate,
                mem.frac < mem.device_rate,
                forall|i: int|
                    0 <= i < base + c ==> output@[i] as int == v0.after(
                        (i / ch as int) as nat,
                    ).settle().sample(i % (ch as int), vol),
            decreases ch - c,
        {
            let s0: i32 = mem.src.data[i0 + c];
            let s1: i32 = mem.src.data[i1 + c];
            let x: i32 = mix_sample(s0, s1, mem.frac, mem.device_rate, volume);
            let ghost before = output@;
            output[base + c] = x;
            proof {
                lemma_fundamental_div_mod_converse(base + c, ch as int, f as int, c as int);
                assert((base + c) / (ch as int) == f && (base + c) % (ch as int) == c);
                assert(u.sample(c as int, vol) == x as int);
                assert forall|i: int| 0 <= i < base + c + 1 implies output@[i] as int == v0.after(
                    (i / ch as int) as nat,
                ).settle().sample(i % (ch as int), vol) by {
                    if i < base + c {
                        assert(output@[i] == before[i]);
                    }
                }
            }
            c = c + 1;
        }
        mem.advance();
        f = f + 1;
        base = base + ch;
    }
    proof {
        if stalled {
            lemma_stall_is_final(v0, f as nat, out_frames as nat);
        }
        assert(v0.written(out_frames as nat) == f);
        assert(f * ch <= out_frames * ch) by (nonlinear_arith)
            requires
                f <= out_frames,
                ch > 0,
        ;
    }
    zero_from(output, base);
    proof {
        assert forall|i: int| 0 <= i < len implies output@[i] as int == v0.rendered(
            vol,
            out_frames as nat,
            i,
        ) by {
            lemma_fundamental_div_mod(i, ch as int);
            lemma_mod_bound(i, ch as int);
            let k = i / (ch as int);
            assert(ch * k == k * ch) by (nonlinear_arith);
            if i < base {
                assert(k < f) by (nonlinear_arith)
                    requires
                        k * ch <= i,
                        i < f * ch,
                        ch > 0,
                ;
            } else {
                assert(k >= f) by (nonlinear_arith)
                    requires
                        i < k * ch + ch,
                        i >= f * ch,
                        ch > 0,
                ;
            }
        }
    }
}

impl MemoryState {
    /// Sets the loop window from a range in seconds, or clears it.
    ///
    /// A range shorter than one sample period clears the window. Under a
    /// new window the playhead comes to rest at once; where the window is
    /// cleared, the playhead stays where it is.
    pub fn set_loop(&mut self, range: Option<(Seconds, Seconds)>)
        requires
            old(self).wf(),
        ensures
            final(self).wf(),
            final(self)@ == old(self)@.with_loop(
                match range {
                    Some((start, end)) => old(self)@.loop_window(start@, end@),
                    None => None,
                },
            ),
    {
        let window: Option<(u64, u64)> = match range {
            Some((start, end)) => {
                let span: i128 = end.nanos as i128 - start.nanos as i128;
                assert(-0x1_0000_0000_0000_0000 * 0x1_0000_0000int <= span * self.src.sample_rate
                    <= 0x1_0000_0000_0000_0000 * 0x1_0000_0000int) by (nonlinear_arith)
                    requires
                        -0x1_0000_0000_0000_0000 <= span <= 0x1_0000_0000_0000_0000,
                        0 <= self.src.sample_rate <= 0x1_0000_0000,
                ;
                if span * (self.src.sample_rate as i128) < NANOS_PER_SECOND as i128
                    || self.src.frames == 0 {
                    None
                } else {
                    let s: i128 = start.frame_floor(self.src.sample_rate);
                    let e: i128 = end.frame_ceil(self.src.sample_rate);
                    let last: u64 = self.src.frames - 1;
                    let s2: u64 = if s < 0 {
                        0
                    } else if s > last as i128 {
                        last
                    } else {
                        s as u64
                    };
                    let e2: u64 = if e < s2 as i128 + 1 {
                        s2 + 1
                    } else if e > self.src.frames as i128 {
                        self.src.frames
                    } else {
                        e as u64
                    };
                    Some((s2, e2))
                }
            },
            None => None,
        };
        self.loop_range = window;
        if window.is_some() {
            self.enforce_loop_bounds(self.frame as u128, self.frac);
        }
    }

    /// Seeks to the instant `seconds`, held inside the buffer and then
    /// brought to rest under the loop window.
    pub fn set_position_seconds(&mut self, seconds: Seconds)
        requires
            old(self).wf(),
        ensures
            final(self).wf(),
            final(self)@ == old(self)@.moved_to(
                old(self)@.seek_target(seconds@).0,
                old(self)@.seek_target(seconds@).1,
            ),
    {
        let sr: i128 = self.src.sample_rate as i128;
        let den: i128 = self.device_rate as i128;
        assert(-0x8000_0000_0000_0000 * 0x1_0000_0000int <= seconds.nanos * sr
            <= 0x8000_0000_0000_0000 * 0x1_0000_0000int) by (nonlinear_arith)
            requires
                -0x8000_0000_0000_0000 <= seconds.nanos <= 0x8000_0000_0000_0000,
                0 <= sr < 0x1_0000_0000,
        ;
        let scaled: i128 = (seconds.nanos as i128) * sr;
        assert(-0x8000_0000_0000_0000_0000_0000 * 0xFFFF_FFFFint <= scaled * den
            <= 0x8000_0000_0000_0000_0000_0000 * 0xFFFF_FFFFint) by (nonlinear_arith)
            requires
                -0x8000_0000_0000_0000_0000_0000 <= scaled <= 0x8000_0000_0000_0000_0000_0000,
                0 <= den <= 0xFFFF_FFFF,
        ;
        let ticks: i128 = div_floor(scaled * den, NANOS_PER_SECOND as i128);
        let last: u64 = if self.src.frames > 0 {
            self.src.frames - 1
        } else {
            0
        };
        proof {
            lemma_fundamental_div_mod(ticks as int, den as int);
            lemma_mod_bound(ticks as int, den as int);
            if ticks < 0 {
                assert(ticks / den < 0) by (nonlinear_arith)
                    requires
                        ticks == den * (ticks / den) + ticks % den,
                        0 <= ticks % den,
                        ticks < 0,
                        den > 0,
                ;
            } else {
                assert(ticks / den >= 0) by (nonlinear_arith)
                    requires
                        ticks == den * (ticks / den) + ticks % den,
                        ticks % den < den,
                        ticks >= 0,
                        den > 0,
                ;
            }
        }
        if ticks < 0 {
            self.enforce_loop_bounds(0, 0);
        } else {
            let frame: i128 = ticks / den;
            let frac: u32 = (ticks % den) as u32;
            if frame > last as i128 || (frame == last as i128 && frac > 0) {
                self.enforce_loop_bounds(last as u128, 0);
            } else {
                self.enforce_loop_bounds(frame as u128, frac);
            }
        }
    }

    /// The playhead's source time.
    pub fn position_seconds(&self) -> (t: Seconds)
        requires
            self.wf(),
        ensures
            t@ == self@.position_nanos(),
    {
        playhead_seconds(self.frame, self.frac, self.device_rate, self.src.sample_rate)
    }

    /// The loop window `[start, end)` in frames, where one is set.
    pub fn loop_range(&self) -> (window: Option<(u64, u64)>)
        ensures
            match window {
                Some((start, end)) => self@.loop_range == Some((start as int, end as int)),
                None => self@.loop_range is None,
            },
    {
        self.loop_range
    }
}

} // verus!
