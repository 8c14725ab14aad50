//! Playback from a live stream of decoded chunks, resampled to the device's
//! rate.
//!
//! The playhead runs over the frames of the stream as they arrive. An output
//! frame needs the playhead's frame and the one after it; where the stream
//! has not come that far, the output is silence and the playhead waits.

use std::collections::VecDeque;
use vstd::prelude::*;
use vstd::arithmetic::div_mod::{
    lemma_fundamental_div_mod, lemma_fundamental_div_mod_converse, lemma_mod_bound,
};
use crate::audio::memory::zero_from;
use crate::audio::preview::whole_frames;
use crate::audio::queue::{
    chunk_rest, lemma_queue_flat_len, lemma_queue_flat_push, queue_flat, queue_ok, read_frame,
};
use crate::audio::resample::{mix, mix_sample, playhead_nanos, playhead_seconds};
use crate::math::lemma_multiple_mod;
use crate::time::Seconds;

verus! {

/// The mathematical state of streaming playback.
///
/// The playhead stands at `cursor + frac / device_rate` frames into
/// `stream`.
pub struct StreamView {
    /// Every whole frame that arrived since the stream was last restarted,
    /// interleaved and in order.
    pub stream: Seq<i32>,
    pub channels: int,
    pub sample_rate: int,
    pub device_rate: int,
    pub cursor: int,
    pub frac: int,
    /// Whole source frames played since the last stop, as reported; it
    /// stops counting at `u64::MAX`.
    pub position: int,
    /// The sender has gone: no more chunks will arrive.
    pub finished: bool,
}

impl StreamView {
    /// The number of frames that have arrived.
    pub open spec fn frames(self) -> int {
        self.stream.len() as int / self.channels
    }

    pub open spec fn valid(self) -> bool {
        &&& self.channels > 0
        &&& self.sample_rate > 0
        &&& self.device_rate > 0
        &&& self.stream.len() == self.frames() * self.channels
        &&& 0 <= self.cursor
        &&& 0 <= self.frac < self.device_rate
        &&& 0 <= self.position <= u64::MAX
    }

    /// The frame after the playhead's frame has not arrived, so nothing can
    /// be interpolated.
    pub open spec fn starved(self) -> bool {
        self.cursor + 1 >= self.frames()
    }

    /// The state after one output frame: the playhead has moved by
    /// `sample_rate / device_rate` frames.
    pub open spec fn advance(self) -> StreamView {
        let ticks = self.frac + self.sample_rate;
        let carry = ticks / self.device_rate;
        StreamView {
            cursor: self.cursor + carry,
            frac: ticks % self.device_rate,
            position: if self.position + carry > u64::MAX {
                u64::MAX as int
            } else {
                self.position + carry
            },
            ..self
        }
    }

    /// The state after one attempt at an output frame: a starved playhead
    /// stays where it is.
    pub open spec fn step(self) -> StreamView {
        if self.starved() {
            self
        } else {
            self.advance()
        }
    }

    /// The state after `k` attempts.
    pub open spec fn after(self, k: nat) -> StreamView
        decreases k,
    {
        if k == 0 {
            self
        } else {
            self.after((k - 1) as nat).step()
        }
    }

    /// How many of the first `limit` attempts produce a frame.
    pub open spec fn written(self, limit: nat) -> nat
        decreases limit,
    {
        if limit == 0 {
            0
        } else {
            let before = self.written((limit - 1) as nat);
            if self.after((limit - 1) as nat).starved() {
                before
            } else {
                before + 1
            }
        }
    }

    /// Channel `c` of the output frame at the playhead.
    pub open spec fn sample(self, c: int, volume: int) -> int {
        mix(
            self.stream[self.cursor * self.channels + c] as int,
            self.stream[(self.cursor + 1) * self.channels + c] as int,
            self.frac,
            self.device_rate,
            volume,
        )
    }

    /// Sample `i` of a rendered buffer of `out_frames` frames: interpolated
    /// audio for the frames that were produced, silence after them.
    pub open spec fn rendered(self, volume: int, out_frames: nat, i: int) -> int {
        let k = i / self.channels;
        if 0 <= k < self.written(out_frames) {
            self.after(k as nat).sample(i % self.channels, volume)
        } else {
            0
        }
    }

    /// The state after the stream has ended: nothing is left of it, and a
    /// stream that starts anew is played from its first frame.
    pub open spec fn ended(self) -> StreamView {
        StreamView { stream: Seq::empty(), cursor: 0, ..self }
    }

    /// The state after a stop: as after the end, and the reported position
    /// is back at zero.
    pub open spec fn stopped(self) -> StreamView {
        StreamView { stream: Seq::empty(), cursor: 0, frac: 0, position: 0, ..self }
    }

    /// The state after rendering `out_frames` frames: the playhead has moved
    /// as far as the stream allowed, and a stream that ran dry after its
    /// sender had gone has ended.
    pub open spec fn after_render(self, out_frames: nat) -> StreamView {
        if self.finished && self.written(out_frames) < out_frames {
            self.after(out_frames).ended()
        } else {
            self.after(out_frames)
        }
    }

    /// The playhead's source time in nanoseconds.
    pub open spec fn position_nanos(self) -> int {
        playhead_nanos(self.position, self.frac, self.device_rate, self.sample_rate)
    }
}

/// Every attempt leaves the state valid, and changes nothing but the
/// playhead.
pub proof fn lemma_after_valid(v: StreamView, k: nat)
    requires
        v.valid(),
    ensures
        v.after(k).valid(),
        v.after(k).stream == v.stream,
        v.after(k).channels == v.channels,
        v.after(k).sample_rate == v.sample_rate,
        v.after(k).device_rate == v.device_rate,
        v.after(k).finished == v.finished,
    decreases k,
{
    if k > 0 {
        lemma_after_valid(v, (k - 1) as nat);
        let u = v.after((k - 1) as nat);
        if !u.starved() {
            let ticks = u.frac + u.sample_rate;
            lemma_mod_bound(ticks, u.device_rate);
            lemma_fundamental_div_mod(ticks, u.device_rate);
            assert(ticks / u.device_rate >= 0) by (nonlinear_arith)
                requires
                    ticks == u.device_rate * (ticks / u.device_rate) + ticks % u.device_rate,
                    ticks % u.device_rate < u.device_rate,
                    ticks >= 0,
                    u.device_rate > 0,
            ;
        }
    }
}

/// Once starved, the playhead stays starved: later attempts change nothing
/// and produce nothing.
pub proof fn lemma_starve_is_final(v: StreamView, k: nat, n: nat)
    requires
        k <= n,
        v.after(k).starved(),
    ensures
        v.after(n) == v.after(k),
        v.written(n) == v.written(k),
    decreases n - k,
{
    if n > k {
        lemma_starve_is_final(v, k, (n - 1) as nat);
    }
}

/// No more frames are produced than were attempted.
pub proof fn lemma_written_bound(v: StreamView, n: nat)
    ensures
        v.written(n) <= n,
    decreases n,
{
    if n > 0 {
        lemma_written_bound(v, (n - 1) as nat);
    }
}

/// Every frame that is produced interpolates between two frames that have
/// arrived: the stream is never read past its last frame.
pub proof fn lemma_reads_inside_stream(v: StreamView, k: nat, limit: nat)
    requires
        v.valid(),
        k < v.written(limit),
    ensures
        v.after(k).stream == v.stream,
        0 <= v.after(k).cursor,
        v.after(k).cursor + 1 < v.frames(),
{
    lemma_after_valid(v, k);
    if v.after(k).starved() {
        lemma_written_bound(v, k);
        lemma_written_bound(v, limit);
        if k <= limit {
            lemma_starve_is_final(v, k, limit);
        }
    }
}

/// A stream that has run dry renders silence only, and ends where its
/// sender has gone.
pub proof fn lemma_dry_stream_is_silent(v: StreamView, volume: int, out_frames: nat, i: int)
    requires
        v.starved(),
    ensures
        v.rendered(volume, out_frames, i) == 0,
        v.after(out_frames) == v,
        v.finished && out_frames > 0 ==> v.after_render(out_frames) == v.ended(),
        v.after_render(out_frames).finished == v.finished,
{
    assert(v.after(0) == v);
    lemma_starve_is_final(v, 0, out_frames);
    assert(v.written(0) == 0);
}

/// Playback state over a live stream of chunks.
pub struct StreamState {
    pending: VecDeque<Vec<i32>>,
    chunk_offset: usize,
    prev_frame: Vec<i32>,
    next_frame: Vec<i32>,
    /// Frames still to be pulled from the queue before the next output
    /// frame can be interpolated.
    owed: u64,
    frac: u32,
    position: u64,
    sample_rate: u32,
    device_rate: u32,
    channels: u16,
    finished: bool,
    /// The frames pulled from the queue since the last restart.
    history: Ghost<Seq<i32>>,
    pulled: Ghost<nat>,
}

impl View for StreamState {
    type V = StreamView;

    closed spec fn view(&self) -> StreamView {
        StreamView {
            stream: self.history@ + queue_flat(
                self.pending@,
                self.chunk_offset as int,
                self.channels as int,
            ),
            channels: self.channels as int,
            sample_rate: self.sample_rate as int,
            device_rate: self.device_rate as int,
            cursor: self.pulled@ + self.owed - 2,
            frac: self.frac as int,
            position: self.position as int,
            finished: self.finished,
        }
    }
}

impl StreamState {
    /// The two anchors are the last two frames pulled, and the playhead
    /// stands `owed` frames past the older one.
    pub closed spec fn wf(&self) -> bool {
        let ch = self.channels as int;
        let pulled = self.pulled@ as int;
        &&& self.channels > 0
        &&& self.sample_rate > 0
        &&& self.device_rate > 0
        &&& self.frac < self.device_rate
        &&& queue_ok(self.pending@, self.chunk_offset as int)
        &&& self.prev_frame@.len() == ch
        &&& self.next_frame@.len() == ch
        &&& self.history@.len() == pulled * ch
        &&& pulled + self.owed >= 2
        &&& self.owed <= 0x2_0000_0000
        &&& pulled >= 1 ==> self.next_frame@ == self.history@.subrange(
            (pulled - 1) * ch,
            pulled * ch,
        )
        &&& pulled >= 2 ==> self.prev_frame@ == self.history@.subrange(
            (pulled - 2) * ch,
            (pulled - 1) * ch,
        )
    }

    /// The frames left in the queue, counted.
    spec fn queued_frames(&self) -> int {
        queue_flat(self.pending@, self.chunk_offset as int, self.channels as int).len() as int
            / self.channels as int
    }

    /// A well-formed state has a valid view.
    pub proof fn lemma_view_valid(&self)
        requires
            self.wf(),
        ensures
            self@.valid(),
    {
        self.lemma_view_frames();
    }

    /// The frames of a well-formed state's view are those pulled and those
    /// still queued.
    proof fn lemma_view_frames(&self)
        requires
            self.wf(),
        ensures
            self@.valid(),
            self@.frames() == self.pulled@ + self.queued_frames(),
            self.queued_frames() >= 0,
            queue_flat(self.pending@, self.chunk_offset as int, self.channels as int).len()
                == self.queued_frames() * self.channels,
            self@.starved() <==> self.owed > self.queued_frames(),
    {
        let ch = self.channels as int;
        let q = queue_flat(self.pending@, self.chunk_offset as int, ch);
        lemma_queue_flat_len(self.pending@, self.chunk_offset as int, ch);
        lemma_fundamental_div_mod(q.len() as int, ch);
        let n = q.len() as int / ch;
        assert(ch * n == n * ch) by (nonlinear_arith);
        assert(n >= 0) by (nonlinear_arith)
            requires
                n * ch >= 0,
                ch > 0,
        ;
        let pulled = self.pulled@ as int;
        let total = pulled + n;
        assert(total * ch == pulled * ch + n * ch) by (nonlinear_arith)
            requires
                total == pulled + n,
        ;
        lemma_multiple_mod(total, ch);
    }

    /// A stream of `channels` channels at `sample_rate`, played on a device
    /// that runs at `device_rate`; nothing has arrived yet.
    pub fn new(sample_rate: u32, channels: u16, device_rate: u32) -> (stream: StreamState)
        requires
            sample_rate > 0,
            channels > 0,
            device_rate > 0,
        ensures
            stream.wf(),
            stream@ == (StreamView {
                stream: Seq::empty(),
                channels: channels as int,
                sample_rate: sample_rate as int,
                device_rate: device_rate as int,
                cursor: 0,
                frac: 0,
                position: 0,
                finished: false,
            }),
    {
        let mut prev_frame: Vec<i32> = Vec::new();
        let mut next_frame: Vec<i32> = Vec::new();
        let mut c: u16 = 0;
        while c < channels
            invariant
                c <= channels,
                prev_frame@.len() == c,
                next_frame@.len() == c,
            decreases channels - c,
        {
            prev_frame.push(0);
            next_frame.push(0);
            c = c + 1;
        }
        let stream = StreamState {
            pending: VecDeque::new(),
            chunk_offset: 0,
            prev_frame,
            next_frame,
            owed: 2,
            frac: 0,
            position: 0,
            sample_rate,
            device_rate,
            channels,
            finished: false,
            history: Ghost(Seq::empty()),
            pulled: Ghost(0),
        };
        proof {
            assert(stream@.stream =~= Seq::<i32>::empty());
        }
        stream
    }

    /// Adds a chunk at the end of the stream. Only its whole frames count.
    pub fn enqueue(&mut self, chunk: Vec<i32>)
        requires
            old(self).wf(),
        ensures
            final(self).wf(),
            final(self)@ == (StreamView {
                stream: old(self)@.stream + whole_frames(chunk@, old(self)@.channels),
                ..old(self)@
            }),
    {
        proof {
            lemma_queue_flat_push(
                self.pending@,
                self.chunk_offset as int,
                self.channels as int,
                chunk,
            );
            assert(chunk_rest(chunk@, 0, self.channels as int) =~= whole_frames(
                chunk@,
                self.channels as int,
            ));
            let q = queue_flat(self.pending@, self.chunk_offset as int, self.channels as int);
            assert(self.history@ + (q + whole_frames(chunk@, self.channels as int)) =~= (
            self.history@ + q) + whole_frames(chunk@, self.channels as int));
        }
        self.pending.push_back(chunk);
    }

    /// Records that the sender has gone.
    pub fn mark_finished(&mut self)
        requires
            old(self).wf(),
        ensures
            final(self).wf(),
            final(self)@ == (StreamView { finished: true, ..old(self)@ }),
    {
        self.finished = true;
    }

    /// Whether the sender has gone.
    pub fn is_finished(&self) -> (finished: bool)
        ensures
            finished == self@.finished,
    {
        self.finished
    }

    /// Forgets the stream so far, so that playback starts anew with the
    /// next frame that arrives.
    fn restart(&mut self)
        requires
            old(self).wf(),
        ensures
            final(self).wf(),
            final(self)@ == old(self)@.ended(),
    {
        self.pending.clear();
        self.chunk_offset = 0;
        self.owed = 2;
        self.history = Ghost(Seq::empty());
        self.pulled = Ghost(0);
        proof {
            assert(self@.stream =~= Seq::<i32>::empty());
        }
    }

    /// Stops the stream: what has arrived is dropped and the position goes
    /// back to zero.
    pub fn stop(&mut self)
        requires
            old(self).wf(),
        ensures
            final(self).wf(),
            final(self)@ == old(self)@.stopped(),
    {
        self.restart();
        self.frac = 0;
        self.position = 0;
    }

    /// The playhead's source time.
    pub fn position_seconds(&self) -> (t: Seconds)
        requires
            self.wf(),
        ensures
            t@ == self@.position_nanos(),
    {
        playhead_seconds(self.position, self.frac, self.device_rate, self.sample_rate)
    }

    /// Pulls the next frame of the queue into the anchors. Returns `false`
    /// where the queue holds no whole frame.
    fn pull(&mut self) -> (ok: bool)
        requires
            old(self).wf(),
            old(self).owed > 0,
        ensures
            final(self).wf(),
            final(self)@ == old(self)@,
            ok ==> final(self).owed == old(self).owed - 1,
            !ok ==> final(self).owed == old(self).owed && final(self).queued_frames() == 0,
    {
        let ghost ch = self.channels as int;
        let ghost q = queue_flat(self.pending@, self.chunk_offset as int, ch);
        let ghost history = self.history@;
        let ghost pulled = self.pulled@ as int;
        let ok = read_frame(
            &mut self.pending,
            &mut self.chunk_offset,
            self.channels as usize,
            &mut self.prev_frame,
        );
        if ok {
            core::mem::swap(&mut self.prev_frame, &mut self.next_frame);
            self.owed = self.owed - 1;
            self.history = Ghost(history + self.next_frame@);
            self.pulled = Ghost((pulled + 1) as nat);
            proof {
                let frame = self.next_frame@;
                let grown = history + frame;
                let rest = queue_flat(self.pending@, self.chunk_offset as int, ch);
                assert((pulled + 1) * ch == pulled * ch + ch) by (nonlinear_arith);
                assert((pulled - 1) * ch == pulled * ch - ch) by (nonlinear_arith);
                assert(grown.subrange(pulled * ch, (pulled + 1) * ch) =~= frame);
                if pulled >= 1 {
                    assert(grown.subrange((pulled - 1) * ch, pulled * ch) =~= history.subrange(
                        (pulled - 1) * ch,
                        pulled * ch,
                    ));
                }
                assert(grown + rest =~= history + q);
            }
        } else {
            proof {
                assert(queue_flat(self.pending@, self.chunk_offset as int, ch)
                    =~= Seq::<i32>::empty());
                assert(q =~= Seq::<i32>::empty());
                lemma_multiple_mod(0, ch);
            }
        }
        ok
    }
}

impl StreamState {
    /// Pulls frames until the anchors are the two frames around the
    /// playhead. Returns `false` where the stream has not come that far.
    fn settle(&mut self) -> (ready: bool)
        requires
            old(self).wf(),
        ensures
            final(self).wf(),
            final(self)@ == old(self)@,
            ready == !old(self)@.starved(),
            ready ==> final(self).owed == 0,
    {
        let mut ok: bool = true;
        while self.owed > 0 && ok
            invariant
                self.wf(),
                self@ == old(self)@,
                !ok ==> self.owed > 0 && self.queued_frames() == 0,
            decreases self.owed + if ok { 1int } else { 0int },
        {
            ok = self.pull();
        }
        proof {
            self.lemma_view_frames();
        }
        ok
    }

    /// Moves the playhead by one output frame.
    fn advance(&mut self)
        requires
            old(self).wf(),
            old(self).owed == 0,
        ensures
            final(self).wf(),
            final(self)@ == old(self)@.advance(),
    {
        let ticks: u64 = self.frac as u64 + self.sample_rate as u64;
        let carry: u64 = ticks / (self.device_rate as u64);
        self.frac = (ticks % (self.device_rate as u64)) as u32;
        self.owed = carry;
        self.position = self.position.saturating_add(carry);
    }
}

/// Renders one output buffer from the stream.
///
/// While playing, each output frame interpolates between the playhead's
/// frame and the next one and then moves the playhead, until the buffer is
/// full or the stream has not come far enough; the rest of the buffer is
/// silence. A stream that runs dry is waited for, unless its sender has
/// gone: then it has ended. While not playing, the buffer is silence and
/// nothing else changes.
pub fn process_stream(
    stream: &mut StreamState,
    playing: bool,
    volume: u32,
    output: &mut Vec<i32>,
)
    requires
        old(stream).wf(),
    ensures
        final(stream).wf(),
        final(output)@.len() == old(output)@.len(),
        !playing ==> final(stream)@ == old(stream)@ && forall|i: int|
            0 <= i < final(output)@.len() ==> final(output)@[i] == 0,
        playing ==> {
            let out_frames = (old(output)@.len() as int / old(stream)@.channels) as nat;
            &&& final(stream)@ == old(stream)@.after_render(out_frames)
            &&& forall|i: int|
                0 <= i < final(output)@.len() ==> final(output)@[i] as int == old(
                    stream,
                )@.rendered(volume as int, out_frames, i)
        },
{
    if !playing {
        zero_from(output, 0);
        return ;
    }
    let len: usize = output.len();
    let ch: usize = stream.channels as usize;
    let out_frames: usize = len / ch;
    let ghost v0 = stream@;
    let ghost vol = volume as int;
    proof {
        stream.lemma_view_frames();
        lemma_fundamental_div_mod(len as int, ch as int);
        lemma_mod_bound(len as int, ch as int);
        assert(ch * out_frames == out_frames * ch) by (nonlinear_arith);
    }
    let mut f: usize = 0;
    let mut base: usize = 0;
    let mut ready: bool = stream.settle();
    while f < out_frames && ready
        invariant
            stream.wf(),
            v0.valid(),
            vol == volume as int,
            stream@ == v0.after(f as nat),
            v0.written(f as nat) == f,
            ready == !stream@.starved(),
            ready ==> stream.owed == 0,
            f <= out_frames,
            base == f * ch,
            out_frames * ch <= len,
            output@.len() == len,
            ch == v0.channels,
            ch == stream.channels,
            0 < ch,
            forall|i: int|
                0 <= i < base ==> output@[i] as int == v0.after((i / ch as int) as nat).sample(
                    i % (ch as int),
                    vol,
                ),
        decreases out_frames - f,
    {
        let ghost u = stream@;
        let ghost pulled = stream.pulled@ as int;
        let ghost history = stream.history@;
        proof {
            lemma_after_valid(v0, f as nat);
            stream.lemma_view_frames();
            assert((f + 1) * ch <= out_frames * ch && (f + 1) * ch == f * ch + ch)
                by (nonlinear_arith)
                requires
                    f + 1 <= out_frames,
                    ch > 0,
            ;
            assert((pulled - 2) * ch == pulled * ch - 2 * ch && (pulled - 1) * ch == pulled * ch
                - ch && 0 <= (pulled - 2) * ch) by (nonlinear_arith)
                requires
                    pulled >= 2,
                    ch > 0,
            ;
        }
        let mut c: usize = 0;
        while c < ch
            invariant
                c <= ch,
                0 < ch,
                vol == volume as int,
                base == f * ch,
                base + ch <= len,
                output@.len() == len,
                stream.wf(),
                stream@ == u,
                stream.owed == 0,
                stream.pulled@ == pulled,
                stream.history@ == history,
                pulled >= 2,
                history.len() == pulled * ch,
                (pulled - 2) * ch == pulled * ch - 2 * ch,
                (pulled - 1) * ch == pulled * ch - ch,
                u == v0.after(f as nat),
                ch == u.channels,
                ch == stream.channels,
                forall|i: int|
                    0 <= i < base + c ==> output@[i] as int == v0.after(
                        (i / ch as int) as nat,
                    ).sample(i % (ch as int), vol),
            decreases ch - c,
        {
            let s0: i32 = stream.prev_frame[c];
            let s1: i32 = stream.next_frame[c];
            let x: i32 = mix_sample(s0, s1, stream.frac, stream.device_rate, volume);
            let ghost before = output@;
            output[base + c] = x;
            proof {
                lemma_fundamental_div_mod_converse(base + c, ch as int, f as int, c as int);
                assert((base + c) / (ch as int) == f && (base + c) % (ch as int) == c);
                assert(u.cursor == pulled - 2);
                assert(u.stream[(pulled - 2) * ch + c] == history[(pulled - 2) * ch + c]);
                assert(u.stream[(pulled - 1) * ch + c] == history[(pulled - 1) * ch + c]);
                assert(s0 == history.subrange((pulled - 2) * ch, (pulled - 1) * ch)[c as int]);
                assert(s1 == history.subrange((pulled - 1) * ch, pulled * ch)[c as int]);
                assert(u.sample(c as int, vol) == x as int);
                assert forall|i: int| 0 <= i < base + c + 1 implies output@[i] as int == v0.after(
                    (i / ch as int) as nat,
                ).sample(i % (ch as int), vol) by {
                    if i < base + c {
                        assert(output@[i] == before[i]);
                    }
                }
            }
            c = c + 1;
        }
        stream.advance();
        f = f + 1;
        base = base + ch;
        ready = stream.settle();
    }
    proof {
        if !ready {
            lemma_starve_is_final(v0, f as nat, out_frames as nat);
        }
        assert(v0.written(out_frames as nat) == f);
        assert(f * ch <= out_frames * ch) by (nonlinear_arith)
            requires
                f <= out_frames,
                ch > 0,
        ;
    }
    if f < out_frames && stream.finished {
        proof {
            lemma_after_valid(v0, f as nat);
        }
        stream.restart();
    } else {
        proof {
            lemma_after_valid(v0, out_frames as nat);
        }
    }
    zero_from(output, base);
    proof {
        assert forall|i: int| 0 <= i < len implies output@[i] as int == v0.rendered(
            vol,
            out_frames as nat,
            i,
        ) by {
            lemma_fundamental_div_mod(i, ch as int);
            lemma_mod_bound(i, ch as int);
            let k = i / (ch as int);
            assert(ch * k == k * ch) by (nonlinear_arith);
            if i < base {
                assert(k < f) by (nonlinear_arith)
                    requires
                        k * ch <= i,
                        i < f * ch,
                        ch > 0,
                ;
            } else {
                assert(k >= f) by (nonlinear_arith)
                    requires
                        i < k * ch + ch,
                        i >= f * ch,
                        ch > 0,
                ;
            }
        }
    }
}

} // verus!
