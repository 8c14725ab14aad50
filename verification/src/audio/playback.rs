//! The playback engine: one state record for both playback modes, with the
//! transport commands and the render step.
//!
//! The engine owns no device. Whoever owns one builds the engine from the
//! device's sample rate, calls [`Player::render`] once per output buffer and
//! feeds a streaming engine with the chunks that arrive.

use vstd::prelude::*;
use vstd::string::StringExecFns;
use crate::audio::decode::MemoryAudio;
use vstd::arithmetic::div_mod::{lemma_fundamental_div_mod, lemma_mod_bound};
use crate::audio::memory::{lemma_after_wf, process_memory, MemoryState, MemoryView};
use crate::audio::preview::whole_frames;
use crate::audio::resample::UNITY_GAIN;
use crate::audio::stream::{
    lemma_after_valid, lemma_reads_inside_stream, process_stream, StreamState, StreamView,
};
use crate::time::Seconds;

verus! {

/// Why no engine could be built.
#[derive(Debug, Clone, Copy, PartialEq, Eq, Structural)]
pub enum DeviceError {
    /// There is no output device.
    Missing,
    /// The device cannot be configured for the source.
    Unconfigurable,
}

impl DeviceError {
    /// The error in words.
    pub open spec fn text(&self) -> Seq<char> {
        match self {
            DeviceError::Missing => "no output device"@,
            DeviceError::Unconfigurable => "the output device cannot be configured"@,
        }
    }

    /// The error in words.
    pub fn message(&self) -> (msg: String)
        ensures
            msg@ == self.text(),
    {
        match self {
            DeviceError::Missing => String::from_str("no output device"),
            DeviceError::Unconfigurable => String::from_str(
                "the output device cannot be configured",
            ),
        }
    }
}

/// Where the engine takes its audio from.
pub enum PlaybackMode {
    Memory(MemoryState),
    Stream(StreamState),
}

/// The mathematical state of a playback mode.
pub enum ModeView {
    Memory(MemoryView),
    Stream(StreamView),
}

/// The mathematical state of the engine.
pub struct PlayerView {
    pub mode: ModeView,
    pub playing: bool,
    pub volume: int,
}

impl ModeView {
    /// The playhead's source time in nanoseconds.
    pub open spec fn position_nanos(self) -> int {
        match self {
            ModeView::Memory(m) => m.position_nanos(),
            ModeView::Stream(s) => s.position_nanos(),
        }
    }

    pub open spec fn channels(self) -> int {
        match self {
            ModeView::Memory(m) => m.channels,
            ModeView::Stream(s) => s.channels,
        }
    }

    /// The mode after a stop: a memory playhead is at the loop's start, or
    /// at the file's start where no loop is set; a stream is dropped.
    pub open spec fn stopped(self) -> ModeView {
        match self {
            ModeView::Memory(m) => ModeView::Memory(
                MemoryView {
                    frame: match m.loop_range {
                        Some((start, end)) => start,
                        None => 0,
                    },
                    frac: 0,
                    ..m
                },
            ),
            ModeView::Stream(s) => ModeView::Stream(s.stopped()),
        }
    }

    /// The mode after rendering `out_frames` frames while playing.
    pub open spec fn after_render(self, out_frames: nat) -> ModeView {
        match self {
            ModeView::Memory(m) => ModeView::Memory(m.after(out_frames)),
            ModeView::Stream(s) => ModeView::Stream(s.after_render(out_frames)),
        }
    }

    /// Sample `i` of a buffer of `out_frames` frames rendered while playing.
    pub open spec fn rendered(self, volume: int, out_frames: nat, i: int) -> int {
        match self {
            ModeView::Memory(m) => m.rendered(volume, out_frames, i),
            ModeView::Stream(s) => s.rendered(volume, out_frames, i),
        }
    }
}

impl PlayerView {
    /// The number of whole frames in a buffer of `len` samples.
    pub open spec fn out_frames(self, len: nat) -> nat {
        (len as int / self.mode.channels()) as nat
    }

    /// The state after rendering a buffer of `len` samples.
    pub open spec fn after_render(self, len: nat) -> PlayerView {
        if self.playing {
            PlayerView { mode: self.mode.after_render(self.out_frames(len)), ..self }
        } else {
            self
        }
    }

    /// Sample `i` of a rendered buffer of `len` samples: silence while not
    /// playing.
    pub open spec fn rendered(self, len: nat, i: int) -> int {
        if self.playing {
            self.mode.rendered(self.volume, self.out_frames(len), i)
        } else {
            0
        }
    }

    /// The state after rendering one buffer after another, of the lengths
    /// in `lens`.
    pub open spec fn after_renders(self, lens: Seq<nat>) -> PlayerView
        decreases lens.len(),
    {
        if lens.len() == 0 {
            self
        } else {
            self.after_renders(lens.drop_last()).after_render(lens.last())
        }
    }
}

/// A stream and a buffer without a loop hold the same audio at the same
/// rates, and their playheads stand at the same place or can both go no
/// further.
pub open spec fn in_step(s: StreamView, m: MemoryView) -> bool {
    &&& s.stream == m.data
    &&& s.channels == m.channels
    &&& s.sample_rate == m.sample_rate
    &&& s.device_rate == m.device_rate
    &&& m.loop_range is None
    &&& (s.cursor == m.frame && s.frac == m.frac) || (s.starved() && m.stalled())
}

/// A stream and a buffer that are in step stay in step, and produce the same
/// number of frames.
pub proof fn lemma_modes_stay_in_step(s: StreamView, m: MemoryView, k: nat)
    requires
        s.valid(),
        m.wf(),
        in_step(s, m),
    ensures
        in_step(s.after(k), m.after(k)),
        s.written(k) == m.written(k),
    decreases k,
{
    if k > 0 {
        let j = (k - 1) as nat;
        lemma_modes_stay_in_step(s, m, j);
        lemma_after_valid(s, j);
        lemma_after_wf(m, j);
        let s1 = s.after(j);
        let m1 = m.after(j);
        assert(s1.frames() == m1.frames());
        if !s1.starved() {
            let ticks = s1.frac + s1.sample_rate;
            lemma_mod_bound(ticks, s1.device_rate);
            lemma_fundamental_div_mod(ticks, s1.device_rate);
            assert(ticks / s1.device_rate >= 0) by (nonlinear_arith)
                requires
                    ticks == s1.device_rate * (ticks / s1.device_rate) + ticks % s1.device_rate,
                    ticks % s1.device_rate < s1.device_rate,
                    ticks >= 0,
                    s1.device_rate > 0,
            ;
        }
    }
}

/// Streaming playback renders what memory playback without a loop renders
/// of the same audio from the same place.
pub proof fn lemma_stream_renders_as_memory(
    s: StreamView,
    m: MemoryView,
    volume: int,
    out_frames: nat,
    i: int,
)
    requires
        s.valid(),
        m.wf(),
        in_step(s, m),
    ensures
        s.rendered(volume, out_frames, i) == m.rendered(volume, out_frames, i),
{
    lemma_modes_stay_in_step(s, m, out_frames);
    let k = i / s.channels;
    if 0 <= k < s.written(out_frames) {
        lemma_modes_stay_in_step(s, m, k as nat);
        lemma_reads_inside_stream(s, k as nat, out_frames);
        lemma_after_valid(s, k as nat);
        lemma_after_wf(m, k as nat);
    }
}

/// While the engine is paused, rendering does not move the playhead: its
/// position is the same after any number of buffers.
pub proof fn lemma_paused_position_holds(v: PlayerView, lens: Seq<nat>)
    requires
        !v.playing,
    ensures
        v.after_renders(lens) == v,
        v.after_renders(lens).mode.position_nanos() == v.mode.position_nanos(),
    decreases lens.len(),
{
    if lens.len() > 0 {
        lemma_paused_position_holds(v, lens.drop_last());
    }
}

/// The playback engine.
pub struct Player {
    mode: PlaybackMode,
    playing: bool,
    volume: u32,
}

impl View for Player {
    type V = PlayerView;

    closed spec fn view(&self) -> PlayerView {
        PlayerView {
            mode: match self.mode {
                PlaybackMode::Memory(m) => ModeView::Memory(m@),
                PlaybackMode::Stream(s) => ModeView::Stream(s@),
            },
            playing: self.playing,
            volume: self.volume as int,
        }
    }
}

impl Player {
    pub closed spec fn wf(&self) -> bool {
        match self.mode {
            PlaybackMode::Memory(m) => m.wf(),
            PlaybackMode::Stream(s) => s.wf(),
        }
    }

    /// A well-formed engine has a well-formed view of its mode.
    pub proof fn lemma_view_wf(&self)
        requires
            self.wf(),
        ensures
            match self@.mode {
                ModeView::Memory(m) => m.wf(),
                ModeView::Stream(s) => s.valid(),
            },
    {
        match self.mode {
            PlaybackMode::Memory(m) => {
                m.lemma_view_wf();
            },
            PlaybackMode::Stream(s) => {
                s.lemma_view_valid();
            },
        }
    }

    /// An engine that plays `src` from its first frame on a device that
    /// runs at `device_rate`: playing, at full volume, with no loop.
    ///
    /// Fails where the device reports a sample rate of zero.
    pub fn from_memory(src: MemoryAudio, device_rate: u32) -> (r: Result<Player, DeviceError>)
        requires
            src.wf(),
        ensures
            device_rate == 0 ==> r == Err::<Player, DeviceError>(DeviceError::Unconfigurable),
            device_rate > 0 ==> (r matches Ok(p) && p.wf() && p@ == (PlayerView {
                mode: ModeView::Memory(
                    MemoryView {
                        data: src.data@,
                        channels: src.channels as int,
                        sample_rate: src.sample_rate as int,
                        device_rate: device_rate as int,
                        frame: 0,
                        frac: 0,
                        loop_range: None,
                    },
                ),
                playing: true,
                volume: UNITY_GAIN as int,
            })),
    {
        if device_rate == 0 {
            return Err(DeviceError::Unconfigurable);
        }
        Ok(
            Player {
                mode: PlaybackMode::Memory(MemoryState::new(src, device_rate)),
                playing: true,
                volume: UNITY_GAIN,
            },
        )
    }

    /// An engine that plays a stream of `channels` channels at
    /// `sample_rate` on a device that runs at `device_rate`: playing, at
    /// full volume, with nothing arrived yet.
    ///
    /// Fails where the stream has no channels or the device reports a sample
    /// rate of zero.
    pub fn from_stream(sample_rate: u32, channels: u16, device_rate: u32) -> (r: Result<
        Player,
        DeviceError,
    >)
        requires
            sample_rate > 0,
        ensures
            channels == 0 || device_rate == 0 ==> r == Err::<Player, DeviceError>(
                DeviceError::Unconfigurable,
            ),
            channels > 0 && device_rate > 0 ==> (r matches Ok(p) && p.wf() && p@ == (PlayerView {
                mode: ModeView::Stream(
                    StreamView {
                        stream: Seq::empty(),
                        channels: channels as int,
                        sample_rate: sample_rate as int,
                        device_rate: device_rate as int,
                        cursor: 0,
                        frac: 0,
                        position: 0,
                        finished: false,
                    },
                ),
                playing: true,
                volume: UNITY_GAIN as int,
            })),
    {
        if channels == 0 || device_rate == 0 {
            return Err(DeviceError::Unconfigurable);
        }
        Ok(
            Player {
                mode: PlaybackMode::Stream(StreamState::new(sample_rate, channels, device_rate)),
                playing: true,
                volume: UNITY_GAIN,
            },
        )
    }

    /// Starts or resumes playback.
    pub fn play(&mut self)
        requires
            old(self).wf(),
        ensures
            final(self).wf(),
            final(self)@ == (PlayerView { playing: true, ..old(self)@ }),
    {
        self.playing = true;
    }

    /// Pauses playback; the playhead stays where it is.
    pub fn pause(&mut self)
        requires
            old(self).wf(),
        ensures
            final(self).wf(),
            final(self)@ == (PlayerView { playing: false, ..old(self)@ }),
    {
        self.playing = false;
    }

    /// Stops playback and rewinds.
    pub fn stop(&mut self)
        requires
            old(self).wf(),
        ensures
            final(self).wf(),
            final(self)@ == (PlayerView {
                playing: false,
                mode: old(self)@.mode.stopped(),
                ..old(self)@
            }),
    {
        self.playing = false;
        match &mut self.mode {
            PlaybackMode::Memory(mem) => {
                mem.reset_to_loop_start();
            },
            PlaybackMode::Stream(stream) => {
                stream.stop();
            },
        }
    }

    pub fn is_playing(&self) -> (playing: bool)
        ensures
            playing == self@.playing,
    {
        self.playing
    }

    /// Whether the engine plays a live stream.
    pub fn is_streaming(&self) -> (streaming: bool)
        ensures
            streaming == (self@.mode is Stream),
    {
        match &self.mode {
            PlaybackMode::Memory(_) => false,
            PlaybackMode::Stream(_) => true,
        }
    }

    /// The playhead's position in source time.
    pub fn position_seconds(&self) -> (t: Seconds)
        requires
            self.wf(),
        ensures
            t@ == self@.mode.position_nanos(),
    {
        match &self.mode {
            PlaybackMode::Memory(mem) => mem.position_seconds(),
            PlaybackMode::Stream(stream) => stream.position_seconds(),
        }
    }

    /// Sets or clears the loop window of memory playback. A stream has no
    /// loop window and is left as it is.
    pub fn set_loop(&mut self, range: Option<(Seconds, Seconds)>)
        requires
            old(self).wf(),
        ensures
            final(self).wf(),
            final(self)@ == (PlayerView {
                mode: match old(self)@.mode {
                    ModeView::Memory(m) => ModeView::Memory(
                        m.with_loop(
                            match range {
                                Some((start, end)) => m.loop_window(start@, end@),
                                None => None,
                            },
                        ),
                    ),
                    ModeView::Stream(s) => ModeView::Stream(s),
                },
                ..old(self)@
            }),
    {
        match &mut self.mode {
            PlaybackMode::Memory(mem) => {
                mem.set_loop(range);
            },
            PlaybackMode::Stream(_) => {},
        }
    }

    /// Seeks memory playback to `seconds`. A stream cannot seek and is left
    /// as it is.
    pub fn set_position_seconds(&mut self, seconds: Seconds)
        requires
            old(self).wf(),
        ensures
            final(self).wf(),
            final(self)@ == (PlayerView {
                mode: match old(self)@.mode {
                    ModeView::Memory(m) => ModeView::Memory(
                        m.moved_to(m.seek_target(seconds@).0, m.seek_target(seconds@).1),
                    ),
                    ModeView::Stream(s) => ModeView::Stream(s),
                },
                ..old(self)@
            }),
    {
        match &mut self.mode {
            PlaybackMode::Memory(mem) => {
                mem.set_position_seconds(seconds);
            },
            PlaybackMode::Stream(_) => {},
        }
    }

    /// The loop window `[start, end)` of memory playback in frames, where
    /// one is set.
    pub fn loop_range(&self) -> (window: Option<(u64, u64)>)
        ensures
            match window {
                Some((start, end)) => self@.mode matches ModeView::Memory(m) && m.loop_range
                    == Some((start as int, end as int)),
                None => self@.mode matches ModeView::Memory(m) ==> m.loop_range is None,
            },
    {
        match &self.mode {
            PlaybackMode::Memory(mem) => mem.loop_range(),
            PlaybackMode::Stream(_) => None,
        }
    }

    /// The volume, in units of `1 / UNITY_GAIN`.
    pub fn volume(&self) -> (volume: u32)
        ensures
            volume == self@.volume,
    {
        self.volume
    }

    /// Sets the volume, in units of `1 / UNITY_GAIN`. It is not limited.
    pub fn set_volume(&mut self, volume: u32)
        requires
            old(self).wf(),
        ensures
            final(self).wf(),
            final(self)@ == (PlayerView { volume: volume as int, ..old(self)@ }),
    {
        self.volume = volume;
    }

    /// Whether the engine takes chunks now: it plays a stream and is not
    /// paused.
    pub fn wants_chunks(&self) -> (wanted: bool)
        ensures
            wanted == (self@.playing && self@.mode is Stream),
    {
        self.playing && self.is_streaming()
    }

    /// Adds a chunk at the end of the stream. An engine that plays from
    /// memory drops it.
    pub fn push_chunk(&mut self, chunk: Vec<i32>)
        requires
            old(self).wf(),
        ensures
            final(self).wf(),
            final(self)@ == (PlayerView {
                mode: match old(self)@.mode {
                    ModeView::Memory(m) => ModeView::Memory(m),
                    ModeView::Stream(s) => ModeView::Stream(
                        StreamView { stream: s.stream + whole_frames(chunk@, s.channels), ..s },
                    ),
                },
                ..old(self)@
            }),
    {
        match &mut self.mode {
            PlaybackMode::Memory(_) => {},
            PlaybackMode::Stream(stream) => {
                stream.enqueue(chunk);
            },
        }
    }

    /// Records that the stream's sender has gone. An engine that plays from
    /// memory is left as it is.
    pub fn source_closed(&mut self)
        requires
            old(self).wf(),
        ensures
            final(self).wf(),
            final(self)@ == (PlayerView {
                mode: match old(self)@.mode {
                    ModeView::Memory(m) => ModeView::Memory(m),
                    ModeView::Stream(s) => ModeView::Stream(StreamView { finished: true, ..s }),
                },
                ..old(self)@
            }),
    {
        match &mut self.mode {
            PlaybackMode::Memory(_) => {},
            PlaybackMode::Stream(stream) => {
                stream.mark_finished();
            },
        }
    }

    /// Whether the engine plays a stream whose sender has gone.
    pub fn is_finished(&self) -> (finished: bool)
        ensures
            finished == (self@.mode matches ModeView::Stream(s) && s.finished),
    {
        match &self.mode {
            PlaybackMode::Memory(_) => false,
            PlaybackMode::Stream(stream) => stream.is_finished(),
        }
    }

    /// Renders one output buffer in the engine's mode.
    pub fn render(&mut self, output: &mut Vec<i32>)
        requires
            old(self).wf(),
        ensures
            final(self).wf(),
            final(output)@.len() == old(output)@.len(),
            final(self)@ == old(self)@.after_render(old(output)@.len()),
            forall|i: int|
                0 <= i < final(output)@.len() ==> final(output)@[i] as int == old(self)@.rendered(
                    old(output)@.len(),
                    i,
                ),
    {
        let playing: bool = self.playing;
        let volume: u32 = self.volume;
        match &mut self.mode {
            PlaybackMode::Memory(mem) => {
                process_memory(mem, playing, volume, output);
            },
            PlaybackMode::Stream(stream) => {
                process_stream(stream, playing, volume, output);
            },
        }
    }
}

} // verus!
