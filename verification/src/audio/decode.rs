//! Decode bookkeeping: what a decode pass yields, and the decisions of the
//! pass itself.
//!
//! Reading and decoding packets is the caller's work. A [`DecodeSession`]
//! decides which packets to decode, what to do with each outcome, and what
//! the pass amounts to when it ends.

use vstd::prelude::*;
use vstd::arithmetic::div_mod::{lemma_fundamental_div_mod, lemma_mod_bound};
use vstd::string::StringExecFns;
use crate::audio::preview::{
    preview_len, rms_preview, whole_frames, window_frames, PreviewBuilder,
};
use crate::math::lemma_floor_div_unique;
use crate::time::Seconds;

verus! {

/// Metadata and amplitude preview of an audio file.
#[derive(Debug, Clone)]
pub struct DecodedInfo {
    pub sample_rate: u32,
    pub channels: u16,
    pub total_frames: u64,
    /// One RMS value per window of about 20 ms, in time order.
    pub rms_preview: Vec<u32>,
}

/// A whole file as interleaved PCM: frame-major, channel-minor.
#[derive(Debug, Clone)]
pub struct MemoryAudio {
    pub sample_rate: u32,
    pub channels: u16,
    pub frames: u64,
    pub data: Vec<i32>,
}

/// What a background load reports.
#[derive(Debug)]
pub enum LoadEvent {
    /// The stream's parameters are known; chunks will follow.
    StreamReady { sample_rate: u32, channels: u16 },
    /// The load succeeded.
    PreviewReady { info: DecodedInfo, audio: MemoryAudio },
    /// The load failed.
    Error(String),
}

/// Why a load failed before any packet was decoded.
#[derive(Debug, Clone, Copy, PartialEq, Eq, Structural)]
pub enum DecodeError {
    /// The path could not be read.
    Open,
    /// No container format matched.
    Probe,
    /// The file has no default audio track.
    NoTrack,
    /// The track does not state its sample rate or its channel count.
    UnknownFormat,
    /// No decoder is available for the track's codec.
    UnsupportedCodec,
}

/// Why a packet yielded no samples.
#[derive(Debug, Clone, Copy, PartialEq, Eq, Structural)]
pub enum PacketFailure {
    /// The packet is damaged; the stream goes on after it.
    Corrupt,
    /// Any other failure; the stream ends here.
    Fatal,
}

/// The parameters of a container's default track, as far as it states them.
#[derive(Debug, Clone, Copy)]
pub struct TrackParams {
    pub id: u32,
    pub sample_rate: Option<u32>,
    pub channels: Option<u16>,
}

/// What to do after a packet's outcome has been taken in.
#[derive(Debug)]
pub enum DecodeAction {
    /// Hand the chunk to the playback side, then read on.
    Publish(Vec<i32>),
    /// Read on.
    Skip,
    /// Stop reading; the pass is over.
    Stop,
}

impl DecodedInfo {
    /// This is the summary of interleaved `data` at the given parameters.
    pub open spec fn describes(&self, sample_rate: u32, channels: u16, data: Seq<i32>) -> bool {
        &&& self.sample_rate == sample_rate
        &&& self.channels == channels
        &&& self.total_frames as int == data.len() as int / channels as int
        &&& self.rms_preview@ == rms_preview(
            data,
            channels as int,
            window_frames(sample_rate as int),
        )
    }
}

impl MemoryAudio {
    /// The buffer holds exactly `frames` frames of `channels` samples.
    pub open spec fn wf(&self) -> bool {
        &&& self.sample_rate > 0
        &&& self.channels > 0
        &&& self.data@.len() == self.frames * self.channels
    }

    /// Builds a buffer from interleaved samples, or `None` where the
    /// parameters are zero or the samples do not make whole frames.
    pub fn new(sample_rate: u32, channels: u16, data: Vec<i32>) -> (r: Option<MemoryAudio>)
        ensures
            r.is_some() <==> sample_rate > 0 && channels > 0 && data@.len() % (channels as nat)
                == 0,
            r matches Some(a) ==> a.wf() && a.sample_rate == sample_rate && a.channels == channels
                && a.data@ == data@,
    {
        if sample_rate == 0 || channels == 0 {
            return None;
        }
        let len: usize = data.len();
        let ch: usize = channels as usize;
        if len % ch != 0 {
            return None;
        }
        let frames: usize = len / ch;
        proof {
            lemma_fundamental_div_mod(len as int, ch as int);
            assert(ch * frames == frames * ch) by (nonlinear_arith);
        }
        Some(MemoryAudio { sample_rate, channels, frames: frames as u64, data })
    }

    /// Whether the buffer holds exactly `frames` frames of `channels`
    /// samples, at a sample rate above zero.
    pub fn is_well_formed(&self) -> (ok: bool)
        ensures
            ok == self.wf(),
    {
        if self.sample_rate == 0 || self.channels == 0 {
            return false;
        }
        let ch: u64 = self.channels as u64;
        let len: u64 = self.data.len() as u64;
        proof {
            let f = self.frames as int;
            let c = ch as int;
            if f * c == len as int {
                assert(f * c <= len < (f + 1) * c) by (nonlinear_arith)
                    requires
                        f * c == len,
                        c > 0,
                ;
                lemma_floor_div_unique(len as int, c, f);
                lemma_fundamental_div_mod(len as int, c);
            }
            if len % ch == 0 && len / ch == self.frames {
                lemma_fundamental_div_mod(len as int, c);
                assert(c * f == f * c) by (nonlinear_arith);
            }
        }
        len % ch == 0 && len / ch == self.frames
    }
}

/// The state of one decode pass over a track.
pub struct DecodeSession {
    track_id: u32,
    sample_rate: u32,
    channels: u16,
    keep_audio: bool,
    preview: PreviewBuilder,
    data: Vec<i32>,
}

impl DecodeSession {
    /// All whole frames decoded so far, interleaved.
    pub closed spec fn seen(&self) -> Seq<i32> {
        self.preview.seen()
    }

    pub closed spec fn track_id(&self) -> u32 {
        self.track_id
    }

    pub closed spec fn sample_rate(&self) -> u32 {
        self.sample_rate
    }

    pub closed spec fn channels(&self) -> u16 {
        self.channels
    }

    /// Whether the pass keeps the decoded samples or only summarizes them.
    pub closed spec fn keeps_audio(&self) -> bool {
        self.keep_audio
    }

    pub closed spec fn wf(&self) -> bool {
        &&& self.sample_rate > 0
        &&& self.channels > 0
        &&& self.preview.wf()
        &&& self.preview.channels() == self.channels
        &&& self.preview.window() == window_frames(self.sample_rate as int)
        &&& self.keep_audio ==> self.data@ == self.preview.seen()
    }

    /// A well-formed pass has a sample rate and a channel count above zero.
    pub proof fn lemma_params_positive(&self)
        requires
            self.wf(),
        ensures
            self.sample_rate() > 0,
            self.channels() > 0,
    {
    }

    /// Starts a pass over a container's default track.
    ///
    /// Fails with `NoTrack` where there is no track, and with
    /// `UnknownFormat` where the track's sample rate or channel count is
    /// missing or zero.
    pub fn begin(track: Option<TrackParams>, keep_audio: bool) -> (r: Result<
        DecodeSession,
        DecodeError,
    >)
        ensures
            match track {
                None => r == Err::<DecodeSession, DecodeError>(DecodeError::NoTrack),
                Some(t) => {
                    if t.sample_rate is Some && t.sample_rate->0 > 0 && t.channels is Some
                        && t.channels->0 > 0 {
                        &&& r matches Ok(s)
                        &&& s.wf()
                        &&& s.seen() == Seq::<i32>::empty()
                        &&& s.track_id() == t.id
                        &&& s.sample_rate() == t.sample_rate->0
                        &&& s.channels() == t.channels->0
                        &&& s.keeps_audio() == keep_audio
                    } else {
                        r == Err::<DecodeSession, DecodeError>(DecodeError::UnknownFormat)
                    }
                },
            },
    {
        let t = match track {
            None => {
                return Err(DecodeError::NoTrack);
            },
            Some(t) => t,
        };
        let sample_rate = match t.sample_rate {
            Some(sr) => sr,
            None => {
                return Err(DecodeError::UnknownFormat);
            },
        };
        let channels = match t.channels {
            Some(ch) => ch,
            None => {
                return Err(DecodeError::UnknownFormat);
            },
        };
        if sample_rate == 0 || channels == 0 {
            return Err(DecodeError::UnknownFormat);
        }
        Ok(
            DecodeSession {
                track_id: t.id,
                sample_rate,
                channels,
                keep_audio,
                preview: PreviewBuilder::new(sample_rate, channels),
                data: Vec::new(),
            },
        )
    }

    /// The event that announces the stream's parameters.
    pub fn stream_ready(&self) -> (e: LoadEvent)
        ensures
            e matches LoadEvent::StreamReady { sample_rate, channels } && sample_rate
                == self.sample_rate() && channels == self.channels(),
    {
        LoadEvent::StreamReady { sample_rate: self.sample_rate, channels: self.channels }
    }

    /// Whether a packet of track `track_id` belongs to this pass. Packets of
    /// other tracks are passed over without decoding.
    pub fn wants_packet(&self, track_id: u32) -> (wanted: bool)
        ensures
            wanted == (track_id == self.track_id()),
    {
        track_id == self.track_id
    }

    /// What taking in `outcome` does to a pass, and the action it asks for.
    ///
    /// The whole frames of a decoded chunk join the stream, and the chunk is
    /// handed back for publishing. A corrupt packet is skipped. Any other
    /// failure ends the pass, as does a chunk that would take the frame count
    /// past `u64::MAX`; neither changes what was decoded so far.
    pub open spec fn takes_in(
        &self,
        outcome: Result<Vec<i32>, PacketFailure>,
        after: DecodeSession,
        action: DecodeAction,
    ) -> bool {
        &&& after.track_id() == self.track_id()
        &&& after.sample_rate() == self.sample_rate()
        &&& after.channels() == self.channels()
        &&& after.keeps_audio() == self.keeps_audio()
        &&& match outcome {
            Ok(samples) => {
                if self.seen().len() / (self.channels() as nat) + samples@.len() / (
                self.channels() as nat) <= u64::MAX {
                    &&& action matches DecodeAction::Publish(chunk)
                    &&& chunk@ == samples@
                    &&& after.seen() == self.seen() + whole_frames(
                        samples@,
                        self.channels() as int,
                    )
                } else {
                    action is Stop && after.seen() == self.seen()
                }
            },
            Err(PacketFailure::Corrupt) => action is Skip && after.seen() == self.seen(),
            Err(PacketFailure::Fatal) => action is Stop && after.seen() == self.seen(),
        }
    }

    /// Takes in the outcome of decoding one packet of the track.
    pub fn on_decoded(&mut self, outcome: Result<Vec<i32>, PacketFailure>) -> (action:
        DecodeAction)
        requires
            old(self).wf(),
        ensures
            final(self).wf(),
            old(self).takes_in(outcome, *final(self), action),
    {
        match outcome {
            Ok(samples) => {
                if !self.preview.push_frames(&samples) {
                    return DecodeAction::Stop;
                }
                if self.keep_audio {
                    let ch: usize = self.channels as usize;
                    let ghost before = self.data@;
                    let ghost preview = self.preview;
                    proof {
                        lemma_fundamental_div_mod(samples@.len() as int, ch as int);
                        lemma_mod_bound(samples@.len() as int, ch as int);
                        assert(ch * (samples@.len() as int / ch as int) == (samples@.len() as int
                            / ch as int) * ch) by (nonlinear_arith);
                    }
                    let n: usize = (samples.len() / ch) * ch;
                    let mut i: usize = 0;
                    while i < n
                        invariant
                            i <= n <= samples.len(),
                            self.data@ == before + samples@.subrange(0, i as int),
                            self.track_id == old(self).track_id,
                            self.sample_rate == old(self).sample_rate,
                            self.channels == old(self).channels,
                            self.keep_audio == old(self).keep_audio,
                            self.preview == preview,
                        decreases n - i,
                    {
                        self.data.push(samples[i]);
                        i = i + 1;
                        assert(samples@.subrange(0, i as int) =~= samples@.subrange(0, i - 1).push(
                            samples@[i - 1],
                        ));
                    }
                }
                DecodeAction::Publish(samples)
            },
            Err(PacketFailure::Corrupt) => DecodeAction::Skip,
            Err(PacketFailure::Fatal) => DecodeAction::Stop,
        }
    }
}

impl DecodeSession {
    /// The summary that the pass holds of the frames decoded so far.
    pub open spec fn summary_matches(&self, info: DecodedInfo) -> bool {
        info.describes(self.sample_rate(), self.channels(), self.seen())
    }

    /// Ends the pass. The summary covers every whole frame taken in; the
    /// audio comes with it where the pass kept it.
    pub fn finish(self) -> (r: (DecodedInfo, Option<MemoryAudio>))
        requires
            self.wf(),
        ensures
            self.summary_matches(r.0),
            r.0.rms_preview@.len() == preview_len(
                r.0.total_frames as int,
                window_frames(self.sample_rate() as int),
            ),
            r.1.is_some() == self.keeps_audio(),
            r.1 matches Some(audio) ==> {
                &&& audio.wf()
                &&& audio.sample_rate == self.sample_rate()
                &&& audio.channels == self.channels()
                &&& audio.frames == r.0.total_frames
                &&& audio.data@ == self.seen()
            },
    {
        let total_frames: u64 = self.preview.total_frames();
        let rms_preview = self.preview.finish();
        let info = DecodedInfo {
            sample_rate: self.sample_rate,
            channels: self.channels,
            total_frames,
            rms_preview,
        };
        let audio = if self.keep_audio {
            Some(
                MemoryAudio {
                    sample_rate: self.sample_rate,
                    channels: self.channels,
                    frames: total_frames,
                    data: self.data,
                },
            )
        } else {
            None
        };
        (info, audio)
    }
}

/// A pass that only summarizes and one that keeps the audio report the same
/// summary of the same frames.
pub proof fn lemma_summary_independent_of_mode(
    probe: DecodeSession,
    full: DecodeSession,
    probe_info: DecodedInfo,
    full_info: DecodedInfo,
)
    requires
        probe.sample_rate() == full.sample_rate(),
        probe.channels() == full.channels(),
        probe.seen() == full.seen(),
        probe.summary_matches(probe_info),
        full.summary_matches(full_info),
    ensures
        probe_info.sample_rate == full_info.sample_rate,
        probe_info.channels == full_info.channels,
        probe_info.total_frames == full_info.total_frames,
        probe_info.rms_preview@ == full_info.rms_preview@,
{
}

impl DecodeError {
    /// The error in words.
    pub open spec fn text(&self) -> Seq<char> {
        match self {
            DecodeError::Open => "cannot open the file"@,
            DecodeError::Probe => "unrecognized container format"@,
            DecodeError::NoTrack => "no default audio track found"@,
            DecodeError::UnknownFormat => "unknown sample rate or channel count"@,
            DecodeError::UnsupportedCodec => "unsupported codec"@,
        }
    }

    /// The error in words.
    pub fn message(&self) -> (msg: String)
        ensures
            msg@ == self.text(),
    {
        match self {
            DecodeError::Open => String::from_str("cannot open the file"),
            DecodeError::Probe => String::from_str("unrecognized container format"),
            DecodeError::NoTrack => String::from_str("no default audio track found"),
            DecodeError::UnknownFormat => String::from_str("unknown sample rate or channel count"),
            DecodeError::UnsupportedCodec => String::from_str("unsupported codec"),
        }
    }

    /// The terminal event of a load that failed with this error. `detail`,
    /// where it is not empty, follows the error's words after a colon.
    pub fn into_event(self, detail: &str) -> (e: LoadEvent)
        ensures
            e matches LoadEvent::Error(msg) && msg@ == if detail@.len() == 0 {
                self.text()
            } else {
                self.text() + ": "@ + detail@
            },
    {
        let mut msg = self.message();
        if detail.unicode_len() > 0 {
            msg.append(": ");
            msg.append(detail);
        }
        LoadEvent::Error(msg)
    }
}

impl DecodedInfo {
    /// The file's duration, rounded down to the nanosecond.
    pub fn duration(&self) -> (d: Seconds)
        requires
            self.sample_rate > 0,
        ensures
            d@ == crate::time::frames_to_seconds(self.total_frames as int, self.sample_rate as int),
    {
        Seconds::from_frames(self.total_frames, self.sample_rate)
    }
}

} // verus!
