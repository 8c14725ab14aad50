//! The state behind the loop controls and the waveform: what was loaded,
//! the visible window, the loop range, and a loop drag in progress.
//!
//! The state changes on two kinds of input: the events of a load, and the
//! pointer gestures that the waveform view reports.

use vstd::prelude::*;
use crate::audio::decode::{DecodedInfo, LoadEvent, MemoryAudio};
use crate::audio::playback::Player;
use crate::loop_range::LoopRange;
use crate::time::{frames_to_seconds, Seconds, NANOS_PER_SECOND};
use crate::ui::waveform::WaveformResult;

verus! {

/// The width of the window shown before a file is loaded: 10 s.
pub const DEFAULT_VIEW_NANOS: i64 = 10_000_000_000;

/// What the owner of the engine has to do after a load event.
#[derive(Debug)]
pub enum LoadAction {
    /// Start a streaming engine for a stream of these parameters.
    StartStream { sample_rate: u32, channels: u16 },
    /// Keep the decoded audio, and start a memory engine on it where
    /// `replace_player` holds. The load is over.
    InstallAudio { audio: MemoryAudio, replace_player: bool },
    /// Drop what is left of the load: it failed.
    Abandon,
}

/// The state behind the loop controls and the waveform.
#[derive(Debug)]
pub struct EditorState {
    pub info: Option<DecodedInfo>,
    pub meta_sample_rate: Option<u32>,
    pub meta_channels: Option<u16>,
    pub load_error: Option<String>,
    pub loop_range: Option<LoopRange>,
    /// Where the loop drag in progress began.
    pub loop_drag_anchor: Option<Seconds>,
    pub view_x_min: Seconds,
    pub view_x_max: Seconds,
}

/// The instant `t` held inside `[0, duration]`.
pub open spec fn held_in_file(t: Seconds, duration: Seconds) -> Seconds {
    if t.nanos < 0 {
        Seconds { nanos: 0 }
    } else if t.nanos > duration.nanos {
        duration
    } else {
        t
    }
}

/// The loop range that a drag from `a` to `b` selects in a file of length
/// `duration`.
pub open spec fn selected(a: Seconds, b: Seconds, duration: Seconds) -> LoopRange {
    if a.nanos <= b.nanos {
        LoopRange { start: held_in_file(a, duration), end: held_in_file(b, duration) }
    } else {
        LoopRange { start: held_in_file(b, duration), end: held_in_file(a, duration) }
    }
}

/// The loop range after a frame of the waveform view.
///
/// Gestures count only while shift is held. A drag that starts puts both
/// ends of the range under the pointer; a drag in progress spans from where
/// it began to the pointer.
pub open spec fn range_after(
    range: Option<LoopRange>,
    anchor: Option<Seconds>,
    duration: Seconds,
    result: WaveformResult,
) -> Option<LoopRange> {
    if !result.shift_down {
        range
    } else {
        let started = result.drag_started && result.pointer_seconds is Some;
        let anchor_now = if started {
            result.pointer_seconds
        } else {
            anchor
        };
        if result.drag_active && anchor_now is Some && result.pointer_seconds is Some {
            Some(selected(anchor_now->0, result.pointer_seconds->0, duration))
        } else if started {
            Some(selected(result.pointer_seconds->0, result.pointer_seconds->0, duration))
        } else {
            range
        }
    }
}

/// Where the drag in progress began, after a frame of the waveform view: a
/// released drag is over, and a drag that starts with shift held begins
/// under the pointer.
pub open spec fn anchor_after(anchor: Option<Seconds>, result: WaveformResult) -> Option<Seconds> {
    if result.drag_released {
        None
    } else if result.shift_down && result.drag_started && result.pointer_seconds is Some {
        result.pointer_seconds
    } else {
        anchor
    }
}

/// Whether decoded audio that arrives should take over from the engine in
/// use: it should, unless that engine is playing a stream.
pub fn should_replace(player: Option<&Player>) -> (replace: bool)
    ensures
        replace == match player {
            Some(p) => !(p@.mode is Stream) || !p@.playing,
            None => true,
        },
{
    match player {
        Some(p) => !p.is_streaming() || !p.is_playing(),
        None => true,
    }
}

impl LoadAction {
    /// Whether the load is over after this action.
    pub fn ends_load(&self) -> (over: bool)
        ensures
            over == !(self is StartStream),
    {
        match self {
            LoadAction::StartStream { .. } => false,
            _ => true,
        }
    }
}

impl EditorState {
    /// The state before any file is loaded.
    pub open spec fn is_blank(&self) -> bool {
        &&& self.info is None
        &&& self.meta_sample_rate is None
        &&& self.meta_channels is None
        &&& self.load_error is None
        &&& self.loop_range is None
        &&& self.loop_drag_anchor is None
        &&& self.view_x_min@ == 0
        &&& self.view_x_max@ == DEFAULT_VIEW_NANOS
    }

    pub fn new() -> (state: EditorState)
        ensures
            state.is_blank(),
    {
        EditorState {
            info: None,
            meta_sample_rate: None,
            meta_channels: None,
            load_error: None,
            loop_range: None,
            loop_drag_anchor: None,
            view_x_min: Seconds { nanos: 0 },
            view_x_max: Seconds { nanos: DEFAULT_VIEW_NANOS },
        }
    }

    /// Forgets the loaded file.
    pub fn reset_state(&mut self)
        ensures
            final(self).is_blank(),
    {
        self.info = None;
        self.meta_sample_rate = None;
        self.meta_channels = None;
        self.load_error = None;
        self.loop_range = None;
        self.loop_drag_anchor = None;
        self.view_x_min = Seconds { nanos: 0 };
        self.view_x_max = Seconds { nanos: DEFAULT_VIEW_NANOS };
    }

    /// Takes in one event of the load.
    ///
    /// `StreamReady` records the stream's parameters. `PreviewReady` installs
    /// the summary, shows the whole file but at least one second, and puts
    /// the loop range over the whole file. `Error` records the message. The
    /// action says what is left to do for the owner of the engine.
    pub fn on_load_event(&mut self, event: LoadEvent, player: Option<&Player>) -> (action:
        LoadAction)
        requires
            event matches LoadEvent::PreviewReady { info, audio } ==> info.sample_rate > 0,
        ensures
            match event {
                LoadEvent::StreamReady { sample_rate, channels } => {
                    &&& action matches LoadAction::StartStream { sample_rate: sr, channels: ch }
                    &&& sr == sample_rate
                    &&& ch == channels
                    &&& final(self).meta_sample_rate == Some(sample_rate)
                    &&& final(self).meta_channels == Some(channels)
                    &&& final(self).info == old(self).info
                    &&& final(self).load_error == old(self).load_error
                    &&& final(self).loop_range == old(self).loop_range
                    &&& final(self).loop_drag_anchor == old(self).loop_drag_anchor
                    &&& final(self).view_x_min == old(self).view_x_min
                    &&& final(self).view_x_max == old(self).view_x_max
                },
                LoadEvent::PreviewReady { info, audio } => {
                    let duration = frames_to_seconds(
                        info.total_frames as int,
                        info.sample_rate as int,
                    );
                    &&& action matches LoadAction::InstallAudio { audio: kept, replace_player }
                    &&& kept == audio
                    &&& replace_player == match player {
                        Some(p) => !(p@.mode is Stream) || !p@.playing,
                        None => true,
                    }
                    &&& final(self).info == Some(info)
                    &&& final(self).view_x_min@ == 0
                    &&& final(self).view_x_max@ == if duration < NANOS_PER_SECOND {
                        NANOS_PER_SECOND as int
                    } else {
                        duration
                    }
                    &&& final(self).loop_range matches Some(range)
                    &&& range.start@ == 0
                    &&& range.end@ == duration
                    &&& final(self).loop_drag_anchor is None
                    &&& final(self).meta_sample_rate == old(self).meta_sample_rate
                    &&& final(self).meta_channels == old(self).meta_channels
                    &&& final(self).load_error == old(self).load_error
                },
                LoadEvent::Error(msg) => {
                    &&& action is Abandon
                    &&& final(self).load_error == Some(msg)
                    &&& final(self).info == old(self).info
                    &&& final(self).meta_sample_rate == old(self).meta_sample_rate
                    &&& final(self).meta_channels == old(self).meta_channels
                    &&& final(self).loop_range == old(self).loop_range
                    &&& final(self).loop_drag_anchor == old(self).loop_drag_anchor
                    &&& final(self).view_x_min == old(self).view_x_min
                    &&& final(self).view_x_max == old(self).view_x_max
                },
            },
    {
        match event {
            LoadEvent::StreamReady { sample_rate, channels } => {
                self.meta_sample_rate = Some(sample_rate);
                self.meta_channels = Some(channels);
                LoadAction::StartStream { sample_rate, channels }
            },
            LoadEvent::PreviewReady { info, audio } => {
                let duration = info.duration();
                self.view_x_min = Seconds { nanos: 0 };
                self.view_x_max = if duration.nanos < NANOS_PER_SECOND {
                    Seconds { nanos: NANOS_PER_SECOND }
                } else {
                    duration
                };
                self.info = Some(info);
                self.loop_range = Some(LoopRange::ordered(Seconds { nanos: 0 }, duration));
                self.loop_drag_anchor = None;
                LoadAction::InstallAudio { audio, replace_player: should_replace(player) }
            },
            LoadEvent::Error(msg) => {
                self.load_error = Some(msg);
                LoadAction::Abandon
            },
        }
    }

    /// Sets the loop range from two endpoints in either order, held inside
    /// the file.
    pub fn set_loop_points(&mut self, a: Seconds, b: Seconds, duration: Seconds)
        requires
            duration@ >= 0,
        ensures
            final(self).loop_range == Some(selected(a, b, duration)),
            final(self).info == old(self).info,
            final(self).meta_sample_rate == old(self).meta_sample_rate,
            final(self).meta_channels == old(self).meta_channels,
            final(self).load_error == old(self).load_error,
            final(self).loop_drag_anchor == old(self).loop_drag_anchor,
            final(self).view_x_min == old(self).view_x_min,
            final(self).view_x_max == old(self).view_x_max,
    {
        self.loop_range = Some(LoopRange::ordered(a, b).clamp(duration));
    }

    /// Takes in the pointer gestures of one frame of the waveform view, on
    /// a file of length `duration`.
    pub fn handle_waveform_interaction(&mut self, duration: Seconds, result: &WaveformResult)
        requires
            duration@ >= 0,
        ensures
            final(self).loop_range == range_after(
                old(self).loop_range,
                old(self).loop_drag_anchor,
                duration,
                *result,
            ),
            final(self).loop_drag_anchor == anchor_after(old(self).loop_drag_anchor, *result),
            final(self).info == old(self).info,
            final(self).meta_sample_rate == old(self).meta_sample_rate,
            final(self).meta_channels == old(self).meta_channels,
            final(self).load_error == old(self).load_error,
            final(self).view_x_min == old(self).view_x_min,
            final(self).view_x_max == old(self).view_x_max,
    {
        if !result.shift_down {
            if result.drag_released {
                self.loop_drag_anchor = None;
            }
            return ;
        }
        if result.drag_started {
            match result.pointer_seconds {
                Some(sec) => {
                    self.loop_drag_anchor = Some(sec);
                    self.loop_range = Some(LoopRange::ordered(sec, sec).clamp(duration));
                },
                None => {},
            }
        }
        match (self.loop_drag_anchor, result.pointer_seconds) {
            (Some(anchor), Some(current)) => {
                if result.drag_active {
                    self.loop_range = Some(LoopRange::ordered(anchor, current).clamp(duration));
                }
            },
            _ => {},
        }
        if result.drag_released {
            self.loop_drag_anchor = None;
        }
    }
}

} // verus!
