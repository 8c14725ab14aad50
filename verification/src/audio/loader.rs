//! The lifecycle of one load, as the events it emits.
//!
//! A load announces its stream once the track's parameters are known, and
//! ends with exactly one terminal event: the decoded file, or an error. A
//! [`LoadJob`] hands out these events in that order and no other, whatever
//! its caller does.

use vstd::prelude::*;
use vstd::pervasive::unreached;
use crate::audio::decode::{
    DecodeAction, DecodeError, DecodeSession, LoadEvent, PacketFailure, TrackParams,
};

verus! {

/// The kind of a load event.
#[derive(Debug, Clone, Copy, PartialEq, Eq, Structural)]
pub enum EventKind {
    StreamReady,
    PreviewReady,
    Error,
}

/// How far a load has come.
#[derive(Debug, Clone, Copy, PartialEq, Eq, Structural)]
pub enum LoadPhase {
    /// No track has been found yet.
    Probing,
    /// Packets are being decoded.
    Streaming,
    /// The terminal event has been emitted.
    Done,
}

impl EventKind {
    /// Whether an event of this kind ends a load.
    pub open spec fn is_terminal(self) -> bool {
        self != EventKind::StreamReady
    }
}

/// The kind of `event`.
pub open spec fn kind_of(event: LoadEvent) -> EventKind {
    match event {
        LoadEvent::StreamReady { .. } => EventKind::StreamReady,
        LoadEvent::PreviewReady { .. } => EventKind::PreviewReady,
        LoadEvent::Error(_) => EventKind::Error,
    }
}

/// The events of a load so far are in order: the stream is announced at
/// most once, and a terminal event is the last event.
pub open spec fn is_lifecycle(events: Seq<EventKind>) -> bool {
    &&& forall|i: int| 0 <= i < events.len() && (#[trigger] events[i]).is_terminal() ==> i
        == events.len() - 1
    &&& forall|i: int|
        0 <= i < events.len() && #[trigger] events[i] == EventKind::StreamReady ==> i == 0
}

enum JobState {
    Probing,
    Streaming(DecodeSession),
    Done,
}

/// One load, from the probe of its container to its terminal event.
pub struct LoadJob {
    state: JobState,
    events: Ghost<Seq<EventKind>>,
}

impl LoadJob {
    /// The kinds of the events emitted so far, in order.
    pub closed spec fn events(&self) -> Seq<EventKind> {
        self.events@
    }

    pub closed spec fn phase(&self) -> LoadPhase {
        match self.state {
            JobState::Probing => LoadPhase::Probing,
            JobState::Streaming(_) => LoadPhase::Streaming,
            JobState::Done => LoadPhase::Done,
        }
    }

    /// The decode pass of a load that is streaming.
    pub closed spec fn session(&self) -> DecodeSession
        recommends
            self.phase() == LoadPhase::Streaming,
    {
        match self.state {
            JobState::Streaming(s) => s,
            _ => arbitrary(),
        }
    }

    pub closed spec fn wf(&self) -> bool {
        match self.state {
            JobState::Probing => self.events@ == Seq::<EventKind>::empty(),
            JobState::Streaming(s) => {
                &&& s.wf()
                &&& s.keeps_audio()
                &&& self.events@ == seq![EventKind::StreamReady]
            },
            JobState::Done => {
                &&& self.events@.len() >= 1
                &&& self.events@.last().is_terminal()
                &&& self.events@.len() == 1 || (self.events@.len() == 2 && self.events@[0]
                    == EventKind::StreamReady)
            },
        }
    }

    /// The decode pass of a well-formed load that is streaming is well
    /// formed, and keeps its audio.
    pub proof fn lemma_session_wf(&self)
        requires
            self.wf(),
            self.phase() == LoadPhase::Streaming,
        ensures
            self.session().wf(),
            self.session().keeps_audio(),
    {
    }

    /// A load that has emitted nothing yet.
    pub fn new() -> (job: LoadJob)
        ensures
            job.wf(),
            job.phase() == LoadPhase::Probing,
            job.events() == Seq::<EventKind>::empty(),
    {
        LoadJob { state: JobState::Probing, events: Ghost(Seq::empty()) }
    }

    /// How far the load has come.
    pub fn current_phase(&self) -> (phase: LoadPhase)
        ensures
            phase == self.phase(),
    {
        match &self.state {
            JobState::Probing => LoadPhase::Probing,
            JobState::Streaming(_) => LoadPhase::Streaming,
            JobState::Done => LoadPhase::Done,
        }
    }

    /// Starts decoding the container's default track, and returns the event
    /// to emit: the announcement of the stream, or the error that ends the
    /// load where the track is missing or does not state its format.
    ///
    /// A load that is past its probe emits nothing and stays as it is.
    pub fn start(&mut self, track: Option<TrackParams>) -> (event: Option<LoadEvent>)
        requires
            old(self).wf(),
        ensures
            final(self).wf(),
            old(self).phase() != LoadPhase::Probing ==> event is None && *final(self) == *old(
                self,
            ),
            old(self).phase() == LoadPhase::Probing ==> {
                &&& event matches Some(e)
                &&& final(self).events() == old(self).events().push(kind_of(e))
                &&& match track {
                    None => {
                        &&& e matches LoadEvent::Error(msg)
                        &&& msg@ == DecodeError::NoTrack.text()
                        &&& final(self).phase() == LoadPhase::Done
                    },
                    Some(t) => {
                        if t.sample_rate is Some && t.sample_rate->0 > 0 && t.channels is Some
                            && t.channels->0 > 0 {
                            &&& e matches LoadEvent::StreamReady { sample_rate, channels }
                            &&& sample_rate == t.sample_rate->0
                            &&& channels == t.channels->0
                            &&& final(self).phase() == LoadPhase::Streaming
                            &&& final(self).session().seen() == Seq::<i32>::empty()
                            &&& final(self).session().track_id() == t.id
                            &&& final(self).session().sample_rate() == sample_rate
                            &&& final(self).session().channels() == channels
                        } else {
                            &&& e matches LoadEvent::Error(msg)
                            &&& msg@ == DecodeError::UnknownFormat.text()
                            &&& final(self).phase() == LoadPhase::Done
                        }
                    },
                }
            },
    {
        match &self.state {
            JobState::Probing => {},
            _ => {
                return None;
            },
        }
        match DecodeSession::begin(track, true) {
            Ok(session) => {
                let event = session.stream_ready();
                self.state = JobState::Streaming(session);
                self.events = Ghost(Seq::empty().push(EventKind::StreamReady));
                assert(self.events@ =~= old(self).events@.push(kind_of(event)));
                assert(self.events@ =~= seq![EventKind::StreamReady]);
                Some(event)
            },
            Err(error) => {
                proof {
                    reveal_strlit("");
                }
                let event = error.into_event("");
                self.state = JobState::Done;
                self.events = Ghost(Seq::empty().push(EventKind::Error));
                assert(self.events@ =~= old(self).events@.push(kind_of(event)));
                Some(event)
            },
        }
    }

    /// Ends the load with an error, and returns the event to emit.
    ///
    /// A load that has ended emits nothing more and stays as it is.
    pub fn fail(&mut self, error: DecodeError, detail: &str) -> (event: Option<LoadEvent>)
        requires
            old(self).wf(),
        ensures
            final(self).wf(),
            old(self).phase() == LoadPhase::Done ==> event is None && *final(self) == *old(self),
            old(self).phase() != LoadPhase::Done ==> {
                &&& event matches Some(LoadEvent::Error(msg))
                &&& msg@ == if detail@.len() == 0 {
                    error.text()
                } else {
                    error.text() + ": "@ + detail@
                }
                &&& final(self).phase() == LoadPhase::Done
                &&& final(self).events() == old(self).events().push(EventKind::Error)
            },
    {
        match &self.state {
            JobState::Done => {
                return None;
            },
            _ => {},
        }
        self.state = JobState::Done;
        self.events = Ghost(self.events@.push(EventKind::Error));
        Some(error.into_event(detail))
    }

    /// Whether a packet of track `track_id` is to be decoded: the load is
    /// streaming, and the packet belongs to its track.
    pub fn wants_packet(&self, track_id: u32) -> (wanted: bool)
        ensures
            wanted == (self.phase() == LoadPhase::Streaming && track_id
                == self.session().track_id()),
    {
        match &self.state {
            JobState::Streaming(session) => session.wants_packet(track_id),
            _ => false,
        }
    }

    /// Takes in the outcome of decoding one packet. A load that is not
    /// streaming asks to stop and stays as it is.
    pub fn on_decoded(&mut self, outcome: Result<Vec<i32>, PacketFailure>) -> (action:
        DecodeAction)
        requires
            old(self).wf(),
        ensures
            final(self).wf(),
            final(self).phase() == old(self).phase(),
            final(self).events() == old(self).events(),
            old(self).phase() == LoadPhase::Streaming ==> old(self).session().takes_in(
                outcome,
                final(self).session(),
                action,
            ),
            old(self).phase() != LoadPhase::Streaming ==> action is Stop && *final(self) == *old(
                self,
            ),
    {
        match &mut self.state {
            JobState::Streaming(session) => session.on_decoded(outcome),
            _ => DecodeAction::Stop,
        }
    }

    /// Ends a streaming load with what it decoded, and returns the event to
    /// emit.
    ///
    /// A load that is not streaming emits nothing and stays as it is.
    pub fn finish(&mut self) -> (event: Option<LoadEvent>)
        requires
            old(self).wf(),
        ensures
            final(self).wf(),
            old(self).phase() != LoadPhase::Streaming ==> event is None && *final(self) == *old(
                self,
            ),
            old(self).phase() == LoadPhase::Streaming ==> {
                &&& event matches Some(LoadEvent::PreviewReady { info, audio })
                &&& old(self).session().summary_matches(info)
                &&& audio.wf()
                &&& audio.sample_rate == info.sample_rate
                &&& audio.channels == info.channels
                &&& audio.frames == info.total_frames
                &&& audio.data@ == old(self).session().seen()
                &&& final(self).phase() == LoadPhase::Done
                &&& final(self).events() == old(self).events().push(EventKind::PreviewReady)
            },
    {
        match &self.state {
            JobState::Streaming(_) => {},
            _ => {
                return None;
            },
        }
        let mut state = JobState::Done;
        core::mem::swap(&mut self.state, &mut state);
        match state {
            JobState::Streaming(session) => {
                let (info, audio) = session.finish();
                match audio {
                    Some(audio) => {
                        self.events = Ghost(self.events@.push(EventKind::PreviewReady));
                        Some(LoadEvent::PreviewReady { info, audio })
                    },
                    None => unreached(),
                }
            },
            _ => unreached(),
        }
    }
}

/// Whatever was asked of a load, the events it has emitted are in order: the
/// stream is announced at most once and before anything else, and at most
/// one terminal event is emitted, after which nothing follows.
pub proof fn lemma_events_form_a_lifecycle(job: LoadJob)
    requires
        job.wf(),
    ensures
        is_lifecycle(job.events()),
        job.phase() == LoadPhase::Done <==> job.events().len() > 0
            && job.events().last().is_terminal(),
{
}

} // verus!
