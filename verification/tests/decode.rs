use loopah::audio::decode::{
    DecodeAction, DecodeError, DecodeSession, LoadEvent, MemoryAudio, PacketFailure, TrackParams,
};

fn track(sample_rate: Option<u32>, channels: Option<u16>) -> Option<TrackParams> {
    Some(TrackParams { id: 7, sample_rate, channels })
}

fn session(sample_rate: u32, channels: u16, keep_audio: bool) -> DecodeSession {
    match DecodeSession::begin(track(Some(sample_rate), Some(channels)), keep_audio) {
        Ok(s) => s,
        Err(e) => panic!("begin failed: {:?}", e),
    }
}

fn begin_error(t: Option<TrackParams>) -> DecodeError {
    match DecodeSession::begin(t, true) {
        Ok(_) => panic!("begin succeeded"),
        Err(e) => e,
    }
}

#[test]
fn begin_needs_a_track() {
    assert_eq!(begin_error(None), DecodeError::NoTrack);
}

#[test]
fn begin_needs_sample_rate_and_channels() {
    assert_eq!(begin_error(track(None, Some(2))), DecodeError::UnknownFormat);
    assert_eq!(begin_error(track(Some(48_000), None)), DecodeError::UnknownFormat);
    assert_eq!(begin_error(track(None, None)), DecodeError::UnknownFormat);
    assert_eq!(begin_error(track(Some(0), Some(2))), DecodeError::UnknownFormat);
    assert_eq!(begin_error(track(Some(48_000), Some(0))), DecodeError::UnknownFormat);
}

#[test]
fn stream_ready_carries_the_parameters() {
    let s = session(44_100, 2, true);
    match s.stream_ready() {
        LoadEvent::StreamReady { sample_rate, channels } => {
            assert_eq!(sample_rate, 44_100);
            assert_eq!(channels, 2);
        }
        other => panic!("unexpected event {:?}", other),
    }
}

#[test]
fn packets_of_other_tracks_are_passed_over() {
    let s = session(44_100, 2, true);
    assert!(s.wants_packet(7));
    assert!(!s.wants_packet(0));
    assert!(!s.wants_packet(8));
}

#[test]
fn decoded_chunks_are_published_unchanged() {
    let mut s = session(48_000, 2, true);
    match s.on_decoded(Ok(vec![1, 2, 3, 4, 5])) {
        DecodeAction::Publish(chunk) => assert_eq!(chunk, vec![1, 2, 3, 4, 5]),
        other => panic!("unexpected action {:?}", other),
    }
}

#[test]
fn corrupt_packets_are_skipped_and_other_failures_stop() {
    let mut s = session(50, 1, true);
    assert!(matches!(s.on_decoded(Ok(vec![3])), DecodeAction::Publish(_)));
    assert!(matches!(s.on_decoded(Err(PacketFailure::Corrupt)), DecodeAction::Skip));
    assert!(matches!(s.on_decoded(Ok(vec![4])), DecodeAction::Publish(_)));
    assert!(matches!(s.on_decoded(Err(PacketFailure::Fatal)), DecodeAction::Stop));
    let (info, audio) = s.finish();
    assert_eq!(info.total_frames, 2);
    assert_eq!(info.rms_preview, vec![3, 4]);
    assert_eq!(audio.unwrap().data, vec![3, 4]);
}

#[test]
fn full_decode_keeps_whole_frames_in_order() {
    let mut s = session(50, 2, true);
    s.on_decoded(Ok(vec![1, 2, 3, 4, 99]));
    s.on_decoded(Ok(vec![]));
    s.on_decoded(Ok(vec![5, 6]));
    let (info, audio) = s.finish();
    let audio = audio.unwrap();
    assert_eq!(info.sample_rate, 50);
    assert_eq!(info.channels, 2);
    assert_eq!(info.total_frames, 3);
    assert_eq!(audio.sample_rate, 50);
    assert_eq!(audio.channels, 2);
    assert_eq!(audio.frames, 3);
    assert_eq!(audio.data, vec![1, 2, 3, 4, 5, 6]);
    assert!(audio.is_well_formed());
}

#[test]
fn total_frames_is_samples_over_channels() {
    let mut s = session(48_000, 2, true);
    s.on_decoded(Ok(vec![0; 4096]));
    s.on_decoded(Ok(vec![0; 1000]));
    let (info, audio) = s.finish();
    let audio = audio.unwrap();
    assert_eq!(info.total_frames, 2548);
    assert_eq!(info.total_frames as usize, audio.data.len() / audio.channels as usize);
    // 2548 frames in windows of 960: two full windows and a shorter third.
    assert_eq!(info.rms_preview.len(), 3);
}

#[test]
fn silent_second_decodes_to_fifty_zero_buckets() {
    let mut s = session(48_000, 1, true);
    for _ in 0..48 {
        s.on_decoded(Ok(vec![0; 1000]));
    }
    let (info, audio) = s.finish();
    assert_eq!(info.total_frames, 48_000);
    assert_eq!(info.rms_preview, vec![0u32; 50]);
    assert_eq!(audio.unwrap().frames, 48_000);
}

#[test]
fn preview_only_pass_reports_the_same_summary() {
    let chunks: Vec<Vec<i32>> =
        (0..40).map(|k| (0..257).map(|i| (k * 1000 + i * 13) % 7000 - 3500).collect()).collect();
    let mut probe = session(44_100, 2, false);
    let mut full = session(44_100, 2, true);
    for chunk in &chunks {
        probe.on_decoded(Ok(chunk.clone()));
        full.on_decoded(Ok(chunk.clone()));
    }
    let (probe_info, probe_audio) = probe.finish();
    let (full_info, full_audio) = full.finish();
    assert!(probe_audio.is_none());
    assert!(full_audio.is_some());
    assert_eq!(probe_info.sample_rate, full_info.sample_rate);
    assert_eq!(probe_info.channels, full_info.channels);
    assert_eq!(probe_info.total_frames, full_info.total_frames);
    assert_eq!(probe_info.rms_preview, full_info.rms_preview);
    assert_eq!(full_info.total_frames, 40 * 128);
}

#[test]
fn duration_is_frames_over_sample_rate() {
    let mut s = session(48_000, 1, false);
    s.on_decoded(Ok(vec![0; 72_000]));
    let (info, _) = s.finish();
    assert_eq!(info.duration().nanos, 1_500_000_000);
}

#[test]
fn memory_audio_needs_whole_frames() {
    assert!(MemoryAudio::new(48_000, 2, vec![1, 2, 3, 4]).is_some());
    assert!(MemoryAudio::new(48_000, 2, vec![]).is_some());
    assert!(MemoryAudio::new(48_000, 2, vec![1, 2, 3]).is_none());
    assert!(MemoryAudio::new(0, 2, vec![1, 2]).is_none());
    assert!(MemoryAudio::new(48_000, 0, vec![]).is_none());
    let audio = MemoryAudio::new(48_000, 2, vec![1, 2, 3, 4]).unwrap();
    assert_eq!(audio.frames, 2);
    assert_eq!(audio.data, vec![1, 2, 3, 4]);
}

#[test]
fn well_formedness_is_checked_on_all_fields() {
    let good = MemoryAudio { sample_rate: 48_000, channels: 2, frames: 2, data: vec![1, 2, 3, 4] };
    assert!(good.is_well_formed());
    let short = MemoryAudio { sample_rate: 48_000, channels: 2, frames: 3, data: vec![1, 2, 3, 4] };
    assert!(!short.is_well_formed());
    let ragged =
        MemoryAudio { sample_rate: 48_000, channels: 3, frames: 1, data: vec![1, 2, 3, 4] };
    assert!(!ragged.is_well_formed());
    let no_rate = MemoryAudio { sample_rate: 0, channels: 2, frames: 2, data: vec![1, 2, 3, 4] };
    assert!(!no_rate.is_well_formed());
    let no_channels = MemoryAudio { sample_rate: 48_000, channels: 0, frames: 0, data: vec![] };
    assert!(!no_channels.is_well_formed());
}

#[test]
fn each_error_has_its_words() {
    assert_eq!(DecodeError::Open.message(), "cannot open the file");
    assert_eq!(DecodeError::Probe.message(), "unrecognized container format");
    assert_eq!(DecodeError::NoTrack.message(), "no default audio track found");
    assert_eq!(DecodeError::UnknownFormat.message(), "unknown sample rate or channel count");
    assert_eq!(DecodeError::UnsupportedCodec.message(), "unsupported codec");
}

#[test]
fn error_event_joins_words_and_detail() {
    match DecodeError::Open.into_event("/tmp/a.wav") {
        LoadEvent::Error(msg) => assert_eq!(msg, "cannot open the file: /tmp/a.wav"),
        other => panic!("unexpected event {:?}", other),
    }
    match DecodeError::NoTrack.into_event("") {
        LoadEvent::Error(msg) => assert_eq!(msg, "no default audio track found"),
        other => panic!("unexpected event {:?}", other),
    }
}
