use loopah::audio::decode::MemoryAudio;
use loopah::audio::memory::{process_memory, zero_from, MemoryState};
use loopah::audio::playback::{DeviceError, Player};
use loopah::audio::resample::UNITY_GAIN;
use loopah::time::Seconds;

fn audio(sample_rate: u32, channels: u16, data: Vec<i32>) -> MemoryAudio {
    MemoryAudio::new(sample_rate, channels, data).unwrap()
}

fn player(sample_rate: u32, channels: u16, data: Vec<i32>, device_rate: u32) -> Player {
    match Player::from_memory(audio(sample_rate, channels, data), device_rate) {
        Ok(p) => p,
        Err(e) => panic!("no player: {:?}", e),
    }
}

fn ramp(frames: i32) -> Vec<i32> {
    (0..frames).collect()
}

fn secs(nanos: i64) -> Option<(Seconds, Seconds)> {
    Some((Seconds::from_nanos(nanos), Seconds::from_nanos(nanos)))
}

fn range(start: i64, end: i64) -> Option<(Seconds, Seconds)> {
    Some((Seconds::from_nanos(start), Seconds::from_nanos(end)))
}

const SECOND: i64 = 1_000_000_000;

#[test]
fn zero_from_silences_the_tail_only() {
    let mut buf = vec![1, 2, 3, 4, 5];
    zero_from(&mut buf, 2);
    assert_eq!(buf, vec![1, 2, 0, 0, 0]);
    zero_from(&mut buf, 5);
    assert_eq!(buf, vec![1, 2, 0, 0, 0]);
    zero_from(&mut buf, 0);
    assert_eq!(buf, vec![0; 5]);
}

#[test]
fn a_device_without_a_rate_gives_no_player() {
    match Player::from_memory(audio(48_000, 1, vec![1, 2]), 0) {
        Err(e) => assert_eq!(e, DeviceError::Unconfigurable),
        Ok(_) => panic!("player built"),
    }
}

#[test]
fn each_device_error_has_its_words() {
    assert_eq!(DeviceError::Missing.message(), "no output device");
    assert_eq!(DeviceError::Unconfigurable.message(), "the output device cannot be configured");
}

#[test]
fn a_new_player_plays_at_full_volume_from_the_start() {
    let p = player(48_000, 1, ramp(10), 48_000);
    assert!(p.is_playing());
    assert!(!p.is_streaming());
    assert!(!p.is_finished());
    assert!(!p.wants_chunks());
    assert_eq!(p.volume(), UNITY_GAIN);
    assert_eq!(p.loop_range(), None);
    assert_eq!(p.position_seconds().nanos, 0);
}

#[test]
fn equal_rates_copy_frames_until_the_last_one() {
    let mut p = player(4, 1, vec![10, 20, 30, 40], 4);
    let mut out = vec![-1; 6];
    p.render(&mut out);
    // The last frame has no successor to interpolate with.
    assert_eq!(out, vec![10, 20, 30, 0, 0, 0]);
    assert_eq!(p.position_seconds().nanos, 750_000_000);
    let mut out = vec![-1; 3];
    p.render(&mut out);
    assert_eq!(out, vec![0, 0, 0]);
    assert_eq!(p.position_seconds().nanos, 750_000_000);
}

#[test]
fn a_faster_device_interpolates_between_frames() {
    let mut p = player(2, 1, vec![0, 100, 200, 300], 4);
    let mut out = vec![-1; 8];
    p.render(&mut out);
    assert_eq!(out, vec![0, 50, 100, 150, 200, 250, 0, 0]);
    assert_eq!(p.position_seconds().nanos, 1_500_000_000);
}

#[test]
fn a_slower_device_steps_over_frames() {
    let mut p = player(4, 1, vec![0, 10, 20, 30, 40, 50], 2);
    let mut out = vec![-1; 4];
    p.render(&mut out);
    assert_eq!(out, vec![0, 20, 40, 0]);
    assert_eq!(p.position_seconds().nanos, 1_250_000_000);
}

#[test]
fn uneven_rates_carry_the_fraction_exactly() {
    // 3 source frames per 4 device frames: positions 0, 3/4, 6/4, 9/4, 3.
    let mut p = player(3, 1, vec![0, 400, 800, 1200], 4);
    let mut out = vec![-1; 6];
    p.render(&mut out);
    assert_eq!(out, vec![0, 300, 600, 900, 0, 0]);
    assert_eq!(p.position_seconds().nanos, 1_000_000_000);
}

#[test]
fn channels_are_interpolated_one_by_one() {
    let mut p = player(2, 2, vec![0, 1000, 100, 2000, 200, 3000], 4);
    let mut out = vec![-1; 10];
    p.render(&mut out);
    assert_eq!(out, vec![0, 1000, 50, 1500, 100, 2000, 150, 2500, 0, 0]);
}

#[test]
fn samples_after_the_last_whole_output_frame_are_silence() {
    let mut p = player(4, 2, vec![1, 2, 3, 4, 5, 6], 4);
    let mut out = vec![-1; 5];
    p.render(&mut out);
    assert_eq!(out, vec![1, 2, 3, 4, 0]);
}

#[test]
fn rendering_goes_on_where_the_last_buffer_ended() {
    let mut p = player(2, 1, vec![0, 100, 200, 300], 4);
    let mut out = vec![-1; 3];
    p.render(&mut out);
    assert_eq!(out, vec![0, 50, 100]);
    p.render(&mut out);
    assert_eq!(out, vec![150, 200, 250]);
    p.render(&mut out);
    assert_eq!(out, vec![0, 0, 0]);
}

#[test]
fn an_empty_buffer_and_an_empty_file_render_nothing() {
    let mut p = player(4, 1, vec![1, 2, 3], 4);
    let mut out: Vec<i32> = Vec::new();
    p.render(&mut out);
    assert!(out.is_empty());
    assert_eq!(p.position_seconds().nanos, 0);

    let mut p = player(4, 1, vec![], 4);
    let mut out = vec![-1; 4];
    p.render(&mut out);
    assert_eq!(out, vec![0; 4]);
    p.set_loop(range(0, SECOND));
    assert_eq!(p.loop_range(), None);
    p.set_position_seconds(Seconds::from_nanos(SECOND));
    assert_eq!(p.position_seconds().nanos, 0);

    let mut p = player(4, 1, vec![9], 4);
    let mut out = vec![-1; 2];
    p.render(&mut out);
    assert_eq!(out, vec![0, 0]);
}

#[test]
fn volume_scales_every_sample() {
    let mut p = player(4, 1, vec![1000, -1000, 3, 0], 4);
    p.set_volume(UNITY_GAIN / 2);
    assert_eq!(p.volume(), UNITY_GAIN / 2);
    let mut out = vec![-1; 4];
    p.render(&mut out);
    assert_eq!(out, vec![500, -500, 1, 0]);

    let mut p = player(4, 1, vec![i32::MAX, i32::MIN, 5, 0], 4);
    p.set_volume(2 * UNITY_GAIN);
    let mut out = vec![-1; 4];
    p.render(&mut out);
    assert_eq!(out, vec![i32::MAX, i32::MIN, 10, 0]);
}

#[test]
fn paused_player_renders_silence_and_holds_its_position() {
    let mut p = player(2, 1, vec![0, 100, 200, 300], 4);
    let mut out = vec![-1; 3];
    p.render(&mut out);
    let at = p.position_seconds().nanos;
    assert_eq!(at, 750_000_000);
    p.pause();
    assert!(!p.is_playing());
    for _ in 0..5 {
        let mut out = vec![-1; 3];
        p.render(&mut out);
        assert_eq!(out, vec![0, 0, 0]);
        assert_eq!(p.position_seconds().nanos, at);
    }
    p.play();
    assert!(p.is_playing());
    p.render(&mut out);
    assert_eq!(out, vec![150, 200, 250]);
    assert!(p.position_seconds().nanos > at);
}

#[test]
fn stop_rewinds_to_the_start_and_pauses() {
    let mut p = player(4, 1, ramp(100), 4);
    let mut out = vec![-1; 10];
    p.render(&mut out);
    assert_eq!(p.position_seconds().nanos, 2_500_000_000);
    p.stop();
    assert!(!p.is_playing());
    assert_eq!(p.position_seconds().nanos, 0);
    p.play();
    p.render(&mut out);
    assert_eq!(out, ramp(10));
}

#[test]
fn stop_rewinds_to_the_loop_start() {
    let mut p = player(4, 1, ramp(100), 4);
    p.set_loop(range(5 * SECOND, 10 * SECOND));
    assert_eq!(p.loop_range(), Some((20, 40)));
    let mut out = vec![-1; 7];
    p.render(&mut out);
    p.stop();
    assert_eq!(p.position_seconds().nanos, 5 * SECOND);
}

#[test]
fn zero_width_loop_is_no_loop() {
    let mut p = player(48_000, 1, ramp(48_000), 48_000);
    p.set_loop(range(100_000_000, 400_000_000));
    assert_eq!(p.loop_range(), Some((4800, 19_200)));
    p.set_loop(secs(500_000_000));
    assert_eq!(p.loop_range(), None);
}

#[test]
fn inverted_loop_is_no_loop() {
    let mut p = player(48_000, 1, ramp(48_000), 48_000);
    p.set_loop(range(600_000_000, 500_000_000));
    assert_eq!(p.loop_range(), None);
    p.set_loop(range(100_000_000, 400_000_000));
    p.set_loop(None);
    assert_eq!(p.loop_range(), None);
}

#[test]
fn loop_bounds_round_outwards_to_whole_frames() {
    let mut p = player(4, 1, ramp(100), 4);
    // 0.3 s falls in frame 1; 0.6 s ends in frame 2, so the window ends at 3.
    p.set_loop(range(300_000_000, 600_000_000));
    assert_eq!(p.loop_range(), Some((1, 3)));
    // One sample period from inside frame 1 reaches into frame 2.
    p.set_loop(range(260_000_000, 510_000_000));
    assert_eq!(p.loop_range(), Some((1, 3)));
    p.set_loop(range(250_000_000, 500_000_000));
    assert_eq!(p.loop_range(), Some((1, 2)));
}

#[test]
fn a_range_shorter_than_a_sample_period_is_no_loop() {
    let mut p = player(4, 1, ramp(100), 4);
    p.set_loop(range(260_000_000, 270_000_000));
    assert_eq!(p.loop_range(), None);
    // Shorter than a period, though it crosses from frame 0 into frame 1.
    p.set_loop(range(200_000_000, 300_000_000));
    assert_eq!(p.loop_range(), None);

    let mut p = player(48_000, 1, ramp(48_000), 48_000);
    p.set_loop(range(500_000_000, 500_020_833));
    assert_eq!(p.loop_range(), None);
    p.set_loop(range(500_000_000, 500_020_834));
    assert_eq!(p.loop_range(), Some((24_000, 24_002)));
}

#[test]
fn zero_width_loop_is_no_loop_wherever_it_lies() {
    let mut p = player(48_000, 1, ramp(48_000), 44_100);
    for nanos in [i64::MIN, -1, 0, 1, 20_833, 500_000_000, 500_000_001, 999_999_999, i64::MAX] {
        p.set_loop(range(0, 500_000_000));
        assert!(p.loop_range().is_some());
        p.set_loop(secs(nanos));
        assert_eq!(p.loop_range(), None);
    }
}

#[test]
fn a_loop_that_ends_with_the_file_stops_at_the_last_frame() {
    // The last frame has no successor, inside a loop as outside of one.
    let mut p = player(4, 1, ramp(100), 4);
    p.set_loop(range(24 * SECOND, 25 * SECOND));
    assert_eq!(p.loop_range(), Some((96, 100)));
    let mut out = vec![-1; 6];
    p.render(&mut out);
    assert_eq!(out, vec![96, 97, 98, 0, 0, 0]);
    assert_eq!(p.position_seconds().nanos, 24_750_000_000);
}

#[test]
fn loop_is_held_inside_the_file() {
    let mut p = player(4, 1, ramp(100), 4);
    p.set_loop(range(-5 * SECOND, 2 * SECOND));
    assert_eq!(p.loop_range(), Some((0, 8)));
    p.set_loop(range(20 * SECOND, 1000 * SECOND));
    assert_eq!(p.loop_range(), Some((80, 100)));
    p.set_loop(range(500 * SECOND, 1000 * SECOND));
    assert_eq!(p.loop_range(), Some((99, 100)));
    p.set_loop(range(i64::MIN, i64::MAX));
    assert_eq!(p.loop_range(), Some((0, 100)));
    p.set_loop(range(-9 * SECOND, -3 * SECOND));
    assert_eq!(p.loop_range(), Some((0, 1)));
}

#[test]
fn setting_a_loop_brings_the_playhead_inside() {
    let mut p = player(4, 1, ramp(100), 4);
    p.set_loop(range(5 * SECOND, 10 * SECOND));
    assert_eq!(p.position_seconds().nanos, 5 * SECOND);
    p.set_position_seconds(Seconds::from_nanos(8 * SECOND));
    p.set_loop(range(2 * SECOND, 6 * SECOND));
    // Frame 32 lies 24 past the start of a window of 16 frames: 8 + 8.
    assert_eq!(p.loop_range(), Some((8, 24)));
    assert_eq!(p.position_seconds().nanos, 4 * SECOND);
}

#[test]
fn playback_wraps_at_the_loop_end() {
    let mut p = player(4, 1, ramp(100), 4);
    p.set_loop(range(5 * SECOND, 6 * SECOND));
    assert_eq!(p.loop_range(), Some((20, 24)));
    let mut out = vec![-1; 10];
    p.render(&mut out);
    assert_eq!(out, vec![20, 21, 22, 23, 20, 21, 22, 23, 20, 21]);
    assert_eq!(p.position_seconds().nanos, 5_500_000_000);
}

#[test]
fn loop_of_two_seconds_at_48k_wraps_to_its_start() {
    let mut p = player(48_000, 1, ramp(13 * 48_000), 48_000);
    p.set_loop(range(10 * SECOND, 12 * SECOND));
    assert_eq!(p.loop_range(), Some((480_000, 576_000)));
    assert_eq!(p.position_seconds().nanos, 10 * SECOND);
    let mut out = vec![-1; 96_010];
    p.render(&mut out);
    assert_eq!(out[0], 480_000);
    assert_eq!(out[95_999], 575_999);
    assert_eq!(out[96_000], 480_000);
    assert_eq!(out[96_009], 480_009);
    assert_eq!(p.position_seconds().nanos, 10_000_208_333);
}

#[test]
fn repeated_wraps_never_leave_the_loop() {
    // 48000 source frames per 44100 device frames.
    let mut p = player(48_000, 1, ramp(13 * 48_000), 44_100);
    p.set_loop(range(10 * SECOND, 12 * SECOND));
    let mut out = vec![-1; 30_011];
    for _ in 0..20 {
        p.render(&mut out);
        let at = p.position_seconds().nanos;
        assert!(10 * SECOND <= at && at < 12 * SECOND);
        for sample in &out {
            assert!(480_000 <= *sample && *sample <= 576_000);
        }
    }
}

#[test]
fn a_step_longer_than_the_loop_still_lands_inside() {
    // Each output frame moves by 7 source frames; the loop is 4 frames long.
    let mut p = player(7, 1, ramp(100), 1);
    p.set_loop(range(3 * SECOND, 4 * SECOND));
    assert_eq!(p.loop_range(), Some((21, 28)));
    p.set_loop(range(3 * SECOND, 3_500_000_000));
    assert_eq!(p.loop_range(), Some((21, 25)));
    let mut out = vec![-1; 5];
    p.render(&mut out);
    // 21, then 28 -> 21 + 7 % 4 = 24, then 31 -> 21 + 10 % 4 = 23, 30 -> 22, 29 -> 21.
    assert_eq!(out, vec![21, 24, 23, 22, 21]);
}

#[test]
fn seek_moves_the_playhead() {
    let mut p = player(4, 1, ramp(100), 4);
    p.set_position_seconds(Seconds::from_nanos(2 * SECOND));
    assert_eq!(p.position_seconds().nanos, 2 * SECOND);
    let mut out = vec![-1; 2];
    p.render(&mut out);
    assert_eq!(out, vec![8, 9]);
    // Between two frames.
    p.set_position_seconds(Seconds::from_nanos(2_125_000_000));
    assert_eq!(p.position_seconds().nanos, 2_125_000_000);
}

#[test]
fn seek_is_held_inside_the_file() {
    let mut p = player(4, 1, ramp(100), 4);
    p.set_position_seconds(Seconds::from_nanos(-SECOND));
    assert_eq!(p.position_seconds().nanos, 0);
    p.set_position_seconds(Seconds::from_nanos(1000 * SECOND));
    assert_eq!(p.position_seconds().nanos, 24_750_000_000);
    p.set_position_seconds(Seconds::from_nanos(i64::MAX));
    assert_eq!(p.position_seconds().nanos, 24_750_000_000);
    p.set_position_seconds(Seconds::from_nanos(i64::MIN));
    assert_eq!(p.position_seconds().nanos, 0);
}

#[test]
fn seek_outside_the_loop_is_brought_inside() {
    let mut p = player(4, 1, ramp(100), 4);
    p.set_loop(range(5 * SECOND, 6 * SECOND));
    p.set_position_seconds(Seconds::from_nanos(SECOND));
    assert_eq!(p.position_seconds().nanos, 5 * SECOND);
    // Frame 30 lies 10 past the start of a window of 4 frames: 20 + 2.
    p.set_position_seconds(Seconds::from_nanos(7_500_000_000));
    assert_eq!(p.position_seconds().nanos, 5_500_000_000);
}

#[test]
fn memory_player_ignores_stream_input() {
    let mut p = player(4, 1, vec![10, 20, 30], 4);
    p.push_chunk(vec![1, 2, 3]);
    p.source_closed();
    assert!(!p.is_finished());
    let mut out = vec![-1; 3];
    p.render(&mut out);
    assert_eq!(out, vec![10, 20, 0]);
}

#[test]
fn memory_state_renders_without_a_player() {
    let mut mem = MemoryState::new(audio(2, 1, vec![0, 100, 200]), 4);
    let mut out = vec![-1; 5];
    process_memory(&mut mem, true, UNITY_GAIN, &mut out);
    assert_eq!(out, vec![0, 50, 100, 150, 0]);
    assert_eq!(mem.position_seconds().nanos, 1_000_000_000);
    process_memory(&mut mem, false, UNITY_GAIN, &mut out);
    assert_eq!(out, vec![0; 5]);
    mem.reset_to_loop_start();
    assert_eq!(mem.position_seconds().nanos, 0);
    assert_eq!(mem.loop_range(), None);
}

#[test]
fn clearing_the_loop_leaves_the_playhead_where_it_is() {
    // 5 source frames per 4 device frames: positions 0, 1.25, 2.5, then 3.75.
    let mut p = player(5, 1, vec![0, 100, 200, 300], 4);
    p.set_loop(range(0, SECOND));
    assert_eq!(p.loop_range(), Some((0, 4)));
    let mut out = vec![-1; 3];
    p.render(&mut out);
    assert_eq!(out, vec![0, 125, 250]);
    assert_eq!(p.position_seconds().nanos, 750_000_000);
    p.set_loop(None);
    assert_eq!(p.loop_range(), None);
    assert_eq!(p.position_seconds().nanos, 750_000_000);
}

#[test]
fn a_range_that_selects_nothing_clears_the_loop_and_leaves_the_playhead() {
    let mut p = player(5, 1, vec![0, 100, 200, 300], 4);
    p.set_loop(range(0, SECOND));
    let mut out = vec![-1; 3];
    p.render(&mut out);
    assert_eq!(p.position_seconds().nanos, 750_000_000);
    p.set_loop(secs(100_000_000));
    assert_eq!(p.loop_range(), None);
    assert_eq!(p.position_seconds().nanos, 750_000_000);
    p.set_loop(range(0, SECOND));
    p.set_loop(range(SECOND, 0));
    assert_eq!(p.loop_range(), None);
    assert_eq!(p.position_seconds().nanos, 750_000_000);
}

#[test]
fn a_playhead_left_past_the_last_frame_comes_to_rest_when_played() {
    let mut p = player(5, 1, vec![0, 100, 200, 300], 4);
    p.set_loop(range(0, SECOND));
    let mut out = vec![-1; 3];
    p.render(&mut out);
    p.set_loop(None);
    assert_eq!(p.position_seconds().nanos, 750_000_000);
    // Neither a paused render nor an empty buffer moves it.
    p.pause();
    p.render(&mut out);
    assert_eq!(out, vec![0, 0, 0]);
    assert_eq!(p.position_seconds().nanos, 750_000_000);
    p.play();
    let mut none: Vec<i32> = Vec::new();
    p.render(&mut none);
    assert_eq!(p.position_seconds().nanos, 750_000_000);
    // The first frame that is played holds it on the last frame.
    let mut one = vec![-1; 1];
    p.render(&mut one);
    assert_eq!(one, vec![0]);
    assert_eq!(p.position_seconds().nanos, 600_000_000);
    p.render(&mut out);
    assert_eq!(out, vec![0, 0, 0]);
    assert_eq!(p.position_seconds().nanos, 600_000_000);
}

#[test]
fn clearing_the_loop_inside_the_file_lets_playback_run_on() {
    let mut p = player(4, 1, ramp(100), 4);
    p.set_loop(range(5 * SECOND, 6 * SECOND));
    let mut out = vec![-1; 6];
    p.render(&mut out);
    assert_eq!(out, vec![20, 21, 22, 23, 20, 21]);
    p.set_loop(None);
    assert_eq!(p.position_seconds().nanos, 5_500_000_000);
    p.render(&mut out);
    assert_eq!(out, vec![22, 23, 24, 25, 26, 27]);
}
