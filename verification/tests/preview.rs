use loopah::audio::preview::PreviewBuilder;

fn preview_of(sample_rate: u32, channels: u16, chunks: &[Vec<i32>]) -> (u64, Vec<u32>) {
    let mut builder = PreviewBuilder::new(sample_rate, channels);
    for chunk in chunks {
        assert!(builder.push_frames(chunk));
    }
    let total = builder.total_frames();
    (total, builder.finish())
}

#[test]
fn one_second_of_silence_gives_fifty_zeros() {
    let (total, preview) = preview_of(48_000, 1, &[vec![0; 48_000]]);
    assert_eq!(total, 48_000);
    assert_eq!(preview, vec![0u32; 50]);
}

#[test]
fn leftover_frames_make_a_shorter_last_window() {
    let (total, preview) = preview_of(48_000, 1, &[vec![0; 48_001]]);
    assert_eq!(total, 48_001);
    assert_eq!(preview.len(), 51);
    let (total, preview) = preview_of(48_000, 1, &[vec![0; 47_999]]);
    assert_eq!(total, 47_999);
    assert_eq!(preview.len(), 50);
}

#[test]
fn empty_stream_has_an_empty_preview() {
    let (total, preview) = preview_of(48_000, 2, &[]);
    assert_eq!(total, 0);
    assert!(preview.is_empty());
    let (total, preview) = preview_of(48_000, 2, &[vec![], vec![7]]);
    assert_eq!(total, 0);
    assert!(preview.is_empty());
}

#[test]
fn rms_of_a_constant_signal_is_its_magnitude() {
    let (_, preview) = preview_of(48_000, 1, &[vec![1000; 960]]);
    assert_eq!(preview, vec![1000]);
    let (_, preview) = preview_of(48_000, 1, &[vec![-1000; 1920]]);
    assert_eq!(preview, vec![1000, 1000]);
}

#[test]
fn rms_is_taken_of_the_channel_average() {
    let mut stereo = Vec::new();
    for _ in 0..960 {
        stereo.push(1000);
        stereo.push(3000);
    }
    let (total, preview) = preview_of(48_000, 2, &[stereo]);
    assert_eq!(total, 960);
    assert_eq!(preview, vec![2000]);

    let mut opposed = Vec::new();
    for _ in 0..960 {
        opposed.push(5000);
        opposed.push(-5000);
    }
    let (_, preview) = preview_of(48_000, 2, &[opposed]);
    assert_eq!(preview, vec![0]);
}

#[test]
fn rms_is_the_root_of_the_mean_square_rounded_down() {
    // 100 Hz: windows of two frames.
    let (_, preview) = preview_of(100, 1, &[vec![3, 4]]);
    assert_eq!(preview, vec![3]); // sqrt(25 / 2) = 3.53
    let (_, preview) = preview_of(100, 1, &[vec![3, 4, 5]]);
    assert_eq!(preview, vec![3, 5]);
    let (_, preview) = preview_of(100, 1, &[vec![6, 8, -10, 0]]);
    assert_eq!(preview, vec![7, 7]); // sqrt(50) = 7.07 twice
    // Channel sums 3 and 5 over two channels: sqrt((9 + 25) / (2 * 4)) = 2.06
    let (_, preview) = preview_of(100, 2, &[vec![1, 2, 2, 3]]);
    assert_eq!(preview, vec![2]);
}

#[test]
fn window_is_a_fiftieth_of_a_second_rounded() {
    // 50 Hz: one frame per window.
    let (_, preview) = preview_of(50, 1, &[vec![3, -4, 5]]);
    assert_eq!(preview, vec![3, 4, 5]);
    // 11025 Hz: 220.5 frames round to 221.
    let (_, preview) = preview_of(11_025, 1, &[vec![9; 221]]);
    assert_eq!(preview, vec![9]);
    let (_, preview) = preview_of(11_025, 1, &[vec![9; 222]]);
    assert_eq!(preview, vec![9, 9]);
    // 74 Hz rounds down to one frame, 75 Hz up to two.
    let (_, preview) = preview_of(74, 1, &[vec![1; 4]]);
    assert_eq!(preview.len(), 4);
    let (_, preview) = preview_of(75, 1, &[vec![1; 4]]);
    assert_eq!(preview.len(), 2);
}

#[test]
fn window_is_never_shorter_than_one_frame() {
    let (_, preview) = preview_of(1, 1, &[vec![2, 3]]);
    assert_eq!(preview, vec![2, 3]);
    let (_, preview) = preview_of(0, 1, &[vec![2, 3]]);
    assert_eq!(preview, vec![2, 3]);
    let (_, preview) = preview_of(24, 1, &[vec![2, 3]]);
    assert_eq!(preview, vec![2, 3]);
}

#[test]
fn preview_does_not_depend_on_how_the_stream_is_cut() {
    let samples: Vec<i32> = (0..5000).map(|i| (i * 37 % 2001) - 1000).collect();
    let whole = preview_of(48_000, 2, &[samples.clone()]);
    let halves = preview_of(48_000, 2, &[samples[..2500].to_vec(), samples[2500..].to_vec()]);
    let mut pieces = Vec::new();
    for piece in samples.chunks(14) {
        pieces.push(piece.to_vec());
    }
    let cut = preview_of(48_000, 2, &pieces);
    assert_eq!(whole.0, 2500);
    assert_eq!(whole.1.len(), 3);
    assert_eq!(whole, halves);
    assert_eq!(whole, cut);
}

#[test]
fn only_whole_frames_of_a_chunk_count() {
    // Three channels: the chunk of seven samples holds two frames.
    let mut builder = PreviewBuilder::new(50, 3);
    assert!(builder.push_frames(&vec![3, 3, 3, 6, 6, 6, 100]));
    assert_eq!(builder.total_frames(), 2);
    assert!(builder.push_frames(&vec![100, 100]));
    assert_eq!(builder.total_frames(), 2);
    assert_eq!(builder.finish(), vec![3, 6]);
}

#[test]
fn rms_is_bounded_by_the_largest_magnitude() {
    let samples: Vec<i32> = (0..4000).map(|i| ((i * 7919) % 20_001) - 10_000).collect();
    let (_, preview) = preview_of(48_000, 2, &[samples.clone()]);
    let frames = samples.len() / 2;
    for (k, value) in preview.iter().enumerate() {
        let lo = k * 960;
        let hi = ((k + 1) * 960).min(frames);
        let peak = samples[lo * 2..hi * 2].iter().map(|x| x.unsigned_abs()).max().unwrap();
        assert!(*value <= peak);
    }
}

#[test]
fn rms_of_full_scale_samples_does_not_overflow() {
    let (_, preview) = preview_of(48_000, 2, &[vec![i32::MIN; 1920]]);
    assert_eq!(preview, vec![1u32 << 31]);
    let (_, preview) = preview_of(48_000, 1, &[vec![i32::MAX; 960]]);
    assert_eq!(preview, vec![i32::MAX as u32]);
}
