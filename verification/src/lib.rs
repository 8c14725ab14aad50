//! Verified core of a loop-oriented audio player: decode bookkeeping with an
//! RMS preview, a resampling playback engine with a loop window, and the loop
//! range model shared by the engine and the waveform view.
//!
//! All audio data is signed 32-bit PCM and all times are integer nanoseconds,
//! so every contract is stated over exact integers.

pub mod audio;
pub mod math;
pub mod loop_range;
pub mod time;
pub mod ui;
