//! The audio pipeline: preview computation, decode bookkeeping and playback.

pub mod decode;
pub mod loader;
pub mod memory;
pub mod playback;
pub mod preview;
pub mod queue;
pub mod resample;
pub mod stream;
