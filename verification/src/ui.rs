//! What the waveform view and the loop controls compute: the visible
//! window, loop editing by pointer gestures, the reaction to load events,
//! and the display of times.

pub mod editor;
pub mod format;
pub mod waveform;
