//! The core of a real-time sound synthesis engine: the life of a note from
//! note-on to expiry, the table of notes that the mixer walks on every tick,
//! and a percussion sequencer that fires note-on requests on a beat grid.
//!
//! Every function here works on whole numbers. Time stamps are readings of a
//! monotonic clock as `u64`; the sequencer counts nanoseconds.

pub mod clock;
pub mod note;
pub mod oscillators;
pub mod player;
pub mod search;
pub mod sequencer;
