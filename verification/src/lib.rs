//! A real-time MIDI note latch: a stateful event transformer that keeps the
//! most recently played set of notes sounding until a fresh note is struck
//! after every key has been released.
//!
//! The engine consumes one time-ordered block of MIDI events at a time and
//! produces the output block for it, carrying its latch state across blocks.

pub mod events;
pub mod latch;
