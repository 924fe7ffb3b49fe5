//! Core engine for live audio capture: normalizes the sample encodings that
//! native audio backends deliver into canonical 32-bit float samples
//! (carried as their IEEE-754 bit patterns), shapes interleaved or
//! per-channel byte buffers into per-channel frames, and drives the capture
//! lifecycle state machine that a platform backend executes.

pub mod encoding;
pub mod float_repr;
pub mod convert;
pub mod shape;
pub mod lifecycle;
