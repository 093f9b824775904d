//! A chunk pipeline that turns a scrolling pattern into a continuous waveform:
//! a clock that decides when a chunk is due, a bounded channel that carries
//! chunks between threads, and a crossfading synthesizer that plays them.
pub mod channel;
pub mod chunk;
pub mod clock;
pub mod constants;
pub mod debug_controls;
pub mod grid;
pub mod synth;
