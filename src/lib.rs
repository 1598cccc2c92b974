//! A polyphonic sample-playback engine in fixed-point arithmetic.
//!
//! Positions into a sample are counted in 1/65536 of a sample frame,
//! amplitudes are 24-bit integers and volumes are fractions of 2^24.
pub mod sample;
pub mod sfz;
pub mod voice;
