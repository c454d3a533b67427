//! Core of a real-time audio-to-spectrum pipeline: a growable FIFO byte
//! channel shared between a capture thread and an analysis thread, capture
//! sources with an explicit connection lifecycle, window assembly and sample
//! decoding for the FFT stage, and a logarithmic frequency-bin layout.

pub mod audio;
pub mod compute;
pub mod config;
pub mod errors;
pub mod input;
pub mod ring;
pub mod scale;

pub use errors::ENguyenError;
