//! Rustle core: the integer side of an audio feature pipeline.
//!
//! The library lays out how a signal is zero-padded and cut into frames
//! (shared by frame-wise RMS energy and the STFT front-end), how a short
//! window is centred in an FFT buffer, which local window the Savitzky-Golay
//! delta fits at each frame, and which delta parameters are accepted.
//! Every sample-level computation is generic over the sample type, so the
//! same verified layout carries whatever numbers the caller puts through it.

pub mod framing;
pub mod temporal;
pub mod window;
