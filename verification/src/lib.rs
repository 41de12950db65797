//! Real-time microphone noise cancellation: the verified core.
//!
//! The audio threads, the tray and the command line live in the program
//! around this crate. What they decide and compute lives here, with contracts
//! that Verus proves: how ragged device buffers become 480-sample frames, how
//! a stream is resampled without drifting, which device is opened, when a
//! stalled stream is restarted, what the tray shows.
//!
//! Audio samples are a type parameter throughout. The library moves, counts
//! and reorders them; arithmetic on them is handed in by the caller.
use vstd::prelude::*;

pub mod banner;
pub mod capture;
pub mod cli;
pub mod config;
pub mod console;
pub mod denoiser;
pub mod devices;
pub mod dfn3;
pub mod dfn_frontend;
pub mod error;
pub mod firstrun;
pub mod format;
mod heap_ring;
pub mod icon;
pub mod log_format;
pub mod offline;
pub mod onnx;
pub mod paths;
pub mod pipeline;
pub mod render;
pub mod resample;
pub mod ring;
pub mod text;
pub mod tray;

verus! {

/// One audio frame is 480 samples of mono audio at 48 kHz, which is 10 ms.
/// It is DeepFilterNet's native frame size, so nothing is reblocked on the
/// way through the denoiser.
pub const FRAME_SAMPLES: usize = 480;

/// The rate the whole pipeline runs at, in samples per second.
pub const SAMPLE_RATE: u32 = 48_000;

/// How much time one frame covers.
pub const FRAME_PERIOD_MS: u32 = 10;

/// One frame of the pipeline.
pub type Frame<S> = [S; FRAME_SAMPLES];

} // verus!
