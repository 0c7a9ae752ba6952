//! Verified core of a real-time audio I/O library: frame assembly and ring-buffer handling for
//! capture and playback, channel up/down-mixing structure, a per-source playback mixer, the far-end
//! reference history of the echo canceller, session and device state machines, and the framing
//! and validation rules of the Opus codec wrapper.
use vstd::prelude::*;

pub mod codec;
pub mod control;
pub mod converter;
pub mod mixer;
pub mod pipeline;
pub mod resampler;
pub mod session;
pub mod stream;
pub mod utils;
