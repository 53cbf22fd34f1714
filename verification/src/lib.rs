//! Verified core of a streaming audio player: a decode adapter, a resampling
//! front end and a real-time renderer that fills device buffers.

pub mod config;
pub mod decode;
pub mod error;
pub mod format;
pub mod frames;
pub mod keys;
pub mod pump;
pub mod render;
pub mod resample;
pub mod ring;
