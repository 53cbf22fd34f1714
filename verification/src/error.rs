//! Failures that stop a playback session before it starts.

use vstd::prelude::*;

verus! {

/// Why a session could not be set up. None of these is retried; each is
/// reported to the caller before any audio callback is registered.
#[derive(Clone, Copy, Debug, PartialEq, Eq, Structural)]
pub enum SetupError {
    /// The host has no default output device.
    NoDevice,
    /// The device offers no output configuration.
    NoSupportedConfig,
    /// The sample rate is zero.
    InvalidSampleRate,
    /// The channel count is zero.
    InvalidChannelCount,
    /// The device reports a sample representation that has no conversion.
    UnsupportedFormat,
    /// The requested queue or batch does not fit in memory, or is empty.
    QueueTooLarge,
    /// The source ended, or could not be read, before any audio was found.
    UnreadableSource,
    /// The first decoded block has no usable sample rate, channel count or data.
    BadHeader,
}

} // verus!
