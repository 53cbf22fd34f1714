//! The stream configuration negotiated with the output device.

use crate::error::SetupError;
use crate::format::recognized;
use crate::format::SampleFormat;
use crate::format::SampleKind;
use vstd::prelude::*;

verus! {

/// What the platform reported when asked for the default output device and
/// its default configuration.
#[derive(Clone, Copy, Debug, PartialEq, Eq, Structural)]
pub enum DeviceReport {
    /// There is no default output device.
    NoDevice,
    /// The device has no default output configuration.
    NoConfig,
    /// The device's default output configuration.
    Config { sample_rate: u32, channel_count: u16, kind: SampleKind, bits: u8 },
}

/// The format of a playback session: fixed once negotiated.
#[derive(Clone, Copy, Debug, PartialEq, Eq, Structural)]
pub struct StreamConfig {
    sample_rate: u32,
    channel_count: u16,
    sample_format: SampleFormat,
}

/// The outcome of negotiating with a device that gave `report`: the first
/// thing that is wrong with it, or nothing.
pub open spec fn negotiation_error(report: DeviceReport) -> Option<SetupError> {
    match report {
        DeviceReport::NoDevice => Some(SetupError::NoDevice),
        DeviceReport::NoConfig => Some(SetupError::NoSupportedConfig),
        DeviceReport::Config { sample_rate, channel_count, kind, bits } => if sample_rate == 0 {
            Some(SetupError::InvalidSampleRate)
        } else if channel_count == 0 {
            Some(SetupError::InvalidChannelCount)
        } else if !recognized(kind, bits as nat) {
            Some(SetupError::UnsupportedFormat)
        } else {
            None
        },
    }
}

impl StreamConfig {
    /// Frames per second.
    pub closed spec fn sample_rate_spec(self) -> nat {
        self.sample_rate as nat
    }

    /// Channels per frame.
    pub closed spec fn channel_count_spec(self) -> nat {
        self.channel_count as nat
    }

    /// The device's sample representation.
    pub closed spec fn sample_format_spec(self) -> SampleFormat {
        self.sample_format
    }

    /// Rate and channel count are positive.
    pub open spec fn wf(self) -> bool {
        self.sample_rate_spec() > 0 && self.channel_count_spec() > 0
    }

    /// Turns the device's report into the session's configuration.
    ///
    /// The device's default configuration is taken as it is; there is no
    /// search for another one. A missing device, a missing configuration, a
    /// zero rate or channel count and an unknown sample representation each
    /// fail the setup.
    pub fn negotiate(report: DeviceReport) -> (r: Result<StreamConfig, SetupError>)
        ensures
            match negotiation_error(report) {
                Some(e) => r == Err::<StreamConfig, SetupError>(e),
                None => {
                    &&& r matches Ok(c)
                    &&& c.wf()
                    &&& report matches DeviceReport::Config { sample_rate, channel_count, kind, bits }
                    &&& c.sample_rate_spec() == sample_rate
                    &&& c.channel_count_spec() == channel_count
                    &&& c.sample_format_spec().kind_spec() == kind
                    &&& c.sample_format_spec().bits_spec() == bits
                },
            },
    {
        match report {
            DeviceReport::NoDevice => Err(SetupError::NoDevice),
            DeviceReport::NoConfig => Err(SetupError::NoSupportedConfig),
            DeviceReport::Config { sample_rate, channel_count, kind, bits } => {
                if sample_rate == 0 {
                    return Err(SetupError::InvalidSampleRate);
                }
                if channel_count == 0 {
                    return Err(SetupError::InvalidChannelCount);
                }
                match SampleFormat::from_layout(kind, bits) {
                    Ok(sample_format) => Ok(
                        StreamConfig { sample_rate, channel_count, sample_format },
                    ),
                    Err(e) => Err(e),
                }
            },
        }
    }

    /// Frames per second.
    pub fn sample_rate(&self) -> (n: u32)
        ensures
            n == self.sample_rate_spec(),
    {
        self.sample_rate
    }

    /// Channels per frame.
    pub fn channel_count(&self) -> (n: u16)
        ensures
            n == self.channel_count_spec(),
    {
        self.channel_count
    }

    /// The device's sample representation.
    pub fn sample_format(&self) -> (f: SampleFormat)
        ensures
            f == self.sample_format_spec(),
    {
        self.sample_format
    }

    /// Samples in a device buffer of `frames` frames, or `None` if that many
    /// do not fit in memory.
    pub fn buffer_samples(&self, frames: usize) -> (r: Option<usize>)
        ensures
            frames * self.channel_count_spec() <= usize::MAX <==> r is Some,
            r matches Some(n) ==> n == frames * self.channel_count_spec(),
    {
        frames.checked_mul(self.channel_count as usize)
    }
}

} // verus!
