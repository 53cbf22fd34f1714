//! The sample representations an output device can ask for.

use crate::error::SetupError;
use vstd::arithmetic::power2::lemma2_to64;
use vstd::arithmetic::power2::lemma2_to64_rest;
use vstd::arithmetic::power2::pow2;
use vstd::prelude::*;

verus! {

/// How a device-native sample encodes amplitude.
#[derive(Clone, Copy, Debug, PartialEq, Eq, Structural)]
pub enum SampleKind {
    /// Two's complement integer; zero amplitude is 0.
    Signed,
    /// Unsigned integer; zero amplitude is the midpoint of the range.
    Unsigned,
    /// Floating point in the range -1 to 1; zero amplitude is 0.
    Float,
}

/// A device-native sample representation.
#[derive(Clone, Copy, Debug, PartialEq, Eq, Structural)]
pub enum SampleFormat {
    Int8,
    Int16,
    Int32,
    Int64,
    UInt8,
    UInt16,
    UInt32,
    UInt64,
    Float32,
    Float64,
}

/// A kind and a width in bits name one of the ten representations: integers
/// of 8, 16, 32 or 64 bits and floats of 32 or 64 bits.
pub open spec fn recognized(kind: SampleKind, bits: nat) -> bool {
    match kind {
        SampleKind::Signed | SampleKind::Unsigned => bits == 8 || bits == 16 || bits == 32 || bits
            == 64,
        SampleKind::Float => bits == 32 || bits == 64,
    }
}

impl SampleFormat {
    /// How this representation encodes amplitude.
    pub open spec fn kind_spec(self) -> SampleKind {
        match self {
            SampleFormat::Int8 | SampleFormat::Int16 | SampleFormat::Int32 | SampleFormat::Int64 =>
                SampleKind::Signed,
            SampleFormat::UInt8
            | SampleFormat::UInt16
            | SampleFormat::UInt32
            | SampleFormat::UInt64 => SampleKind::Unsigned,
            SampleFormat::Float32 | SampleFormat::Float64 => SampleKind::Float,
        }
    }

    /// Width of one sample in bits.
    pub open spec fn bits_spec(self) -> nat {
        match self {
            SampleFormat::Int8 | SampleFormat::UInt8 => 8,
            SampleFormat::Int16 | SampleFormat::UInt16 => 16,
            SampleFormat::Int32 | SampleFormat::UInt32 | SampleFormat::Float32 => 32,
            SampleFormat::Int64 | SampleFormat::UInt64 | SampleFormat::Float64 => 64,
        }
    }

    /// The value that encodes zero amplitude: 0 for signed integers and
    /// floats, the midpoint of the range for unsigned integers.
    pub open spec fn equilibrium_spec(self) -> int {
        match self.kind_spec() {
            SampleKind::Signed => 0,
            SampleKind::Unsigned => pow2((self.bits_spec() - 1) as nat) as int,
            SampleKind::Float => 0,
        }
    }

    /// The smallest value a sample takes after clamping.
    pub open spec fn min_level_spec(self) -> int {
        match self.kind_spec() {
            SampleKind::Signed => -pow2((self.bits_spec() - 1) as nat),
            SampleKind::Unsigned => 0,
            SampleKind::Float => -1,
        }
    }

    /// The largest value a sample takes after clamping.
    pub open spec fn max_level_spec(self) -> int {
        match self.kind_spec() {
            SampleKind::Signed => pow2((self.bits_spec() - 1) as nat) - 1,
            SampleKind::Unsigned => pow2(self.bits_spec()) - 1,
            SampleKind::Float => 1,
        }
    }

    /// The representation with the given kind and width, if there is one.
    pub fn from_layout(kind: SampleKind, bits: u8) -> (r: Result<SampleFormat, SetupError>)
        ensures
            recognized(kind, bits as nat) <==> r is Ok,
            r matches Ok(f) ==> f.kind_spec() == kind && f.bits_spec() == bits,
            r matches Err(e) ==> e == SetupError::UnsupportedFormat,
    {
        match kind {
            SampleKind::Signed => {
                if bits == 8 {
                    Ok(SampleFormat::Int8)
                } else if bits == 16 {
                    Ok(SampleFormat::Int16)
                } else if bits == 32 {
                    Ok(SampleFormat::Int32)
                } else if bits == 64 {
                    Ok(SampleFormat::Int64)
                } else {
                    Err(SetupError::UnsupportedFormat)
                }
            },
            SampleKind::Unsigned => {
                if bits == 8 {
                    Ok(SampleFormat::UInt8)
                } else if bits == 16 {
                    Ok(SampleFormat::UInt16)
                } else if bits == 32 {
                    Ok(SampleFormat::UInt32)
                } else if bits == 64 {
                    Ok(SampleFormat::UInt64)
                } else {
                    Err(SetupError::UnsupportedFormat)
                }
            },
            SampleKind::Float => {
                if bits == 32 {
                    Ok(SampleFormat::Float32)
                } else if bits == 64 {
                    Ok(SampleFormat::Float64)
                } else {
                    Err(SetupError::UnsupportedFormat)
                }
            },
        }
    }

    /// How this representation encodes amplitude.
    pub fn kind(self) -> (k: SampleKind)
        ensures
            k == self.kind_spec(),
    {
        match self {
            SampleFormat::Int8 | SampleFormat::Int16 | SampleFormat::Int32 | SampleFormat::Int64 =>
                SampleKind::Signed,
            SampleFormat::UInt8
            | SampleFormat::UInt16
            | SampleFormat::UInt32
            | SampleFormat::UInt64 => SampleKind::Unsigned,
            SampleFormat::Float32 | SampleFormat::Float64 => SampleKind::Float,
        }
    }

    /// Width of one sample in bits.
    pub fn bits(self) -> (n: u8)
        ensures
            n == self.bits_spec(),
    {
        match self {
            SampleFormat::Int8 | SampleFormat::UInt8 => 8,
            SampleFormat::Int16 | SampleFormat::UInt16 => 16,
            SampleFormat::Int32 | SampleFormat::UInt32 | SampleFormat::Float32 => 32,
            SampleFormat::Int64 | SampleFormat::UInt64 | SampleFormat::Float64 => 64,
        }
    }

    /// Width of one sample in bytes.
    pub fn bytes(self) -> (n: usize)
        ensures
            n * 8 == self.bits_spec(),
    {
        (self.bits() / 8) as usize
    }

    /// The value that encodes zero amplitude, which is what silence is made of.
    pub fn equilibrium(self) -> (v: i128)
        ensures
            v == self.equilibrium_spec(),
    {
        proof {
            lemma2_to64();
            lemma2_to64_rest();
        }
        match self {
            SampleFormat::UInt8 => 0x80,
            SampleFormat::UInt16 => 0x8000,
            SampleFormat::UInt32 => 0x8000_0000,
            SampleFormat::UInt64 => 0x8000_0000_0000_0000,
            _ => 0,
        }
    }

    /// The smallest value a sample takes after clamping.
    pub fn min_level(self) -> (v: i128)
        ensures
            v == self.min_level_spec(),
    {
        proof {
            lemma2_to64();
            lemma2_to64_rest();
        }
        match self {
            SampleFormat::Int8 => -0x80,
            SampleFormat::Int16 => -0x8000,
            SampleFormat::Int32 => -0x8000_0000,
            SampleFormat::Int64 => -0x8000_0000_0000_0000,
            SampleFormat::Float32 | SampleFormat::Float64 => -1,
            _ => 0,
        }
    }

    /// The largest value a sample takes after clamping.
    pub fn max_level(self) -> (v: i128)
        ensures
            v == self.max_level_spec(),
    {
        proof {
            lemma2_to64();
            lemma2_to64_rest();
        }
        match self {
            SampleFormat::Int8 => 0x7f,
            SampleFormat::Int16 => 0x7fff,
            SampleFormat::Int32 => 0x7fff_ffff,
            SampleFormat::Int64 => 0x7fff_ffff_ffff_ffff,
            SampleFormat::UInt8 => 0xff,
            SampleFormat::UInt16 => 0xffff,
            SampleFormat::UInt32 => 0xffff_ffff,
            SampleFormat::UInt64 => 0xffff_ffff_ffff_ffff,
            SampleFormat::Float32 | SampleFormat::Float64 => 1,
        }
    }
}

/// Every representation has a place for silence inside its range, and an
/// unsigned range is centred on it: the part below the equilibrium is one
/// value larger than the part above, as in a signed range.
pub proof fn lemma_equilibrium_in_range(f: SampleFormat)
    ensures
        f.min_level_spec() <= f.equilibrium_spec() <= f.max_level_spec(),
        recognized(f.kind_spec(), f.bits_spec()),
        f.kind_spec() != SampleKind::Float ==> f.max_level_spec() - f.min_level_spec() + 1 == pow2(
            f.bits_spec(),
        ),
        f.kind_spec() != SampleKind::Float ==> f.equilibrium_spec() - f.min_level_spec()
            == f.max_level_spec() - f.equilibrium_spec() + 1,
{
    lemma2_to64();
    lemma2_to64_rest();
}

} // verus!
