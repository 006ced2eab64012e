//! Error types of the encoder library.

use vstd::prelude::*;

verus! {

/// Why a write to a bitstream was refused.
#[derive(Debug, Clone, Copy, PartialEq, Eq)]
pub enum BitstreamFault {
    /// More than 32 bits were asked for in one write.
    TooManyBits { n: i64 },
    /// A negative number of bits was asked for.
    NegativeBitCount { n: i64 },
    /// The value has bits set above the `n` bits to be written.
    UpperBitsSet { val: u32, n: i64 },
    /// The writer's cache bookkeeping was found out of range.
    InvalidCacheBits { cache_bits: i64 },
}

/// Errors raised while producing an encoded frame.
#[derive(Debug, Clone, Copy, PartialEq, Eq)]
pub enum EncodingError {
    /// A write to the bitstream was refused.
    BitstreamError(BitstreamFault),
}

/// Errors raised when an encoder configuration is checked.
#[derive(Debug, Clone, PartialEq, Eq)]
pub enum ConfigError {
    /// The sample rate is not one that MPEG-1, MPEG-2 or MPEG-2.5 defines.
    UnsupportedSampleRate(u32),
    /// The bitrate is not one of the Layer III bitrates.
    UnsupportedBitrate(u32),
    /// The stereo mode does not suit the number of channels.
    InvalidStereoMode { mode: String, channels: u8 },
    /// The bitrate is not available at the sample rate.
    IncompatibleRateCombination { sample_rate: u32, bitrate: u32 },
}

} // verus!
