//! MPEG audio frame headers: the fields of the 32-bit header word, the
//! checks an MPEG-1 Layer III header must pass, the frame size its
//! bitrate and sample rate give, and reading bit fields of side
//! information.

use vstd::prelude::*;
use vstd::arithmetic::power2::pow2;
use vstd::bits::lemma_u8_shr_is_div;

verus! {

/// Why an MP3 stream was refused.
#[derive(Debug, Clone, Copy, PartialEq, Eq, Structural)]
pub enum ValidationError {
    /// The file is too small to hold a frame header.
    InvalidFileSize(usize),
    /// The frame does not start with a sync word.
    InvalidSyncWord { position: usize, found: u16 },
    /// The version bit is not that of MPEG-1.
    InvalidMpegVersion { position: usize, bits: u8 },
    /// The layer bits are not those of Layer III.
    InvalidLayer { position: usize, bits: u8 },
    /// The bitrate index is free (0) or forbidden (15).
    InvalidBitrate { position: usize, index: u8 },
    /// The sample rate index is reserved (3).
    InvalidSampleRate { position: usize, index: u8 },
    /// The channel mode is out of range.
    InvalidChannelMode { position: usize, mode: u8 },
    /// The frame has not the size its header gives.
    InvalidFrameSize { position: usize, calculated: usize, expected: usize },
    /// The data ends where more was to be read.
    UnexpectedEndOfFile { position: usize },
    /// The frame is too short for its side information.
    InvalidSideInfoLength { position: usize, expected: usize, available: usize },
    /// The frame is too short for its main data.
    InvalidMainDataLength { position: usize, expected: usize, available: usize },
}

/// The fields of an MPEG audio frame header.
#[derive(Debug, Clone, Copy, PartialEq, Eq, Structural)]
pub struct FrameHeader {
    pub sync_word: u16,
    pub mpeg_version: u8,
    pub layer: u8,
    pub protection_bit: bool,
    pub bitrate_index: u8,
    pub sample_rate_index: u8,
    pub padding_bit: bool,
    pub private_bit: bool,
    pub channel_mode: u8,
    pub mode_extension: u8,
    pub copyright: bool,
    pub original: bool,
    pub emphasis: u8,
}

/// The big-endian 32-bit word at `i`.
pub open spec fn be_u32(b: Seq<u8>, i: int) -> int {
    16777216 * b[i] + 65536 * b[i + 1] + 256 * b[i + 2] + b[i + 3]
}

/// The header whose fields are the bits of `w`: 12 sync bits, the version
/// bit, 2 layer bits, the protection bit, 4 bitrate bits, 2 sample rate
/// bits, the padding and private bits, 2 mode bits, 2 mode extension bits,
/// the copyright and original bits and 2 emphasis bits.
pub open spec fn header_of(w: u32) -> FrameHeader {
    FrameHeader {
        sync_word: ((w >> 20) & 0xFFF) as u16,
        mpeg_version: ((w >> 19) & 0x1) as u8,
        layer: ((w >> 17) & 0x3) as u8,
        protection_bit: ((w >> 16) & 0x1) != 0,
        bitrate_index: ((w >> 12) & 0xF) as u8,
        sample_rate_index: ((w >> 10) & 0x3) as u8,
        padding_bit: ((w >> 9) & 0x1) != 0,
        private_bit: ((w >> 8) & 0x1) != 0,
        channel_mode: ((w >> 6) & 0x3) as u8,
        mode_extension: ((w >> 4) & 0x3) as u8,
        copyright: ((w >> 3) & 0x1) != 0,
        original: ((w >> 2) & 0x1) != 0,
        emphasis: (w & 0x3) as u8,
    }
}

/// The first check of the header's fields that fails, if one does: the
/// sync word, MPEG-1, Layer III, a bitrate index of 1 to 14, a sample rate
/// index of 0 to 2 and a channel mode of 0 to 3, in that order. Errors
/// carry `position`, where the frame starts.
pub open spec fn header_error(h: FrameHeader, position: usize) -> Option<ValidationError> {
    if h.sync_word < 0xFFE {
        Some(ValidationError::InvalidSyncWord { position, found: h.sync_word })
    } else if h.mpeg_version != 1 {
        Some(ValidationError::InvalidMpegVersion { position, bits: h.mpeg_version })
    } else if h.layer != 1 {
        Some(ValidationError::InvalidLayer { position, bits: h.layer })
    } else if h.bitrate_index == 0 || h.bitrate_index == 15 {
        Some(ValidationError::InvalidBitrate { position, index: h.bitrate_index })
    } else if h.sample_rate_index > 2 {
        Some(ValidationError::InvalidSampleRate { position, index: h.sample_rate_index })
    } else if h.channel_mode > 3 {
        Some(ValidationError::InvalidChannelMode { position, mode: h.channel_mode })
    } else {
        None
    }
}

/// The MPEG-1 Layer III bitrate in kbit/s of an index; 0 for the free and
/// the forbidden index.
pub open spec fn bitrate_kbps(index: int) -> int {
    if index == 1 { 32 }
    else if index == 2 { 40 }
    else if index == 3 { 48 }
    else if index == 4 { 56 }
    else if index == 5 { 64 }
    else if index == 6 { 80 }
    else if index == 7 { 96 }
    else if index == 8 { 112 }
    else if index == 9 { 128 }
    else if index == 10 { 160 }
    else if index == 11 { 192 }
    else if index == 12 { 224 }
    else if index == 13 { 256 }
    else if index == 14 { 320 }
    else { 0 }
}

/// The MPEG-1 sample rate in Hz of an index; 0 for the reserved index.
pub open spec fn sample_rate_hz(index: int) -> int {
    if index == 0 {
        44100
    } else if index == 1 {
        48000
    } else if index == 2 {
        32000
    } else {
        0
    }
}

/// The whole number of bytes in a frame without padding, as the
/// double-precision product `(2 * 576 / rate) * (1000 * bitrate / 8)` gives
/// it when truncated to `u32`: `144000 * bitrate / rate`, less one for
/// 48, 56, 96, 112, 192 and 224 kbit/s at 32 kHz, where the product falls
/// just short of the whole number; for a rate of 0 the product is infinite
/// (the largest `u32`) or, for a bitrate of 0, not a number (0).
pub open spec fn whole_slots(bitrate: int, rate: int) -> int {
    if rate == 0 {
        if bitrate == 0 {
            0
        } else {
            0xFFFF_FFFF
        }
    } else {
        let q = 144000 * bitrate / rate;
        if rate == 32000 && (bitrate == 48 || bitrate == 56 || bitrate == 96 || bitrate == 112
            || bitrate == 192 || bitrate == 224) {
            q - 1
        } else {
            q
        }
    }
}

/// The frame size, without padding, of a header.
pub open spec fn theoretical_frame_size(h: FrameHeader) -> int {
    whole_slots(bitrate_kbps(h.bitrate_index as int), sample_rate_hz(h.sample_rate_index as int))
}

/// Whether the header word `w` starts a plausible MPEG-1 Layer III frame:
/// a sync word, MPEG-1, Layer III, a bitrate index of 1 to 14 and a sample
/// rate index of 0 to 2.
pub open spec fn plausible_header(w: u32) -> bool {
    let h = header_of(w);
    &&& h.sync_word >= 0xFFE
    &&& h.mpeg_version == 1
    &&& h.layer == 1
    &&& 0 < h.bitrate_index < 15
    &&& h.sample_rate_index < 3
}

/// The big-endian word of the four bytes at `i`.
pub fn read_be_u32(buf: &[u8], i: usize) -> (r: u32)
    requires
        i + 4 <= buf@.len(),
    ensures
        r == be_u32(buf@, i as int),
{
    (buf[i] as u32) * 16777216 + (buf[i + 1] as u32) * 65536 + (buf[i + 2] as u32) * 256 + (buf[i
        + 3] as u32)
}

impl FrameHeader {
    /// The header whose fields are the bits of `w`.
    pub fn from_word(w: u32) -> (h: Self)
        ensures
            h == header_of(w),
    {
        FrameHeader {
            sync_word: ((w >> 20) & 0xFFF) as u16,
            mpeg_version: ((w >> 19) & 0x1) as u8,
            layer: ((w >> 17) & 0x3) as u8,
            protection_bit: ((w >> 16) & 0x1) != 0,
            bitrate_index: ((w >> 12) & 0xF) as u8,
            sample_rate_index: ((w >> 10) & 0x3) as u8,
            padding_bit: ((w >> 9) & 0x1) != 0,
            private_bit: ((w >> 8) & 0x1) != 0,
            channel_mode: ((w >> 6) & 0x3) as u8,
            mode_extension: ((w >> 4) & 0x3) as u8,
            copyright: ((w >> 3) & 0x1) != 0,
            original: ((w >> 2) & 0x1) != 0,
            emphasis: (w & 0x3) as u8,
        }
    }
}

/// Checks the fields of a header: the sync word, MPEG-1, Layer III, a
/// bitrate index of 1 to 14, a sample rate index of 0 to 2 and a channel
/// mode of 0 to 3, reporting the first that fails with `position`.
pub fn validate_header_fields(header: &FrameHeader, position: usize) -> (r: Result<(), ValidationError>)
    ensures
        match header_error(*header, position) {
            Some(e) => r == Err::<(), ValidationError>(e),
            None => r is Ok,
        },
{
    if header.sync_word < 0xFFE {
        return Err(ValidationError::InvalidSyncWord { position, found: header.sync_word });
    }
    if header.mpeg_version != 1 {
        return Err(ValidationError::InvalidMpegVersion { position, bits: header.mpeg_version });
    }
    if header.layer != 1 {
        return Err(ValidationError::InvalidLayer { position, bits: header.layer });
    }
    if header.bitrate_index == 0 || header.bitrate_index == 15 {
        return Err(ValidationError::InvalidBitrate { position, index: header.bitrate_index });
    }
    if header.sample_rate_index > 2 {
        return Err(ValidationError::InvalidSampleRate { position, index: header.sample_rate_index });
    }
    if header.channel_mode > 3 {
        return Err(ValidationError::InvalidChannelMode { position, mode: header.channel_mode });
    }
    Ok(())
}

/// The MPEG-1 Layer III bitrate in kbit/s of a 4-bit index.
pub fn bitrate_of_index(index: u8) -> (r: u32)
    ensures
        r == bitrate_kbps(index as int),
{
    match index {
        1 => 32,
        2 => 40,
        3 => 48,
        4 => 56,
        5 => 64,
        6 => 80,
        7 => 96,
        8 => 112,
        9 => 128,
        10 => 160,
        11 => 192,
        12 => 224,
        13 => 256,
        14 => 320,
        _ => 0,
    }
}

/// The MPEG-1 sample rate in Hz of a 2-bit index.
pub fn sample_rate_of_index(index: u8) -> (r: u32)
    ensures
        r == sample_rate_hz(index as int),
{
    match index {
        0 => 44100,
        1 => 48000,
        2 => 32000,
        _ => 0,
    }
}

/// The frame size in bytes, without padding, that the header's bitrate and
/// sample rate give.
pub fn calculate_frame_size(header: &FrameHeader) -> (r: usize)
    ensures
        r == theoretical_frame_size(*header),
{
    let bitrate = bitrate_of_index(header.bitrate_index);
    let rate = sample_rate_of_index(header.sample_rate_index);
    if rate == 0 {
        if bitrate == 0 {
            return 0;
        }
        return 0xFFFF_FFFFu32 as usize;
    }
    let product: u64 = 144000 * (bitrate as u64);
    let q = product / (rate as u64);
    assert(q <= 1440) by (nonlinear_arith)
        requires
            q == product / (rate as u64),
            product == 144000 * bitrate,
            bitrate <= 320,
            rate >= 32000,
    ;
    let slots = if rate == 32000 && (bitrate == 48 || bitrate == 56 || bitrate == 96 || bitrate == 112
        || bitrate == 192 || bitrate == 224) {
        assert(q >= 1) by (nonlinear_arith)
            requires
                q == product / (rate as u64),
                product == 144000 * bitrate,
                bitrate >= 48,
                rate == 32000,
        ;
        q - 1
    } else {
        q
    };
    slots as usize
}

/// The size in bytes of the side information of a frame in a channel
/// mode: 17 for mono (3), 32 otherwise.
pub open spec fn side_info_size(channel_mode: u8) -> int {
    if channel_mode == 3 {
        17
    } else {
        32
    }
}

/// `num_bits` bits read most significant first from bit `bit_offset` of
/// `data` on, bits past the end of `data` left out, kept to 16 bits.
pub open spec fn extracted_bits(data: Seq<u8>, bit_offset: int, num_bits: int) -> int
    decreases num_bits,
{
    if num_bits <= 0 {
        0
    } else {
        let prev = extracted_bits(data, bit_offset, num_bits - 1);
        let k = bit_offset + num_bits - 1;
        if k / 8 < data.len() {
            (2 * prev + (data[k / 8] as int / pow2((7 - k % 8) as nat) as int) % 2) % 65536
        } else {
            prev
        }
    }
}

/// Bit `s` (`s < 8`) of a byte, as an integer: `(b >> s) & 1`.
pub proof fn lemma_bit_of_byte(b: u8, s: u8)
    requires
        s < 8,
    ensures
        (b >> s) & 1 == (b as int / pow2(s as nat) as int) % 2,
{
    lemma_u8_shr_is_div(b, s);
    let t = b >> s;
    assert(t & 1 == t % 2) by (bit_vector);
}

proof fn lemma_shift_or(r: u16, bit: u16)
    requires
        bit <= 1,
    ensures
        (r << 1u16) | bit == (2 * r + bit) % 65536,
{
    assert((r << 1u16) | bit == (2 * r + bit) % 65536) by (bit_vector)
        requires
            bit <= 1,
    ;
}

/// Reads `num_bits` bits most significant first from bit `bit_offset` of
/// `data` on, leaving out bits past its end; only the last 16 bits read
/// are kept.
pub fn extract_bits(data: &[u8], bit_offset: usize, num_bits: usize) -> (r: u16)
    requires
        bit_offset + num_bits <= usize::MAX,
    ensures
        r == extracted_bits(data@, bit_offset as int, num_bits as int),
{
    let mut result: u16 = 0;
    let mut i: usize = 0;
    while i < num_bits
        invariant
            i <= num_bits,
            bit_offset + num_bits <= usize::MAX,
            result == extracted_bits(data@, bit_offset as int, i as int),
        decreases num_bits - i,
    {
        let k = bit_offset + i;
        let byte_index = k / 8;
        let bit_index = (7 - (k % 8)) as u8;
        if byte_index < data.len() {
            let bit = (data[byte_index] >> bit_index) & 1;
            proof {
                lemma_bit_of_byte(data@[byte_index as int], bit_index);
                lemma_shift_or(result, bit as u16);
            }
            result = (result << 1) | (bit as u16);
        }
        i = i + 1;
    }
    result
}

} // verus!
