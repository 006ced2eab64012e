//! The command line of the WAV to MP3 converter: input and output paths,
//! an optional bitrate and an optional stereo mode, and the encoder
//! configuration they give for a WAV file's format.

use vstd::prelude::*;
use crate::config::{Channels, Config, Emphasis, MpegConfig, StereoMode, WaveConfig};
use vstd::utf8::encode_utf8;

verus! {

/// The converter's arguments.
#[derive(Debug)]
pub struct Args {
    pub input_file: String,
    pub output_file: String,
    /// Bitrate in kbit/s.
    pub bitrate: u32,
    pub stereo_mode: StereoMode,
}

/// Why a command line was refused.
#[derive(Debug)]
pub enum ArgsError {
    /// Fewer than two paths were given; `program` is the program's name.
    Usage { program: String },
    /// The bitrate is not a decimal number that fits in 32 bits.
    InvalidBitrate { text: String },
    /// The bitrate is not one of MPEG-1 Layer III's.
    UnsupportedBitrate(u32),
    /// The stereo mode is not one of the four names.
    InvalidStereoMode { text: String },
}

/// The bitrates in kbit/s the converter accepts.
pub open spec fn supported_bitrate(b: u32) -> bool {
    b == 32 || b == 40 || b == 48 || b == 56 || b == 64 || b == 80 || b == 96 || b == 112 || b
        == 128 || b == 160 || b == 192 || b == 224 || b == 256 || b == 320
}

/// The value of a run of ASCII decimal digits.
pub open spec fn digits_value(d: Seq<u8>) -> int
    decreases d.len(),
{
    if d.len() == 0 {
        0
    } else {
        10 * digits_value(d.drop_last()) + (d.last() - 48)
    }
}

/// Every byte is an ASCII decimal digit.
pub open spec fn all_digits(d: Seq<u8>) -> bool {
    forall|i: int| 0 <= i < d.len() ==> 48 <= #[trigger] d[i] <= 57
}

/// The digits of a decimal number as the standard library reads an
/// unsigned integer: after an optional `+`, at least one digit.
pub open spec fn decimal_digits(b: Seq<u8>) -> Seq<u8> {
    if b.len() > 0 && b[0] == 43 {
        b.drop_first()
    } else {
        b
    }
}

/// The `u32` the text with UTF-8 bytes `b` reads as: an optional `+`, then
/// at least one ASCII digit, the value fitting in 32 bits.
pub open spec fn parsed_u32(b: Seq<u8>) -> Option<u32> {
    let d = decimal_digits(b);
    if d.len() > 0 && all_digits(d) && digits_value(d) <= u32::MAX {
        Some(digits_value(d) as u32)
    } else {
        None
    }
}

proof fn lemma_digits_value_monotone(d: Seq<u8>, n: int)
    requires
        all_digits(d),
        0 <= n <= d.len(),
    ensures
        0 <= digits_value(d.take(n)) <= digits_value(d),
    decreases d.len(),
{
    if d.len() > 0 {
        if n == d.len() {
            assert(d.take(n) =~= d);
            lemma_digits_value_monotone(d.drop_last(), (n - 1) as int);
            assert(d.drop_last().take(n - 1) =~= d.drop_last());
        } else {
            assert(d.drop_last().take(n) =~= d.take(n));
            lemma_digits_value_monotone(d.drop_last(), n);
        }
    }
}

/// Reads a decimal `u32` as the standard library's `str::parse` does:
/// an optional `+`, then one or more ASCII digits, the value fitting in
/// 32 bits.
pub fn parse_u32(text: &str) -> (r: Option<u32>)
    ensures
        r == parsed_u32(encode_utf8(text@)),
{
    let b = text.as_bytes();
    let start: usize = if b.len() > 0 && b[0] == 43 { 1 } else { 0 };
    let ghost d = decimal_digits(b@);
    assert(d =~= b@.subrange(start as int, b@.len() as int));
    if start >= b.len() {
        return None;
    }
    let mut value: u64 = 0;
    let mut i: usize = start;
    while i < b.len()
        invariant
            start <= i <= b@.len(),
            b@ == encode_utf8(text@),
            d == decimal_digits(b@),
            d.len() > 0,
            d == b@.subrange(start as int, b@.len() as int),
            all_digits(d.take(i - start)),
            value == digits_value(d.take(i - start)),
            value <= u32::MAX,
        decreases b@.len() - i,
    {
        let c = b[i];
        assert(d.take(i - start + 1).drop_last() =~= d.take(i - start));
        if c < 48 || c > 57 {
            assert(!all_digits(d)) by {
                assert(d[i - start] == c);
            }
            return None;
        }
        let next = value * 10 + (c - 48) as u64;
        if next > 0xFFFF_FFFF {
            proof {
                assert(all_digits(d.take(i - start + 1)));
                if all_digits(d) {
                    lemma_digits_value_monotone(d, i - start + 1);
                }
            }
            return None;
        }
        value = next;
        i = i + 1;
    }
    assert(d.take(i - start) =~= d);
    Some(value as u32)
}

/// `b` equals the ASCII name `name` but for the case of ASCII letters.
pub open spec fn ascii_eq_ignore_case(b: Seq<u8>, name: Seq<u8>) -> bool {
    &&& b.len() == name.len()
    &&& forall|i: int|
        0 <= i < b.len() ==> (#[trigger] b[i] == name[i] || (65 <= b[i] <= 90 && b[i] + 32
            == name[i]))
}

/// Whether `text` equals the lower-case ASCII `name` once lower-cased.
/// Only ASCII capitals lower-case to the letters, digits and `_` of such
/// names (the Kelvin sign, which gives `k`, aside), so comparing the bytes
/// with ASCII capitals folded is enough.
fn matches_name(text: &[u8], name: &[u8]) -> (r: bool)
    ensures
        r == ascii_eq_ignore_case(text@, name@),
{
    if text.len() != name.len() {
        return false;
    }
    let mut i: usize = 0;
    while i < text.len()
        invariant
            text@.len() == name@.len(),
            i <= text@.len(),
            forall|j: int|
                0 <= j < i ==> (#[trigger] text@[j] == name@[j] || (65 <= text@[j] <= 90
                    && text@[j] + 32 == name@[j])),
        decreases text@.len() - i,
    {
        let c = text[i];
        let folded = c == name[i] || (65 <= c && c <= 90 && c + 32 == name[i]);
        if !folded {
            return false;
        }
        i = i + 1;
    }
    true
}

/// `mono`
pub open spec fn mono_name() -> Seq<u8> {
    seq![109u8, 111, 110, 111]
}

/// `stereo`
pub open spec fn stereo_name() -> Seq<u8> {
    seq![115u8, 116, 101, 114, 101, 111]
}

/// `joint_stereo`
pub open spec fn joint_stereo_name() -> Seq<u8> {
    seq![106u8, 111, 105, 110, 116, 95, 115, 116, 101, 114, 101, 111]
}

/// `dual_channel`
pub open spec fn dual_channel_name() -> Seq<u8> {
    seq![100u8, 117, 97, 108, 95, 99, 104, 97, 110, 110, 101, 108]
}

/// The stereo mode a name gives, letter case aside.
pub open spec fn stereo_mode_named(b: Seq<u8>) -> Option<StereoMode> {
    if ascii_eq_ignore_case(b, mono_name()) {
        Some(StereoMode::Mono)
    } else if ascii_eq_ignore_case(b, stereo_name()) {
        Some(StereoMode::Stereo)
    } else if ascii_eq_ignore_case(b, joint_stereo_name()) {
        Some(StereoMode::JointStereo)
    } else if ascii_eq_ignore_case(b, dual_channel_name()) {
        Some(StereoMode::DualChannel)
    } else {
        None
    }
}

/// The stereo mode named by `text`: `mono`, `stereo`, `joint_stereo` or
/// `dual_channel`, in any letter case.
pub fn parse_stereo_mode(text: &str) -> (r: Option<StereoMode>)
    ensures
        r == stereo_mode_named(encode_utf8(text@)),
{
    let b = text.as_bytes();
    let mono: [u8; 4] = [109, 111, 110, 111];
    let stereo: [u8; 6] = [115, 116, 101, 114, 101, 111];
    let joint: [u8; 12] = [106, 111, 105, 110, 116, 95, 115, 116, 101, 114, 101, 111];
    let dual: [u8; 12] = [100, 117, 97, 108, 95, 99, 104, 97, 110, 110, 101, 108];
    assert(mono@ =~= mono_name());
    assert(stereo@ =~= stereo_name());
    assert(joint@ =~= joint_stereo_name());
    assert(dual@ =~= dual_channel_name());
    if matches_name(b, mono.as_slice()) {
        Some(StereoMode::Mono)
    } else if matches_name(b, stereo.as_slice()) {
        Some(StereoMode::Stereo)
    } else if matches_name(b, joint.as_slice()) {
        Some(StereoMode::JointStereo)
    } else if matches_name(b, dual.as_slice()) {
        Some(StereoMode::DualChannel)
    } else {
        None
    }
}

/// The bitrate a command line gives, if it reads as a number: the fourth
/// argument, or 128 without one.
pub open spec fn bitrate_argument(args: Seq<String>) -> Option<u32> {
    if args.len() > 3 {
        parsed_u32(encode_utf8(args[3]@))
    } else {
        Some(128u32)
    }
}

/// The stereo mode a command line gives, if it names one: the fifth
/// argument, or joint stereo without one.
pub open spec fn stereo_mode_argument(args: Seq<String>) -> Option<StereoMode> {
    if args.len() > 4 {
        stereo_mode_named(encode_utf8(args[4]@))
    } else {
        Some(StereoMode::JointStereo)
    }
}

impl Args {
    /// Reads the command line `args`, the program's name first: two paths,
    /// then optionally a bitrate in kbit/s (128 by default), which must be
    /// one of MPEG-1 Layer III's, and a stereo mode (joint stereo by
    /// default). Errors come in that order.
    pub fn parse(args: &Vec<String>) -> (r: Result<Args, ArgsError>)
        requires
            args@.len() >= 1,
        ensures
            args@.len() < 3 ==> (r matches Err(ArgsError::Usage { program }) && program@
                == args@[0]@),
            args@.len() >= 3 ==> match bitrate_argument(args@) {
                None => (r matches Err(ArgsError::InvalidBitrate { text }) && text@ == args@[3]@),
                Some(b) => if !supported_bitrate(b) {
                    (r matches Err(ArgsError::UnsupportedBitrate(e)) && e == b)
                } else {
                    match stereo_mode_argument(args@) {
                        None => (r matches Err(ArgsError::InvalidStereoMode { text }) && text@
                            == args@[4]@),
                        Some(m) => (r matches Ok(a) && a.input_file@ == args@[1]@ && a.output_file@
                            == args@[2]@ && a.bitrate == b && a.stereo_mode == m),
                    }
                },
            },
    {
        if args.len() < 3 {
            return Err(ArgsError::Usage { program: args[0].clone() });
        }
        let input_file = args[1].clone();
        let output_file = args[2].clone();
        let bitrate = if args.len() > 3 {
            match parse_u32(args[3].as_str()) {
                Some(b) => b,
                None => {
                    return Err(ArgsError::InvalidBitrate { text: args[3].clone() });
                },
            }
        } else {
            128
        };
        if !(bitrate == 32 || bitrate == 40 || bitrate == 48 || bitrate == 56 || bitrate == 64
            || bitrate == 80 || bitrate == 96 || bitrate == 112 || bitrate == 128 || bitrate == 160
            || bitrate == 192 || bitrate == 224 || bitrate == 256 || bitrate == 320) {
            return Err(ArgsError::UnsupportedBitrate(bitrate));
        }
        let stereo_mode = if args.len() > 4 {
            match parse_stereo_mode(args[4].as_str()) {
                Some(m) => m,
                None => {
                    return Err(ArgsError::InvalidStereoMode { text: args[4].clone() });
                },
            }
        } else {
            StereoMode::JointStereo
        };
        Ok(Args { input_file, output_file, bitrate, stereo_mode })
    }
}

/// The encoder configuration for converting a WAV file of `channels`
/// channels at `sample_rate` Hz: mono for one channel, with mono mode;
/// otherwise stereo, with the requested mode; the requested bitrate; no
/// emphasis; not copyrighted; original.
pub fn conversion_config(args: &Args, sample_rate: u32, channels: u16) -> (c: Config)
    ensures
        c.wave.channels == (if channels == 1 { Channels::Mono } else { Channels::Stereo }),
        c.wave.sample_rate == sample_rate,
        c.mpeg.mode == (if channels == 1 { StereoMode::Mono } else { args.stereo_mode }),
        c.mpeg.bitrate == args.bitrate,
        c.mpeg.emphasis == Emphasis::NoEmphasis,
        !c.mpeg.copyright,
        c.mpeg.original,
{
    let wave_channels = if channels == 1 { Channels::Mono } else { Channels::Stereo };
    let stereo_mode = if channels == 1 { StereoMode::Mono } else { args.stereo_mode };
    Config {
        wave: WaveConfig { channels: wave_channels, sample_rate },
        mpeg: MpegConfig {
            mode: stereo_mode,
            bitrate: args.bitrate,
            emphasis: Emphasis::NoEmphasis,
            copyright: false,
            original: true,
        },
    }
}

} // verus!
