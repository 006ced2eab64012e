//! Encoder configuration: audio format, MPEG stream parameters, and the
//! rules that decide which combinations can be encoded.

use vstd::prelude::*;
use crate::error::ConfigError;

verus! {

/// Number of audio channels.
#[derive(Debug, Clone, Copy, PartialEq, Eq, Structural)]
pub enum Channels {
    /// One channel.
    Mono,
    /// Two channels.
    Stereo,
}

/// Stereo encoding modes.
#[derive(Debug, Clone, Copy, PartialEq, Eq, Structural)]
pub enum StereoMode {
    /// Standard stereo.
    Stereo,
    /// Joint stereo (mid/side coding).
    JointStereo,
    /// Two independent channels.
    DualChannel,
    /// One channel.
    Mono,
}

/// Pre-emphasis modes.
#[derive(Debug, Clone, Copy, PartialEq, Eq, Structural)]
pub enum Emphasis {
    /// No emphasis.
    NoEmphasis,
    /// 50/15 microseconds emphasis.
    Emphasis50_15,
    /// CCITT J.17 emphasis.
    CcittJ17,
}

/// MPEG audio versions.
#[derive(Debug, Clone, Copy, PartialEq, Eq, Structural)]
pub enum MpegVersion {
    /// MPEG-1.
    Mpeg1,
    /// MPEG-2.
    Mpeg2,
    /// MPEG-2.5.
    Mpeg25,
}

/// Audio format configuration.
#[derive(Debug, Clone, Copy)]
pub struct WaveConfig {
    /// Number of audio channels.
    pub channels: Channels,
    /// Sample rate in Hz.
    pub sample_rate: u32,
}

/// MPEG encoding configuration.
#[derive(Debug, Clone, Copy)]
pub struct MpegConfig {
    /// Stereo encoding mode.
    pub mode: StereoMode,
    /// Target bitrate in kbps.
    pub bitrate: u32,
    /// Pre-emphasis mode.
    pub emphasis: Emphasis,
    /// Copyright flag.
    pub copyright: bool,
    /// Original flag.
    pub original: bool,
}

/// Encoder configuration.
#[derive(Debug, Clone, Copy)]
pub struct Config {
    /// Audio format.
    pub wave: WaveConfig,
    /// MPEG stream parameters.
    pub mpeg: MpegConfig,
}

impl Channels {
    /// Number of channels.
    pub open spec fn spec_count(self) -> int {
        match self {
            Channels::Mono => 1,
            Channels::Stereo => 2,
        }
    }

    /// Number of channels.
    pub fn count(&self) -> (n: u8)
        ensures
            n == self.spec_count(),
    {
        match self {
            Channels::Mono => 1,
            Channels::Stereo => 2,
        }
    }
}

/// The name of a stereo mode, as it is spelled in the enumeration.
pub open spec fn stereo_mode_name(mode: StereoMode) -> Seq<char> {
    match mode {
        StereoMode::Stereo => "Stereo"@,
        StereoMode::JointStereo => "JointStereo"@,
        StereoMode::DualChannel => "DualChannel"@,
        StereoMode::Mono => "Mono"@,
    }
}

impl StereoMode {
    /// The name of the mode, as it is spelled in the enumeration.
    pub fn name(&self) -> (s: String)
        ensures
            s@ == stereo_mode_name(*self),
    {
        broadcast use vstd::string::to_string_from_display_ensures_for_str;

        match self {
            StereoMode::Stereo => "Stereo".to_string(),
            StereoMode::JointStereo => "JointStereo".to_string(),
            StereoMode::DualChannel => "DualChannel".to_string(),
            StereoMode::Mono => "Mono".to_string(),
        }
    }
}

/// The sample rates of MPEG-1, MPEG-2 and MPEG-2.5 in Hz.
pub open spec fn is_supported_sample_rate(rate: u32) -> bool {
    rate == 44100 || rate == 48000 || rate == 32000 || rate == 22050 || rate == 24000 || rate
        == 16000 || rate == 11025 || rate == 12000 || rate == 8000
}

/// The Layer III bitrates of all versions in kbps.
pub open spec fn is_supported_bitrate(bitrate: u32) -> bool {
    seq![8u32, 16, 24, 32, 40, 48, 56, 64, 80, 96, 112, 128, 144, 160, 192, 224, 256, 320].contains(
        bitrate,
    )
}

/// The bitrates available at a sample rate.
pub open spec fn bitrates_for_sample_rate(rate: u32) -> Seq<u32> {
    if rate == 44100 || rate == 48000 || rate == 32000 {
        seq![32u32, 40, 48, 56, 64, 80, 96, 112, 128, 160, 192, 224, 256, 320]
    } else if rate == 22050 || rate == 24000 || rate == 16000 {
        seq![8u32, 16, 24, 32, 40, 48, 56, 64, 80, 96, 112, 128, 144, 160]
    } else {
        seq![8u32, 16, 24, 32, 40, 48, 56, 64]
    }
}

/// The stereo mode suits the channel count: mono with one channel; stereo,
/// joint stereo or dual channel with two.
pub open spec fn mode_suits_channels(channels: Channels, mode: StereoMode) -> bool {
    match (channels, mode) {
        (Channels::Mono, StereoMode::Mono) => true,
        (Channels::Stereo, StereoMode::Stereo) => true,
        (Channels::Stereo, StereoMode::JointStereo) => true,
        (Channels::Stereo, StereoMode::DualChannel) => true,
        _ => false,
    }
}

/// The MPEG version of a sample rate; unknown rates count as MPEG-1.
pub open spec fn version_of_rate(rate: u32) -> MpegVersion {
    if rate == 22050 || rate == 24000 || rate == 16000 {
        MpegVersion::Mpeg2
    } else if rate == 11025 || rate == 12000 || rate == 8000 {
        MpegVersion::Mpeg25
    } else {
        MpegVersion::Mpeg1
    }
}

/// The bitrate table of a version, by header index.
pub open spec fn bitrate_table(version: MpegVersion) -> Seq<u32> {
    match version {
        MpegVersion::Mpeg1 => seq![0u32, 32, 40, 48, 56, 64, 80, 96, 112, 128, 160, 192, 224, 256, 320, 0],
        _ => seq![0u32, 8, 16, 24, 32, 40, 48, 56, 64, 80, 96, 112, 128, 144, 160, 0],
    }
}

/// Whether `list` holds `x`.
fn list_contains(list: &[u32], x: u32) -> (found: bool)
    ensures
        found == list@.contains(x),
{
    let mut i: usize = 0;
    while i < list.len()
        invariant
            i <= list.len(),
            forall|j: int| 0 <= j < i ==> list@[j] != x,
        decreases list.len() - i,
    {
        if list[i] == x {
            assert(list@[i as int] == x);
            return true;
        }
        i = i + 1;
    }
    false
}

impl WaveConfig {
    /// Accepts the sample rates of MPEG-1, MPEG-2 and MPEG-2.5.
    pub fn validate(&self) -> (r: Result<(), ConfigError>)
        ensures
            r is Ok <==> is_supported_sample_rate(self.sample_rate),
            r is Err ==> r == Err::<(), ConfigError>(
                ConfigError::UnsupportedSampleRate(self.sample_rate),
            ),
    {
        let valid_sample_rates: [u32; 9] = [44100, 48000, 32000, 22050, 24000, 16000, 11025, 12000, 8000];
        let found = list_contains(&valid_sample_rates, self.sample_rate);
        assert(valid_sample_rates@ =~= seq![44100u32, 48000, 32000, 22050, 24000, 16000, 11025, 12000, 8000]);
        if !found {
            assert(!is_supported_sample_rate(self.sample_rate)) by {
                if is_supported_sample_rate(self.sample_rate) {
                    let r = self.sample_rate;
                    if r == 44100 { assert(valid_sample_rates@[0] == r); }
                    else if r == 48000 { assert(valid_sample_rates@[1] == r); }
                    else if r == 32000 { assert(valid_sample_rates@[2] == r); }
                    else if r == 22050 { assert(valid_sample_rates@[3] == r); }
                    else if r == 24000 { assert(valid_sample_rates@[4] == r); }
                    else if r == 16000 { assert(valid_sample_rates@[5] == r); }
                    else if r == 11025 { assert(valid_sample_rates@[6] == r); }
                    else if r == 12000 { assert(valid_sample_rates@[7] == r); }
                    else { assert(valid_sample_rates@[8] == r); }
                }
            }
            return Err(ConfigError::UnsupportedSampleRate(self.sample_rate));
        }
        Ok(())
    }
}

impl MpegConfig {
    /// Accepts a Layer III bitrate and a stereo mode that suits the channel
    /// count; the bitrate is checked first.
    pub fn validate(&self, wave: &WaveConfig) -> (r: Result<(), ConfigError>)
        ensures
            r is Ok <==> is_supported_bitrate(self.bitrate) && mode_suits_channels(
                wave.channels,
                self.mode,
            ),
            !is_supported_bitrate(self.bitrate) ==> r == Err::<(), ConfigError>(
                ConfigError::UnsupportedBitrate(self.bitrate),
            ),
            is_supported_bitrate(self.bitrate) && !mode_suits_channels(wave.channels, self.mode)
                ==> (r matches Err(ConfigError::InvalidStereoMode { mode, channels }) && mode@
                == stereo_mode_name(self.mode) && channels == wave.channels.spec_count()),
    {
        let valid_bitrates: [u32; 18] = [8, 16, 24, 32, 40, 48, 56, 64, 80, 96, 112, 128, 144, 160, 192, 224, 256, 320];
        assert(valid_bitrates@ =~= seq![8u32, 16, 24, 32, 40, 48, 56, 64, 80, 96, 112, 128, 144, 160, 192, 224, 256, 320]);
        if !list_contains(&valid_bitrates, self.bitrate) {
            return Err(ConfigError::UnsupportedBitrate(self.bitrate));
        }
        match (wave.channels, self.mode) {
            (Channels::Mono, StereoMode::Mono) => Ok(()),
            (Channels::Stereo, StereoMode::Stereo) => Ok(()),
            (Channels::Stereo, StereoMode::JointStereo) => Ok(()),
            (Channels::Stereo, StereoMode::DualChannel) => Ok(()),
            (channels, mode) => Err(
                ConfigError::InvalidStereoMode { mode: mode.name(), channels: channels.count() },
            ),
        }
    }
}

impl Config {
    /// A configuration with the default format and stream parameters.
    pub fn new() -> (c: Self)
        ensures
            c.wave.channels == Channels::Stereo,
            c.wave.sample_rate == 44100,
            c.mpeg.mode == StereoMode::JointStereo,
            c.mpeg.bitrate == 128,
            c.mpeg.emphasis == Emphasis::NoEmphasis,
            !c.mpeg.copyright,
            c.mpeg.original,
    {
        Config { wave: WaveConfig::default(), mpeg: MpegConfig::default() }
    }

    /// Accepts a supported sample rate, a Layer III bitrate available at
    /// that sample rate, and a stereo mode that suits the channel count;
    /// reports the first failed check in the order sample rate, bitrate,
    /// stereo mode, bitrate at the sample rate.
    pub fn validate(&self) -> (r: Result<(), ConfigError>)
        ensures
            r is Ok <==> is_supported_sample_rate(self.wave.sample_rate) && is_supported_bitrate(
                self.mpeg.bitrate,
            ) && mode_suits_channels(self.wave.channels, self.mpeg.mode)
                && bitrates_for_sample_rate(self.wave.sample_rate).contains(self.mpeg.bitrate),
            !is_supported_sample_rate(self.wave.sample_rate) ==> r == Err::<(), ConfigError>(
                ConfigError::UnsupportedSampleRate(self.wave.sample_rate),
            ),
            is_supported_sample_rate(self.wave.sample_rate) && !is_supported_bitrate(
                self.mpeg.bitrate,
            ) ==> r == Err::<(), ConfigError>(ConfigError::UnsupportedBitrate(self.mpeg.bitrate)),
            is_supported_sample_rate(self.wave.sample_rate) && is_supported_bitrate(
                self.mpeg.bitrate,
            ) && !mode_suits_channels(self.wave.channels, self.mpeg.mode) ==> (r matches Err(
                ConfigError::InvalidStereoMode { mode, channels },
            ) && mode@ == stereo_mode_name(self.mpeg.mode) && channels
                == self.wave.channels.spec_count()),
            is_supported_sample_rate(self.wave.sample_rate) && is_supported_bitrate(
                self.mpeg.bitrate,
            ) && mode_suits_channels(self.wave.channels, self.mpeg.mode)
                && !bitrates_for_sample_rate(self.wave.sample_rate).contains(self.mpeg.bitrate)
                ==> r == Err::<(), ConfigError>(
                ConfigError::IncompatibleRateCombination {
                    sample_rate: self.wave.sample_rate,
                    bitrate: self.mpeg.bitrate,
                },
            ),
    {
        match self.wave.validate() {
            Ok(()) => {},
            Err(e) => {
                return Err(e);
            },
        }
        match self.mpeg.validate(&self.wave) {
            Ok(()) => {},
            Err(e) => {
                return Err(e);
            },
        }
        match self.validate_compatibility() {
            Ok(()) => {},
            Err(e) => {
                return Err(e);
            },
        }
        Ok(())
    }

    /// The MPEG version of the sample rate; unknown rates count as MPEG-1.
    pub fn mpeg_version(&self) -> (v: MpegVersion)
        ensures
            v == version_of_rate(self.wave.sample_rate),
    {
        match self.wave.sample_rate {
            44100 | 48000 | 32000 => MpegVersion::Mpeg1,
            22050 | 24000 | 16000 => MpegVersion::Mpeg2,
            11025 | 12000 | 8000 => MpegVersion::Mpeg25,
            _ => MpegVersion::Mpeg1,
        }
    }

    /// Samples per channel in a frame: 1152 for MPEG-1, 576 otherwise.
    pub fn samples_per_frame(&self) -> (n: usize)
        ensures
            n == if version_of_rate(self.wave.sample_rate) == MpegVersion::Mpeg1 {
                1152usize
            } else {
                576usize
            },
    {
        match self.mpeg_version() {
            MpegVersion::Mpeg1 => 1152,
            MpegVersion::Mpeg2 | MpegVersion::Mpeg25 => 576,
        }
    }

    /// The header index of the bitrate in the table of the version: its
    /// first position, or 9 when the table lacks it.
    pub fn bitrate_index(&self) -> (index: u8)
        ensures
            bitrate_table(version_of_rate(self.wave.sample_rate)).contains(self.mpeg.bitrate) ==> {
                &&& index < 16
                &&& bitrate_table(version_of_rate(self.wave.sample_rate))[index as int] == self.mpeg.bitrate
                &&& forall|j: int| 0 <= j < index ==> bitrate_table(version_of_rate(self.wave.sample_rate))[j] != self.mpeg.bitrate
            },
            !bitrate_table(version_of_rate(self.wave.sample_rate)).contains(self.mpeg.bitrate) ==> index == 9,
    {
        let bitrates: [u32; 16] = match self.mpeg_version() {
            MpegVersion::Mpeg1 => [0, 32, 40, 48, 56, 64, 80, 96, 112, 128, 160, 192, 224, 256, 320, 0],
            MpegVersion::Mpeg2 | MpegVersion::Mpeg25 => [0, 8, 16, 24, 32, 40, 48, 56, 64, 80, 96, 112, 128, 144, 160, 0],
        };
        let ghost table = bitrate_table(version_of_rate(self.wave.sample_rate));
        assert(bitrates@ =~= table);
        let mut index: usize = 0;
        while index < 16
            invariant
                index <= 16,
                bitrates@ == table,
                table == bitrate_table(version_of_rate(self.wave.sample_rate)),
                table.len() == 16,
                forall|j: int| 0 <= j < index ==> table[j] != self.mpeg.bitrate,
            decreases 16 - index,
        {
            if bitrates[index] == self.mpeg.bitrate {
                assert(table[index as int] == self.mpeg.bitrate);
                return index as u8;
            }
            index = index + 1;
        }
        assert(!table.contains(self.mpeg.bitrate));
        9
    }

    /// The header index of the sample rate within its version: 0, 1 or 2;
    /// unknown rates give 0.
    pub fn samplerate_index(&self) -> (index: u8)
        ensures
            index == match self.wave.sample_rate {
                48000u32 | 24000u32 | 12000u32 => 1u8,
                32000u32 | 16000u32 | 8000u32 => 2u8,
                _ => 0u8,
            },
    {
        match self.wave.sample_rate {
            44100 => 0,
            48000 => 1,
            32000 => 2,
            22050 => 0,
            24000 => 1,
            16000 => 2,
            11025 => 0,
            12000 => 1,
            8000 => 2,
            _ => 0,
        }
    }

    /// Accepts a bitrate available at the sample rate.
    fn validate_compatibility(&self) -> (r: Result<(), ConfigError>)
        ensures
            !is_supported_sample_rate(self.wave.sample_rate) ==> r == Err::<(), ConfigError>(
                ConfigError::UnsupportedSampleRate(self.wave.sample_rate),
            ),
            is_supported_sample_rate(self.wave.sample_rate) ==> (r is Ok <==> bitrates_for_sample_rate(self.wave.sample_rate).contains(self.mpeg.bitrate)),
            is_supported_sample_rate(self.wave.sample_rate) && r is Err ==> r == Err::<(), ConfigError>(
                ConfigError::IncompatibleRateCombination {
                    sample_rate: self.wave.sample_rate,
                    bitrate: self.mpeg.bitrate,
                },
            ),
    {
        let rate = self.wave.sample_rate;
        let ok = if rate == 44100 || rate == 48000 || rate == 32000 {
            let list: [u32; 14] = [32, 40, 48, 56, 64, 80, 96, 112, 128, 160, 192, 224, 256, 320];
            assert(list@ =~= bitrates_for_sample_rate(rate));
            list_contains(&list, self.mpeg.bitrate)
        } else if rate == 22050 || rate == 24000 || rate == 16000 {
            let list: [u32; 14] = [8, 16, 24, 32, 40, 48, 56, 64, 80, 96, 112, 128, 144, 160];
            assert(list@ =~= bitrates_for_sample_rate(rate));
            list_contains(&list, self.mpeg.bitrate)
        } else if rate == 11025 || rate == 12000 || rate == 8000 {
            let list: [u32; 8] = [8, 16, 24, 32, 40, 48, 56, 64];
            assert(list@ =~= bitrates_for_sample_rate(rate));
            list_contains(&list, self.mpeg.bitrate)
        } else {
            return Err(ConfigError::UnsupportedSampleRate(rate));
        };
        if !ok {
            return Err(
                ConfigError::IncompatibleRateCombination { sample_rate: rate, bitrate: self.mpeg.bitrate },
            );
        }
        Ok(())
    }
}

impl Default for Config {
    fn default() -> (c: Self)
        ensures
            c.wave.channels == Channels::Stereo,
            c.wave.sample_rate == 44100,
            c.mpeg.mode == StereoMode::JointStereo,
            c.mpeg.bitrate == 128,
            c.mpeg.emphasis == Emphasis::NoEmphasis,
            !c.mpeg.copyright,
            c.mpeg.original,
    {
        Self::new()
    }
}

impl Default for WaveConfig {
    fn default() -> (w: Self)
        ensures
            w.channels == Channels::Stereo,
            w.sample_rate == 44100,
    {
        WaveConfig { channels: Channels::Stereo, sample_rate: 44100 }
    }
}

impl Default for MpegConfig {
    fn default() -> (m: Self)
        ensures
            m.mode == StereoMode::JointStereo,
            m.bitrate == 128,
            m.emphasis == Emphasis::NoEmphasis,
            !m.copyright,
            m.original,
    {
        MpegConfig {
            mode: StereoMode::JointStereo,
            bitrate: 128,
            emphasis: Emphasis::NoEmphasis,
            copyright: false,
            original: true,
        }
    }
}

impl From<u8> for Channels {
    fn from(value: u8) -> (c: Self) {
        match value {
            1 => Channels::Mono,
            2 => Channels::Stereo,
            _ => Channels::Stereo,
        }
    }
}

impl vstd::std_specs::convert::FromSpecImpl<u8> for Channels {
    open spec fn obeys_from_spec() -> bool {
        true
    }

    open spec fn from_spec(value: u8) -> Channels {
        if value == 1 {
            Channels::Mono
        } else {
            Channels::Stereo
        }
    }
}

impl From<Channels> for usize {
    fn from(channels: Channels) -> (n: usize) {
        match channels {
            Channels::Mono => 1,
            Channels::Stereo => 2,
        }
    }
}

impl vstd::std_specs::convert::FromSpecImpl<Channels> for usize {
    open spec fn obeys_from_spec() -> bool {
        true
    }

    open spec fn from_spec(channels: Channels) -> usize {
        channels.spec_count() as usize
    }
}

} // verus!
