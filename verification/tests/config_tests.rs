//! Encoder configuration: conversions, validation and derived indices.

use shine_rs::config::{Channels, Config, Emphasis, MpegConfig, MpegVersion, StereoMode, WaveConfig};
use shine_rs::error::ConfigError;

#[test]
fn test_channels_conversion() {
    assert_eq!(Channels::from(1), Channels::Mono);
    assert_eq!(Channels::from(2), Channels::Stereo);
    assert_eq!(Channels::from(99), Channels::Stereo);

    assert_eq!(usize::from(Channels::Mono), 1);
    assert_eq!(usize::from(Channels::Stereo), 2);
}

fn config(channels: Channels, sample_rate: u32, mode: StereoMode, bitrate: u32) -> Config {
    Config {
        wave: WaveConfig { channels, sample_rate },
        mpeg: MpegConfig { mode, bitrate, emphasis: Emphasis::NoEmphasis, copyright: false, original: true },
    }
}

#[test]
fn default_config_is_valid_mpeg1() {
    let c = Config::default();
    assert!(c.validate().is_ok());
    assert_eq!(c.mpeg_version(), MpegVersion::Mpeg1);
    assert_eq!(c.samples_per_frame(), 1152);
    assert_eq!(c.bitrate_index(), 9);
    assert_eq!(c.samplerate_index(), 0);
}

#[test]
fn validation_reports_each_error() {
    let c = config(Channels::Stereo, 44000, StereoMode::Stereo, 128);
    assert!(matches!(c.validate(), Err(ConfigError::UnsupportedSampleRate(44000))));

    let c = config(Channels::Stereo, 44100, StereoMode::Stereo, 100);
    assert!(matches!(c.validate(), Err(ConfigError::UnsupportedBitrate(100))));

    let c = config(Channels::Mono, 44100, StereoMode::Stereo, 128);
    match c.validate() {
        Err(ConfigError::InvalidStereoMode { mode, channels }) => {
            assert_eq!(mode, "Stereo");
            assert_eq!(channels, 1);
        }
        other => panic!("unexpected {:?}", other),
    }

    let c = config(Channels::Stereo, 8000, StereoMode::Stereo, 128);
    assert!(matches!(
        c.validate(),
        Err(ConfigError::IncompatibleRateCombination { sample_rate: 8000, bitrate: 128 })
    ));
}

#[test]
fn lower_sample_rates_use_smaller_frames_and_their_tables() {
    let c = config(Channels::Mono, 24000, StereoMode::Mono, 144);
    assert!(c.validate().is_ok());
    assert_eq!(c.mpeg_version(), MpegVersion::Mpeg2);
    assert_eq!(c.samples_per_frame(), 576);
    assert_eq!(c.bitrate_index(), 13);
    assert_eq!(c.samplerate_index(), 1);

    let c = config(Channels::Mono, 8000, StereoMode::Mono, 64);
    assert_eq!(c.mpeg_version(), MpegVersion::Mpeg25);
    assert_eq!(c.bitrate_index(), 8);
    assert_eq!(c.samplerate_index(), 2);
}

#[test]
fn bitrate_missing_from_the_table_gives_index_nine() {
    let c = config(Channels::Stereo, 44100, StereoMode::Stereo, 144);
    assert_eq!(c.bitrate_index(), 9);
}

#[test]
fn stereo_mode_names_and_channel_counts() {
    assert_eq!(StereoMode::JointStereo.name(), "JointStereo");
    assert_eq!(StereoMode::DualChannel.name(), "DualChannel");
    assert_eq!(Channels::Mono.count(), 1);
    assert_eq!(Channels::Stereo.count(), 2);
}
