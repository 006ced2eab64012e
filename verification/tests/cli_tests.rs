//! The converter's command line and the configuration it gives.

use shine_rs::cli::{conversion_config, parse_stereo_mode, parse_u32, Args, ArgsError};
use shine_rs::config::{Channels, Emphasis, StereoMode};

fn args(list: &[&str]) -> Vec<String> {
    list.iter().map(|s| s.to_string()).collect()
}

#[test]
fn defaults_to_128_kbps_joint_stereo() {
    let a = Args::parse(&args(&["wav2mp3", "in.wav", "out.mp3"])).unwrap();
    assert_eq!(a.input_file, "in.wav");
    assert_eq!(a.output_file, "out.mp3");
    assert_eq!(a.bitrate, 128);
    assert_eq!(a.stereo_mode, StereoMode::JointStereo);
}

#[test]
fn reads_bitrate_and_mode() {
    let a = Args::parse(&args(&["p", "a", "b", "192", "Dual_Channel"])).unwrap();
    assert_eq!(a.bitrate, 192);
    assert_eq!(a.stereo_mode, StereoMode::DualChannel);
    let a = Args::parse(&args(&["p", "a", "b", "+64", "MONO"])).unwrap();
    assert_eq!(a.bitrate, 64);
    assert_eq!(a.stereo_mode, StereoMode::Mono);
}

#[test]
fn argument_reading_reports_each_error() {
    match Args::parse(&args(&["wav2mp3", "in.wav"])) {
        Err(ArgsError::Usage { program }) => assert_eq!(program, "wav2mp3"),
        other => panic!("unexpected {:?}", other),
    }
    match Args::parse(&args(&["p", "a", "b", "12x"])) {
        Err(ArgsError::InvalidBitrate { text }) => assert_eq!(text, "12x"),
        other => panic!("unexpected {:?}", other),
    }
    match Args::parse(&args(&["p", "a", "b", "100"])) {
        Err(ArgsError::UnsupportedBitrate(b)) => assert_eq!(b, 100),
        other => panic!("unexpected {:?}", other),
    }
    match Args::parse(&args(&["p", "a", "b", "128", "surround"])) {
        Err(ArgsError::InvalidStereoMode { text }) => assert_eq!(text, "surround"),
        other => panic!("unexpected {:?}", other),
    }
}

#[test]
fn number_reading_agrees_with_the_standard_library() {
    let cases = [
        "0", "7", "+7", "-7", "", "+", "-", "4294967295", "4294967296", "00012", "1 2", " 1",
        "99999999999999999999", "١٢", "12a", "+-1", "0x10",
    ];
    for c in cases {
        assert_eq!(parse_u32(c), c.parse::<u32>().ok(), "{:?}", c);
    }
}

#[test]
fn stereo_mode_names_ignore_ascii_case() {
    assert_eq!(parse_stereo_mode("mono"), Some(StereoMode::Mono));
    assert_eq!(parse_stereo_mode("Stereo"), Some(StereoMode::Stereo));
    assert_eq!(parse_stereo_mode("JOINT_STEREO"), Some(StereoMode::JointStereo));
    assert_eq!(parse_stereo_mode("dual_channel"), Some(StereoMode::DualChannel));
    assert_eq!(parse_stereo_mode("dual channel"), None);
    assert_eq!(parse_stereo_mode("monoo"), None);
    for name in ["mono", "stereo", "joint_stereo", "dual_channel", "MoNo", "JOİNT_STEREO", "ＭＯＮＯ"] {
        let lowered = name.to_lowercase();
        let expected = match lowered.as_str() {
            "mono" => Some(StereoMode::Mono),
            "stereo" => Some(StereoMode::Stereo),
            "joint_stereo" => Some(StereoMode::JointStereo),
            "dual_channel" => Some(StereoMode::DualChannel),
            _ => None,
        };
        assert_eq!(parse_stereo_mode(name), expected, "{:?}", name);
    }
}

#[test]
fn configuration_for_the_input_format() {
    let a = Args::parse(&args(&["p", "a", "b", "160", "stereo"])).unwrap();
    let c = conversion_config(&a, 48000, 2);
    assert_eq!(c.wave.channels, Channels::Stereo);
    assert_eq!(c.wave.sample_rate, 48000);
    assert_eq!(c.mpeg.mode, StereoMode::Stereo);
    assert_eq!(c.mpeg.bitrate, 160);
    assert_eq!(c.mpeg.emphasis, Emphasis::NoEmphasis);
    assert!(!c.mpeg.copyright);
    assert!(c.mpeg.original);
    let c = conversion_config(&a, 32000, 1);
    assert_eq!(c.wave.channels, Channels::Mono);
    assert_eq!(c.mpeg.mode, StereoMode::Mono);
    assert!(c.validate().is_ok());
}
