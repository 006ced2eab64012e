//! Frame headers, frame sizes, bit fields, frame analysis, header search,
//! hexadecimal dump lines and stream validation.

use shine_rs::mp3_analysis::{
    analyze_mp3_frame, analyze_mp3_headers, channel_mode_name, hex_dump, hex_dump_line,
    layer_name, mpeg_version_name, FrameAnalysis,
};
use shine_rs::mp3_frame::{
    calculate_frame_size, extract_bits, validate_header_fields, FrameHeader, ValidationError,
};
use shine_rs::mp3_validator::Mp3Validator;

fn header(word: u32) -> FrameHeader {
    FrameHeader::from_word(word)
}

#[test]
fn header_fields_come_from_their_bits() {
    let h = header(0xFFFB_90C4);
    assert_eq!(h.sync_word, 0xFFF);
    assert_eq!(h.mpeg_version, 1);
    assert_eq!(h.layer, 1);
    assert!(h.protection_bit);
    assert_eq!(h.bitrate_index, 9);
    assert_eq!(h.sample_rate_index, 0);
    assert!(!h.padding_bit);
    assert!(!h.private_bit);
    assert_eq!(h.channel_mode, 3);
    assert_eq!(h.mode_extension, 0);
    assert!(!h.copyright);
    assert!(h.original);
    assert_eq!(h.emphasis, 0);
}

#[test]
fn header_checks_in_order() {
    assert!(validate_header_fields(&header(0xFFFB_90C4), 7).is_ok());
    assert_eq!(
        validate_header_fields(&header(0xFFDB_90C4), 7),
        Err(ValidationError::InvalidSyncWord { position: 7, found: 0xFFD })
    );
    assert_eq!(
        validate_header_fields(&header(0xFFF3_90C4), 7),
        Err(ValidationError::InvalidMpegVersion { position: 7, bits: 0 })
    );
    assert_eq!(
        validate_header_fields(&header(0xFFFD_90C4), 7),
        Err(ValidationError::InvalidLayer { position: 7, bits: 2 })
    );
    assert_eq!(
        validate_header_fields(&header(0xFFFB_00C4), 7),
        Err(ValidationError::InvalidBitrate { position: 7, index: 0 })
    );
    assert_eq!(
        validate_header_fields(&header(0xFFFB_F0C4), 7),
        Err(ValidationError::InvalidBitrate { position: 7, index: 15 })
    );
    assert_eq!(
        validate_header_fields(&header(0xFFFB_9CC4), 7),
        Err(ValidationError::InvalidSampleRate { position: 7, index: 3 })
    );
}

fn float_frame_size(bitrate_index: u32, sample_rate_index: u32) -> usize {
    const BITRATES: [u32; 16] = [0, 32, 40, 48, 56, 64, 80, 96, 112, 128, 160, 192, 224, 256, 320, 0];
    const SAMPLE_RATES: [u32; 4] = [44100, 48000, 32000, 0];
    let bitrate = BITRATES[bitrate_index as usize];
    let sample_rate = SAMPLE_RATES[sample_rate_index as usize];
    let avg = (2.0 * 576.0 / sample_rate as f64) * (1000.0 * bitrate as f64 / 8.0);
    avg as u32 as usize
}

#[test]
fn frame_size_matches_the_floating_point_formula_everywhere() {
    for b in 0..16u32 {
        for s in 0..4u32 {
            let word = 0xFFFB_0000 | (b << 12) | (s << 10);
            assert_eq!(calculate_frame_size(&header(word)), float_frame_size(b, s), "b={} s={}", b, s);
        }
    }
    assert_eq!(calculate_frame_size(&header(0xFFFB_90C4)), 417);
    assert_eq!(calculate_frame_size(&header(0xFFFB_3800)), 215);
}

#[test]
fn extract_bits_reads_most_significant_first_and_skips_past_the_end() {
    let data = [0b1011_0011u8, 0b0101_1111];
    assert_eq!(extract_bits(&data, 0, 4), 0b1011);
    assert_eq!(extract_bits(&data, 4, 8), 0b0011_0101);
    assert_eq!(extract_bits(&data, 12, 8), 0b1111);
    assert_eq!(extract_bits(&data, 0, 0), 0);
    assert_eq!(extract_bits(&[0xFF, 0xFF, 0xFF], 0, 20), 0xFFFF);
}

#[test]
fn frame_analysis_outcomes() {
    assert!(matches!(analyze_mp3_frame(&[0u8; 10]), FrameAnalysis::TooSmall));
    match analyze_mp3_frame(&[0u8; 40]) {
        FrameAnalysis::InvalidSync(s) => assert_eq!(s, 0),
        other => panic!("unexpected {:?}", other),
    }
    let mut stereo = vec![0xFF, 0xFB, 0x90, 0x04];
    stereo.resize(33, 0);
    match analyze_mp3_frame(&stereo) {
        FrameAnalysis::SideInfoTooShort(h) => {
            assert_eq!(h.mode, 0);
            assert_eq!(h.mpeg_version, 3);
        }
        other => panic!("unexpected {:?}", other),
    }
    stereo.resize(36, 0);
    match analyze_mp3_frame(&stereo) {
        FrameAnalysis::Analyzed(h, granules) => {
            assert_eq!(h.layer, 1);
            assert!(granules.is_empty());
        }
        other => panic!("unexpected {:?}", other),
    }
}

#[test]
fn granule_fields_of_a_mono_frame() {
    let mut frame = vec![0xFF, 0xFB, 0x90, 0xC4];
    let mut side = vec![0u8; 17];
    // part2_3_length = 0xABC at bit 18, big_values = 300 at bit 30, global gain 0x7F at bit 39
    let fields: [(u32, usize, usize); 3] = [(0xABC, 18, 12), (300, 30, 9), (0x7F, 39, 8)];
    for (value, offset, width) in fields {
        for i in 0..width {
            if (value >> (width - 1 - i)) & 1 == 1 {
                let k = offset + i;
                side[k / 8] |= 0x80 >> (k % 8);
            }
        }
    }
    frame.extend_from_slice(&side);
    frame.resize(40, 0);
    match analyze_mp3_frame(&frame) {
        FrameAnalysis::Analyzed(_, granules) => {
            assert_eq!(granules[0].part2_3_length, 0xABC);
            assert_eq!(granules[0].big_values, 300);
            assert!(!granules[0].big_values_within_limit());
            assert_eq!(granules[0].global_gain, 0x7F);
            assert_eq!(granules[1].big_values, 0);
            assert!(granules[1].big_values_within_limit());
        }
        other => panic!("unexpected {:?}", other),
    }
}

#[test]
fn header_search_lists_sync_words_but_not_the_last_four_offsets() {
    let buffer = [0x00, 0xFF, 0xFB, 0x90, 0xC4, 0xFF, 0xE0, 0x00, 0x00];
    let found = analyze_mp3_headers(&buffer, 100);
    assert_eq!(found.len(), 1);
    assert_eq!(found[0].position, 101);
    assert_eq!(found[0].sync_word, 0xFFF);
    assert_eq!(found[0].layer, 1);
    assert_eq!(found[0].channel_mode, 3);
    let longer = [0x00, 0xFF, 0xFB, 0x90, 0xC4, 0xFF, 0xE0, 0x00, 0x00, 0x00];
    assert_eq!(analyze_mp3_headers(&longer, 0).len(), 2);
    assert!(analyze_mp3_headers(&[0xFF, 0xFF, 0xFF], 0).is_empty());
}

#[test]
fn field_names() {
    assert_eq!(mpeg_version_name(1), "MPEG-1");
    assert_eq!(mpeg_version_name(0), "MPEG-2/2.5");
    assert_eq!(layer_name(1), "Layer III");
    assert_eq!(layer_name(2), "Layer II");
    assert_eq!(layer_name(3), "Layer I");
    assert_eq!(layer_name(0), "Reserved");
    assert_eq!(channel_mode_name(0), "Stereo");
    assert_eq!(channel_mode_name(1), "Joint Stereo");
    assert_eq!(channel_mode_name(2), "Dual Channel");
    assert_eq!(channel_mode_name(3), "Mono");
    assert_eq!(channel_mode_name(4), "Unknown");
}

fn formatted_line(offset: u64, chunk: &[u8]) -> String {
    let mut s = format!("{:08X}: ", offset);
    for (j, b) in chunk.iter().enumerate() {
        s.push_str(&format!("{:02X} ", b));
        if j == 7 {
            s.push(' ');
        }
    }
    for j in chunk.len()..16 {
        s.push_str("   ");
        if j == 7 {
            s.push(' ');
        }
    }
    s.push_str(" |");
    for &b in chunk {
        s.push(if (32..=126).contains(&b) { b as char } else { '.' });
    }
    s.push('|');
    s
}

#[test]
fn hex_dump_lines_match_the_printed_layout() {
    let data: Vec<u8> = (0..40u8).map(|i| i.wrapping_mul(37).wrapping_add(30)).collect();
    let lines = hex_dump(&data, 0x1F0);
    assert_eq!(lines.len(), 3);
    for (i, line) in lines.iter().enumerate() {
        let start = i * 16;
        let end = (start + 16).min(data.len());
        let expected = formatted_line(0x1F0 + start as u64, &data[start..end]);
        assert_eq!(String::from_utf8(line.clone()).unwrap(), expected);
    }
    let big = hex_dump_line(0x1_2345_6789, b"AB");
    assert!(String::from_utf8(big).unwrap().starts_with("123456789: 41 42 "));
    assert!(hex_dump(&[], 0).is_empty());
}

fn frame(len: usize) -> Vec<u8> {
    let mut f = vec![0xFF, 0xFB, 0x90, 0xC4];
    f.resize(len, 0);
    f
}

#[test]
fn validator_accepts_a_stream_of_frames() {
    let mut stream = Vec::new();
    for _ in 0..3 {
        stream.extend_from_slice(&frame(417));
    }
    let mut v = Mp3Validator::new(stream, false);
    assert_eq!(v.validate(), Ok(()));
    assert_eq!(v.frame_count, 3);
}

#[test]
fn validator_skips_an_id3_tag_and_follows_padded_frames() {
    let mut stream = b"ID3\x03\x00\x00\x00\x00\x00\x05".to_vec();
    stream.extend_from_slice(&[0u8; 5]);
    stream.extend_from_slice(&frame(418));
    stream.extend_from_slice(&frame(417));
    let mut v = Mp3Validator::new(stream, false);
    assert_eq!(v.validate(), Ok(()));
    assert_eq!(v.frame_count, 2);
}

#[test]
fn validator_reports_errors() {
    let mut v = Mp3Validator::new(vec![1, 2, 3], false);
    assert_eq!(v.validate(), Err(ValidationError::InvalidFileSize(3)));

    let mut v = Mp3Validator::new(vec![0xFF; 6], false);
    assert_eq!(v.validate(), Err(ValidationError::UnexpectedEndOfFile { position: 0 }));

    let mut stream = frame(417);
    stream.extend_from_slice(&[0u8; 417]);
    let mut v = Mp3Validator::new(stream, false);
    assert_eq!(v.validate(), Err(ValidationError::InvalidSyncWord { position: 419, found: 0 }));
    assert_eq!(v.frame_count, 2);

    let mut v = Mp3Validator::new(frame(20), false);
    assert_eq!(v.validate(), Err(ValidationError::UnexpectedEndOfFile { position: 4 }));
    assert_eq!(v.frame_count, 1);
}
