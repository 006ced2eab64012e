//! The frame bit writer, frame formatting and the bit reservoir.

use shine_rs::bitstream::{abs_and_sign, format_bitstream, BitstreamWriter};
use shine_rs::error::{BitstreamFault, EncodingError};
use shine_rs::huffman::HuffCodeTab;
use shine_rs::mp3_analysis::{analyze_mp3_frame, FrameAnalysis};
use shine_rs::mp3_frame::{extract_bits, FrameHeader};
use shine_rs::reservoir::{
    shine_max_reservoir_bits_checked, shine_max_reservoir_bits_scaled, shine_resv_adjust, shine_resv_frame_end,
    LimitFault,
};
use shine_rs::types::{GrInfo, ShineGlobalConfig};

#[test]
fn writer_packs_bits_most_significant_first() {
    let mut bs = BitstreamWriter::new(16);
    bs.put_bits(0b101, 3).unwrap();
    bs.put_bits(0b11111, 5).unwrap();
    bs.put_bits(0xABCD, 16).unwrap();
    assert_eq!(bs.get_bits_count(), 24);
    bs.flush().unwrap();
    assert_eq!(bs.get_data(), &[0xBF, 0xAB, 0xCD]);
    assert_eq!(bs.get_bits_count(), 24);
}

#[test]
fn writer_refusals_name_the_fault_and_change_nothing() {
    let mut bs = BitstreamWriter::new(16);
    bs.put_bits(1, 1).unwrap();
    assert_eq!(
        bs.put_bits(0, 33),
        Err(EncodingError::BitstreamError(BitstreamFault::TooManyBits { n: 33 }))
    );
    assert_eq!(
        bs.put_bits(0, -1),
        Err(EncodingError::BitstreamError(BitstreamFault::NegativeBitCount { n: -1 }))
    );
    assert_eq!(
        bs.put_bits(4, 2),
        Err(EncodingError::BitstreamError(BitstreamFault::UpperBitsSet { val: 4, n: 2 }))
    );
    assert_eq!(bs.get_bits_count(), 1);
}

#[test]
fn writer_grows_its_buffer() {
    let mut bs = BitstreamWriter::new(8);
    for i in 0..10u32 {
        bs.put_bits(i, 32).unwrap();
    }
    assert_eq!(bs.get_bits_count(), 320);
    assert!(bs.data_size >= 40);
    let data = bs.get_data();
    assert_eq!(data.len(), 40);
    assert_eq!(&data[36..40], &[0, 0, 0, 9]);
}

#[test]
fn byte_align_pads_to_the_next_byte() {
    let mut bs = BitstreamWriter::new(16);
    bs.put_bits(0b1, 1).unwrap();
    bs.byte_align().unwrap();
    assert_eq!(bs.cache_bits, 32);
    assert_eq!(bs.get_data(), &[0x80]);
    assert_eq!(bs.get_bits_count(), 8);

    let mut bs = BitstreamWriter::new(1024);
    bs.put_bits(0xAB, 8).unwrap();
    bs.byte_align().unwrap();
    assert_eq!(bs.get_data(), &[0xAB]);
    assert_eq!(bs.get_bits_count(), 8);

    bs.put_bits(0x5, 3).unwrap();
    bs.byte_align().unwrap();
    assert_eq!(bs.get_data(), &[0xAB, 0xA0]);
    assert_eq!(bs.get_bits_count(), 16);
}

#[test]
fn byte_align_and_flush_on_an_aligned_stream_change_nothing() {
    let mut bs = BitstreamWriter::new(16);
    bs.put_bits(0x1234, 16).unwrap();
    bs.flush().unwrap();
    let size = bs.data_size;
    let data = bs.get_data().to_vec();
    bs.flush().unwrap();
    bs.byte_align().unwrap();
    assert_eq!(bs.get_data(), &data[..]);
    assert_eq!(bs.data_size, size);
    assert_eq!(bs.get_bits_count(), 16);
}

#[test]
fn small_writers_can_be_read() {
    for size in 0..8 {
        let bs = BitstreamWriter::new(size);
        assert_eq!(bs.get_bits_count(), 0);
        assert!(bs.get_data().is_empty());
    }
}

#[test]
fn default_writer_has_8192_bytes() {
    let bs = BitstreamWriter::default();
    assert_eq!(bs.data_size, 8192);
    assert_eq!(bs.get_bits_count(), 0);
}

#[test]
fn abs_and_sign_gives_magnitude_and_sign_bit() {
    let mut x = -7;
    assert_eq!(abs_and_sign(&mut x), 1);
    assert_eq!(x, 7);
    let mut y = 5;
    assert_eq!(abs_and_sign(&mut y), 0);
    assert_eq!(y, 5);
    let mut z = 0;
    assert_eq!(abs_and_sign(&mut z), 0);
    assert_eq!(z, 0);
}

#[test]
fn test_abs_and_sign_function() {
    for x in -1000i32..1000 {
        let mut x_copy = x;
        let sign = abs_and_sign(&mut x_copy);
        if x >= 0 {
            assert_eq!(sign, 0, "Positive numbers should have sign 0");
            assert_eq!(x_copy, x, "Positive numbers should be unchanged");
        } else {
            assert_eq!(sign, 1, "Negative numbers should have sign 1");
            assert_eq!(x_copy, -x, "Negative numbers should be negated");
        }
    }
}

fn empty_tables() -> Vec<HuffCodeTab> {
    (0..34)
        .map(|_| HuffCodeTab { xlen: 0, ylen: 0, linbits: 0, linmax: 0, hb: None, hlen: None })
        .collect()
}

fn mono_silent_frame_state() -> Box<ShineGlobalConfig> {
    let mut config = Box::new(ShineGlobalConfig::default());
    config.wave.channels = 1;
    config.wave.samplerate = 44100;
    config.mpeg.version = 3;
    config.mpeg.layer = 1;
    config.mpeg.granules_per_frame = 2;
    config.mpeg.bitrate_index = 9;
    config.mpeg.samplerate_index = 0;
    config.mpeg.mode = 3;
    config.mpeg.original = 1;
    config
}

#[test]
fn formatted_silent_mono_frame_has_header_and_side_information() {
    let mut config = mono_silent_frame_state();
    let tables = empty_tables();
    format_bitstream(&mut config, &tables).unwrap();
    assert_eq!(config.bs.get_bits_count(), 32 + 136);
    assert_eq!(config.bs.data_position, 20);
    assert_eq!(config.bs.cache_bits, 24);
    assert_eq!(
        config.bs.get_data(),
        &[0xFF, 0xFB, 0x90, 0xC4, 0, 0, 0, 0, 0x01, 0xA4, 0, 0, 0, 0, 0, 0, 0x34, 0x80, 0, 0]
    );
    assert_eq!(config.bs.cache, 0);
    config.bs.flush().unwrap();
    let data = config.bs.get_data().to_vec();
    assert_eq!(data.len(), 21);
    assert_eq!(&data[0..4], &[0xFF, 0xFB, 0x90, 0xC4]);

    let word = u32::from_be_bytes([data[0], data[1], data[2], data[3]]);
    let header = FrameHeader::from_word(word);
    assert_eq!(header.sync_word, 0xFFF);
    assert_eq!(header.layer, 1);
    assert_eq!(header.bitrate_index, 9);
    assert_eq!(header.channel_mode, 3);

    // global gain of granule 0 follows 18 + 12 + 9 bits of side information
    assert_eq!(extract_bits(&data[4..], 18 + 21, 8), 210);

    let mut padded = data.clone();
    padded.resize(32, 0);
    match analyze_mp3_frame(&padded) {
        FrameAnalysis::Analyzed(summary, granules) => {
            assert_eq!(summary.mode, 3);
            assert_eq!(summary.bitrate_index, 9);
            assert_eq!(granules.len(), 2);
            for g in granules {
                assert_eq!(g.part2_3_length, 0);
                assert_eq!(g.big_values, 0);
                assert_eq!(g.global_gain, 210);
            }
        }
        other => panic!("unexpected {:?}", other),
    }
}

#[test]
fn formatted_frame_carries_granule_stuffing_bits() {
    let mut config = mono_silent_frame_state();
    config.side_info.gr[0].ch[0].tt.part2_3_length = 10;
    let tables = empty_tables();
    format_bitstream(&mut config, &tables).unwrap();
    assert_eq!(config.bs.get_bits_count(), 32 + 136 + 10);
    config.bs.flush().unwrap();
    let data = config.bs.get_data().to_vec();
    assert_eq!(data.len(), 23);
    assert_eq!(data[21], 0xFF);
    assert_eq!(data[22], 0xC0);
    let mut padded = data.clone();
    padded.resize(32, 0);
    match analyze_mp3_frame(&padded) {
        FrameAnalysis::Analyzed(_, granules) => {
            assert_eq!(granules[0].part2_3_length, 10);
            assert_eq!(granules[1].part2_3_length, 0);
            assert_eq!(granules[0].global_gain, 210);
        }
        other => panic!("unexpected {:?}", other),
    }
}

#[test]
fn formatting_restores_spectral_signs() {
    let mut config = mono_silent_frame_state();
    config.l3_enc[0][0][5] = 3;
    config.mdct_freq[0][0][5] = -100;
    config.l3_enc[0][1][7] = 2;
    config.mdct_freq[0][1][7] = 50;
    let tables = empty_tables();
    format_bitstream(&mut config, &tables).unwrap();
    assert_eq!(config.l3_enc[0][0][5], -3);
    assert_eq!(config.l3_enc[0][1][7], 2);
}

#[test]
fn reservoir_adjust_adds_the_unused_mean_bits() {
    let mut config = Box::new(ShineGlobalConfig::default());
    config.wave.channels = 2;
    config.mean_bits = 1000;
    config.resv_size = 40;
    let mut gi = GrInfo::default();
    gi.part2_3_length = 300;
    shine_resv_adjust(&gi, &mut config);
    assert_eq!(config.resv_size, 40 + 500 - 300);
}

#[test]
fn reservoir_bits_limit() {
    let mut config = Box::new(ShineGlobalConfig::default());
    config.wave.channels = 2;
    config.mean_bits = 1000;
    config.resv_max = 0;
    assert_eq!(shine_max_reservoir_bits_scaled(800, &config), 500);
    config.resv_max = 2000;
    config.resv_size = 1000;
    assert_eq!(shine_max_reservoir_bits_scaled(800, &config), 800);
    config.mean_bits = 10000;
    assert_eq!(shine_max_reservoir_bits_scaled(800, &config), 4095);
}

#[test]
fn frame_end_keeps_reservoir_within_maximum_and_bytes() {
    let mut config = Box::new(ShineGlobalConfig::default());
    config.wave.channels = 1;
    config.mpeg.granules_per_frame = 2;
    config.resv_size = 20;
    config.resv_max = 16;
    config.side_info.gr[0].ch[0].tt.part2_3_length = 0;
    shine_resv_frame_end(&mut config);
    assert_eq!(config.resv_size, 16);
    assert_eq!(config.side_info.gr[0].ch[0].tt.part2_3_length, 4);

    let mut config = Box::new(ShineGlobalConfig::default());
    config.wave.channels = 1;
    config.mpeg.granules_per_frame = 2;
    config.resv_size = 13;
    config.resv_max = 100;
    shine_resv_frame_end(&mut config);
    assert_eq!(config.resv_size, 8);
    assert_eq!(config.side_info.gr[0].ch[0].tt.part2_3_length, 5);
}

#[test]
fn frame_end_spreads_large_stuffing_over_granules() {
    let mut config = Box::new(ShineGlobalConfig::default());
    config.wave.channels = 1;
    config.mpeg.granules_per_frame = 2;
    config.resv_size = 6000;
    config.resv_max = 0;
    config.side_info.gr[0].ch[0].tt.part2_3_length = 4000;
    config.side_info.gr[1].ch[0].tt.part2_3_length = 100;
    shine_resv_frame_end(&mut config);
    assert_eq!(config.resv_size, 0);
    assert_eq!(config.side_info.gr[0].ch[0].tt.part2_3_length, 4095);
    assert_eq!(config.side_info.gr[1].ch[0].tt.part2_3_length, 4095);
    assert_eq!(config.side_info.resv_drain, 6000 - 95 - 3995);
}

#[test]
fn frame_end_takes_the_odd_bit_into_an_empty_reservoir() {
    let mut config = Box::new(ShineGlobalConfig::default());
    config.wave.channels = 2;
    config.mpeg.granules_per_frame = 2;
    config.mean_bits = 1001;
    config.resv_size = -1;
    config.resv_max = 100;
    shine_resv_frame_end(&mut config);
    assert_eq!(config.resv_size, 0);
    assert_eq!(config.side_info.gr[0].ch[0].tt.part2_3_length, 0);
}

#[test]
fn frame_end_first_granule_plan_leaves_other_lengths_alone() {
    let mut config = Box::new(ShineGlobalConfig::default());
    config.wave.channels = 1;
    config.mpeg.granules_per_frame = 2;
    config.resv_size = 20;
    config.resv_max = 16;
    config.side_info.gr[1].ch[0].tt.part2_3_length = 5000;
    shine_resv_frame_end(&mut config);
    assert_eq!(config.resv_size, 16);
    assert_eq!(config.side_info.gr[0].ch[0].tt.part2_3_length, 4);
    assert_eq!(config.side_info.gr[1].ch[0].tt.part2_3_length, 5000);
    assert_eq!(config.side_info.resv_drain, 0);
}

#[test]
fn checked_bit_limit_reports_each_fault() {
    let mut config = Box::new(ShineGlobalConfig::default());
    config.wave.channels = 0;
    assert_eq!(shine_max_reservoir_bits_checked(800, &config), Err(LimitFault::DivisionByZero));
    config.wave.channels = -1;
    config.mean_bits = i32::MIN;
    assert_eq!(shine_max_reservoir_bits_checked(800, &config), Err(LimitFault::DivisionOverflow));
    config.wave.channels = 2;
    config.mean_bits = 1000;
    config.resv_max = 2000;
    config.resv_size = i32::MAX / 2;
    assert_eq!(shine_max_reservoir_bits_checked(800, &config), Err(LimitFault::ArithmeticOverflow));
    config.resv_size = 1000;
    assert_eq!(shine_max_reservoir_bits_checked(800, &config), Ok(800));
    assert_eq!(
        shine_max_reservoir_bits_checked(800, &config),
        Ok(shine_max_reservoir_bits_scaled(800, &config))
    );
}

#[test]
fn frame_end_needs_no_channel_limit_without_spreading() {
    let mut config = Box::new(ShineGlobalConfig::default());
    config.wave.channels = 3;
    config.mpeg.granules_per_frame = 4;
    config.resv_size = 20;
    config.resv_max = 16;
    shine_resv_frame_end(&mut config);
    assert_eq!(config.resv_size, 16);
    assert_eq!(config.side_info.gr[0].ch[0].tt.part2_3_length, 4);
}

#[test]
fn writing_no_bits_leaves_the_frame_writer_unchanged() {
    let mut bs = BitstreamWriter::new(16);
    assert!(bs.put_bits(0, 0).is_ok());
    assert_eq!(bs.cache_bits, 32);
    assert_eq!(bs.get_bits_count(), 0);
    assert!(bs.put_bits(1, 0).is_err());
}
