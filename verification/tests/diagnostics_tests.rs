//! Collecting the values of the first frames of a test case.

use shine_rs::diagnostics::{
    record_bitstream_data, record_mdct_coeff_after_aliasing, record_mdct_coeff_before_aliasing,
    record_quant_data, record_sb_sample, start_frame_collection, BitstreamData, EncodingConfig,
    Encoder, QuantizationData, TestDataCollector, TestMetadata,
};
use shine_rs::diagnostics_data;
use shine_rs::types::ShineGlobalConfig;

fn metadata() -> TestMetadata {
    TestMetadata {
        name: "case".to_string(),
        input_file: "in.wav".to_string(),
        expected_output_size: 1000,
        expected_hash: "hash".to_string(),
        created_at: "now".to_string(),
        description: "a test case".to_string(),
    }
}

fn encoding_config(channels: i32) -> EncodingConfig {
    EncodingConfig { sample_rate: 44100, channels, bitrate: 128, stereo_mode: 3, mpeg_version: 1 }
}

#[test]
fn records_values_of_the_current_frame() {
    let mut c = TestDataCollector::initialize(metadata(), encoding_config(1));
    assert_eq!(c.current_frame, 0);
    c.start_frame(1);
    c.record_mdct_coefficient_before_aliasing(16, 160);
    c.record_mdct_coefficient_before_aliasing(17, 170);
    c.record_mdct_coefficient_after_aliasing(15, -15);
    c.record_mdct_coefficient_after_aliasing(14, 99);
    c.record_l3_sb_sample(0, 5);
    c.record_l3_sb_sample(1, 6);
    c.record_quantization(1, 2, 3, 4, 5);
    c.record_bitstream(1, 3344, 418, 7);
    let f = c.get_current_frame_data().unwrap();
    assert_eq!(f.frame_number, 1);
    assert_eq!(f.mdct_coefficients.coefficients_before_aliasing, vec![170, 160, 0]);
    assert_eq!(f.mdct_coefficients.coefficients_after_aliasing, vec![0, 0, -15]);
    assert_eq!(f.mdct_coefficients.l3_sb_sample, vec![5]);
    assert_eq!(
        f.quantization,
        QuantizationData { xrmax: 1, max_bits: 2, part2_3_length: 3, quantizer_step_size: 4, global_gain: 5 }
    );
    assert_eq!(f.bitstream, BitstreamData { padding: 1, bits_per_frame: 3344, written: 418, slot_lag: 7 });
}

#[test]
fn only_the_first_six_frames_are_recorded_once_each() {
    let mut c = TestDataCollector::initialize(metadata(), encoding_config(2));
    for n in 1..=8 {
        c.start_frame(n);
        c.record_quantization(n, 0, 0, 0, 0);
    }
    c.start_frame(3);
    assert_eq!(c.test_case.frames.len(), 6);
    assert_eq!(c.get_current_frame_data().unwrap().quantization.xrmax, 3);
    c.start_frame(7);
    assert!(c.get_current_frame_data().is_none());
}

#[test]
fn free_functions_do_nothing_without_a_collection() {
    let mut none: Option<TestDataCollector> = None;
    start_frame_collection(&mut none, 1);
    record_mdct_coeff_before_aliasing(&mut none, 15, 1);
    record_mdct_coeff_after_aliasing(&mut none, 15, 1);
    record_sb_sample(&mut none, 0, 1);
    record_quant_data(&mut none, 1, 1, 1, 1, 1);
    record_bitstream_data(&mut none, 1, 1, 1, 1);
    assert!(none.is_none());

    let mut some = Some(TestDataCollector::initialize(metadata(), encoding_config(1)));
    start_frame_collection(&mut some, 2);
    record_sb_sample(&mut some, 0, 42);
    let c = some.unwrap();
    assert_eq!(c.current_frame, 2);
    assert_eq!(c.test_case.frames[0].mdct_coefficients.l3_sb_sample, vec![42]);
}

#[test]
fn encoder_parameters_and_captured_values() {
    let sc = Encoder::shine_config(&encoding_config(1));
    assert_eq!(sc.mpeg.mode, 3);
    assert_eq!(sc.mpeg.original, 1);
    assert_eq!(Encoder::shine_config(&encoding_config(2)).mpeg.mode, 1);

    let mut state = Box::new(ShineGlobalConfig::default());
    state.mpeg.granules_per_frame = 2;
    state.mean_bits = 1234;
    state.l3loop.xrmax = 77;
    state.side_info.gr[0].ch[0].tt.global_gain = 150;
    for sb in 0..3 {
        for i in 0..8 {
            state.l3_sb_sample[0][0][sb][i] = (sb * 10 + i) as i32;
        }
    }
    state.mdct_freq[0][0][17] = 17;
    state.mdct_freq[0][0][16] = 16;
    state.mdct_freq[0][0][15] = 15;
    let encoder = Encoder::from_state(state);
    let m = encoder.capture_mdct_data(None);
    assert!(m.coefficients_before_aliasing.is_empty());
    assert_eq!(m.l3_sb_sample.len(), 24);
    assert_eq!(m.l3_sb_sample[9], 11);
    let q = encoder.capture_quantization_data(None);
    assert_eq!(q.global_gain, 150);
    assert_eq!(q.max_bits, 1234);
    assert_eq!(q.xrmax, 77);

    let mut c = TestDataCollector::initialize(metadata(), encoding_config(1));
    c.start_frame(1);
    c.record_quantization(9, 9, 9, 9, 9);
    let q = encoder.capture_quantization_data(c.get_current_frame_data());
    assert_eq!(q.xrmax, 9);

    let mut state = Box::new(ShineGlobalConfig::default());
    state.mpeg.granules_per_frame = 2;
    state.mdct_freq[0][0][17] = 17;
    state.mdct_freq[0][0][16] = 16;
    state.mdct_freq[0][0][15] = 15;
    let first = diagnostics_data::Encoder::from_state(state);
    let m = first.capture_mdct_data();
    assert_eq!(m.coefficients, vec![17, 16, 15]);
    assert_eq!(m.l3_sb_sample.len(), 24);
    let empty = diagnostics_data::Encoder::from_state(Box::new(ShineGlobalConfig::default()));
    let m = empty.capture_mdct_data();
    assert!(m.coefficients.is_empty());
    assert!(m.l3_sb_sample.is_empty());
}

#[test]
fn first_form_appends_coefficients_in_order() {
    let mut c = diagnostics_data::TestDataCollector::initialize(metadata(), encoding_config(1));
    c.start_frame(1);
    c.record_mdct_coefficient(17, 1);
    c.record_mdct_coefficient(16, 2);
    c.record_mdct_coefficient(14, 3);
    c.record_l3_sb_sample(0, 4);
    c.record_quantization(5, 6, 7, 8, 9);
    c.record_bitstream(1, 2, 3, 4);
    let f = &c.test_case.frames[0];
    assert_eq!(f.mdct_coefficients.coefficients, vec![1, 2]);
    assert_eq!(f.mdct_coefficients.l3_sb_sample, vec![4]);
    assert_eq!(f.quantization.global_gain, 9);
    assert_eq!(f.bitstream.written, 3);

    let mut some = Some(c);
    diagnostics_data::start_frame_collection(&mut some, 7);
    diagnostics_data::record_mdct_coeff(&mut some, 15, 1);
    diagnostics_data::record_sb_sample(&mut some, 0, 1);
    diagnostics_data::record_quant_data(&mut some, 1, 1, 1, 1, 1);
    diagnostics_data::record_bitstream_data(&mut some, 1, 1, 1, 1);
    assert_eq!(some.unwrap().test_case.frames.len(), 1);
}

#[test]
fn frame_counter_without_collector() {
    shine_rs::reset_frame_counter();
    assert_eq!(shine_rs::get_next_frame_number(), 1);
    assert_eq!(shine_rs::get_current_frame_number(), 1);
}
