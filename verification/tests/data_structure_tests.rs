//! Field access on the granule and side information and the format's
//! constants.

use shine_rs::types::{GranuleInfo, ShineSideInfo, GRANULE_SIZE, MAX_CHANNELS, MAX_GRANULES};

#[test]
fn test_granule_info_field_access() {
    let mut gi = GranuleInfo::default();

    gi.big_values = 100;
    gi.global_gain = 200;
    gi.quantizer_step_size = -10;

    assert_eq!(gi.big_values, 100);
    assert_eq!(gi.global_gain, 200);
    assert_eq!(gi.quantizer_step_size, -10);
}

#[test]
fn test_shine_side_info_field_access() {
    let mut side_info = ShineSideInfo::default();

    side_info.private_bits = 0x123;
    side_info.resv_drain = -50;
    side_info.scfsi[0][0] = 1;

    assert_eq!(side_info.private_bits, 0x123);
    assert_eq!(side_info.resv_drain, -50);
    assert_eq!(side_info.scfsi[0][0], 1);
}

#[test]
fn test_constants_consistency() {
    assert_eq!(GRANULE_SIZE, 576);
    assert_eq!(MAX_CHANNELS, 2);
    assert_eq!(MAX_GRANULES, 2);
}
