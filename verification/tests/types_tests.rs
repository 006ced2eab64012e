//! Array dimensions of the encoder state and the format's constants.

use shine_rs::types::{
    swab32, GrInfo, L3Loop, ShineGlobalConfig, ShineSideInfo, GRANULE_SIZE, MAX_CHANNELS, MAX_GRANULES,
    SBLIMIT,
};
use std::mem;

#[test]
fn test_array_bounds() {
    let config = Box::new(ShineGlobalConfig::default());

    assert_eq!(config.l3_enc.len(), MAX_CHANNELS, "L3 enc should have MAX_CHANNELS");
    assert_eq!(config.l3_enc[0].len(), MAX_GRANULES, "L3 enc should have MAX_GRANULES");
    assert_eq!(config.l3_enc[0][0].len(), GRANULE_SIZE, "L3 enc should have GRANULE_SIZE");

    assert_eq!(config.mdct_freq.len(), MAX_CHANNELS, "MDCT freq should have MAX_CHANNELS");
    assert_eq!(config.mdct_freq[0].len(), MAX_GRANULES, "MDCT freq should have MAX_GRANULES");
    assert_eq!(config.mdct_freq[0][0].len(), GRANULE_SIZE, "MDCT freq should have GRANULE_SIZE");

    assert_eq!(config.scalefactor.l.len(), MAX_GRANULES, "Scalefactor should have MAX_GRANULES");
    assert_eq!(config.scalefactor.l[0].len(), MAX_CHANNELS, "Scalefactor should have MAX_CHANNELS");
    assert_eq!(config.scalefactor.l[0][0].len(), 22, "Scalefactor should have 22 bands");
}

#[test]
fn test_mp3_standard_compliance() {
    assert_eq!(GRANULE_SIZE, 576, "MP3 Layer III requires 576 samples per granule");
    assert_eq!(MAX_CHANNELS, 2, "MP3 supports maximum 2 channels");
    assert_eq!(SBLIMIT, 32, "MP3 Layer III uses 32 subbands");
    let gr_info = GrInfo::default();
    assert!(gr_info.big_values <= (GRANULE_SIZE / 2) as u32, "big_values should not exceed granule limit");
}

#[test]
fn default_state_is_zeroed_with_default_granules() {
    let config = Box::new(ShineGlobalConfig::default());
    assert_eq!(config.mean_bits, 0);
    assert_eq!(config.resv_size, 0);
    assert_eq!(config.resv_max, 0);
    assert_eq!(config.side_info.gr[1].ch[1].tt.global_gain, 210);
    assert_eq!(config.bs.data_size, 8192);
    assert_eq!(config.bs.cache_bits, 32);
}

#[test]
fn test_swab32_function() {
    assert_eq!(swab32(0x12345678), 0x78563412, "Should swap bytes correctly");
    assert_eq!(swab32(0x00000000), 0x00000000, "Zero should remain zero");
    assert_eq!(swab32(0xFFFFFFFF), 0xFFFFFFFF, "All ones should remain all ones");
    assert_eq!(swab32(0x12000000), 0x00000012, "Should handle partial bytes");
}

#[test]
fn test_structure_sizes() {
    assert!(mem::size_of::<GrInfo>() > 0, "GrInfo should have non-zero size");
    assert!(mem::size_of::<ShineSideInfo>() > 0, "ShineSideInfo should have non-zero size");
    assert!(mem::size_of::<L3Loop>() > 0, "L3Loop should have non-zero size");
    assert!(mem::size_of::<ShineGlobalConfig>() > 0, "ShineGlobalConfig should have non-zero size");
    assert!(mem::size_of::<ShineGlobalConfig>() < 1024 * 1024, "Config should not be too large");
}
