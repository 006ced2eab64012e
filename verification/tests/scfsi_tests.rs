//! Scale factor selection information: band boundaries, criteria and the
//! decision and condition arithmetic, and the version field of the state.

use shine_rs::types::ShineGlobalConfig;

#[test]
fn test_scfsi_constants() {
    const SCFSI_BAND_LONG: [i32; 5] = [0, 6, 11, 16, 21];
    const EN_SCFSI_BAND_KRIT: i32 = 10;
    const XM_SCFSI_BAND_KRIT: i32 = 10;

    assert_eq!(SCFSI_BAND_LONG[0], 0);
    assert_eq!(SCFSI_BAND_LONG[1], 6);
    assert_eq!(SCFSI_BAND_LONG[2], 11);
    assert_eq!(SCFSI_BAND_LONG[3], 16);
    assert_eq!(SCFSI_BAND_LONG[4], 21);

    assert_eq!(EN_SCFSI_BAND_KRIT, 10);
    assert_eq!(XM_SCFSI_BAND_KRIT, 10);
}

#[test]
fn test_scfsi_decision_logic() {
    const EN_SCFSI_BAND_KRIT: i32 = 10;
    const XM_SCFSI_BAND_KRIT: i32 = 10;

    let test_cases = [
        (5, 5, 1),
        (15, 5, 0),
        (5, 15, 0),
        (15, 15, 0),
        (10, 5, 0),
        (5, 10, 0),
    ];

    for (sum0, sum1, expected_scfsi) in test_cases.iter() {
        let scfsi = if sum0 < &EN_SCFSI_BAND_KRIT && sum1 < &XM_SCFSI_BAND_KRIT {
            1
        } else {
            0
        };
        assert_eq!(
            scfsi, *expected_scfsi,
            "SCFSI calculation failed for sum0={}, sum1={}",
            sum0, sum1
        );
    }
}

#[test]
fn test_scfsi_condition_calculation() {
    const EN_TOT_KRIT: i32 = 10;
    const EN_DIF_KRIT: i32 = 100;

    assert_eq!(EN_TOT_KRIT, 10);
    assert_eq!(EN_DIF_KRIT, 100);

    let mut condition = 0;

    let xrmaxl = [100, 200];
    for gr2 in (0..2).rev() {
        if xrmaxl[gr2] != 0 {
            condition += 1;
        }
        condition += 1;
    }

    assert_eq!(condition, 4);

    let en_tot = [50i32, 52i32];
    if (en_tot[0] - en_tot[1]).abs() < EN_TOT_KRIT {
        condition += 1;
    }
    assert_eq!(condition, 5);

    let tp = 50;
    if tp < EN_DIF_KRIT {
        condition += 1;
    }
    assert_eq!(condition, 6);

    assert_eq!(
        condition, 6,
        "Condition should equal 6 for SCFSI calculation"
    );
}

#[test]
fn test_scfsi_version_check() {
    let mut config = ShineGlobalConfig::default();

    config.mpeg.version = 3;
    config.wave.channels = 2;
    config.side_info.scfsi = [[0; 4]; 2];

    config.mpeg.version = 2;
    config.side_info.scfsi = [[1; 4]; 2];

    assert_eq!(config.mpeg.version, 2);
    assert_eq!(config.side_info.scfsi[0], [1; 4]);
}
