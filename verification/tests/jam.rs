use traffic_tiles::jam::jam_factor;

#[test]
fn equal_speed_is_free_flow() {
    assert_eq!(jam_factor(60, 60), 0);
    assert_eq!(jam_factor(100, 100), 0);
}

#[test]
fn zero_speed_is_full_jam() {
    assert_eq!(jam_factor(0, 60), 10);
    assert_eq!(jam_factor(0, 1), 10);
}

#[test]
fn half_speed_is_midway() {
    // normalized 0.5 gives 10 - round(5) = 5
    assert_eq!(jam_factor(30, 60), 5);
    assert_eq!(jam_factor(50, 100), 5);
}

#[test]
fn overspeed_clamps_to_zero() {
    // normalized above 1.0 must never go negative
    assert_eq!(jam_factor(90, 60), 0);
    assert_eq!(jam_factor(u32::MAX, 1), 0);
}

#[test]
fn rounding_is_half_away_from_zero() {
    // 0.55 of nominal: 5.5 tenths round to 6, score 4
    assert_eq!(jam_factor(55, 100), 4);
    // 0.45 of nominal: 4.5 tenths round to 5, score 5
    assert_eq!(jam_factor(45, 100), 5);
    // 0.05 of nominal: 0.5 tenths round to 1, score 9
    assert_eq!(jam_factor(5, 100), 9);
    // 0.94 of nominal: 9.4 tenths round to 9, score 1
    assert_eq!(jam_factor(94, 100), 1);
}
