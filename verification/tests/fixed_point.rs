use raycaster::fixed::{abs32, add_fixed, cell, frac, mul_fixed, narrow, ONE};

#[test]
fn one_is_two_to_the_sixteenth() {
    assert_eq!(ONE, 65536);
}

#[test]
fn cell_rounds_down() {
    assert_eq!(cell(0), 0);
    assert_eq!(cell(65535), 0);
    assert_eq!(cell(65536), 1);
    assert_eq!(cell(98304), 1);
    assert_eq!(cell(-1), -1);
    assert_eq!(cell(-65536), -1);
    assert_eq!(cell(-65537), -2);
    assert_eq!(cell(i64::MAX), 140737488355327);
    assert_eq!(cell(i64::MIN), -140737488355328);
}

#[test]
fn frac_is_offset_above_the_lower_edge() {
    assert_eq!(frac(0), 0);
    assert_eq!(frac(98304), 32768);
    assert_eq!(frac(65536), 0);
    assert_eq!(frac(-1), 65535);
    assert_eq!(frac(-65536), 0);
    assert_eq!(frac(-98304), 32768);
    assert_eq!(frac(i64::MIN), 0);
}

#[test]
fn cell_and_frac_recompose() {
    let samples: [i64; 7] = [0, 1, -1, 98304, -98304, 123456789, -987654321];
    for v in samples {
        assert_eq!(cell(v) * ONE + frac(v), v);
    }
}

#[test]
fn mul_fixed_multiplies() {
    assert_eq!(mul_fixed(98304, 131072), 196608);
    assert_eq!(mul_fixed(ONE, 12345), 12345);
    assert_eq!(mul_fixed(12345, ONE), 12345);
    assert_eq!(mul_fixed(0, i64::MAX), 0);
    assert_eq!(mul_fixed(32768, 32768), 16384);
}

#[test]
fn mul_fixed_rounds_down() {
    assert_eq!(mul_fixed(1, 1), 0);
    assert_eq!(mul_fixed(-1, 1), -1);
    assert_eq!(mul_fixed(-46341, 16384), -11586);
    assert_eq!(mul_fixed(46341, 16384), 11585);
}

#[test]
fn mul_fixed_saturates() {
    assert_eq!(mul_fixed(i64::MAX, i64::MAX), i64::MAX);
    assert_eq!(mul_fixed(i64::MIN, i64::MAX), i64::MIN);
    assert_eq!(mul_fixed(i64::MIN, i64::MIN), i64::MAX);
}

#[test]
fn add_fixed_saturates() {
    assert_eq!(add_fixed(1, 2), 3);
    assert_eq!(add_fixed(i64::MAX, 1), i64::MAX);
    assert_eq!(add_fixed(i64::MIN, -1), i64::MIN);
    assert_eq!(add_fixed(i64::MAX, i64::MIN), -1);
}

#[test]
fn narrow_stops_at_the_ends() {
    assert_eq!(narrow(0), 0);
    assert_eq!(narrow(-7), -7);
    assert_eq!(narrow(1 << 40), i32::MAX);
    assert_eq!(narrow(-(1 << 40)), i32::MIN);
    assert_eq!(narrow(i32::MAX as i64), i32::MAX);
    assert_eq!(narrow(i32::MIN as i64), i32::MIN);
}

#[test]
fn abs32_takes_magnitudes() {
    assert_eq!(abs32(0), 0);
    assert_eq!(abs32(5), 5);
    assert_eq!(abs32(-5), 5);
    assert_eq!(abs32(i32::MIN), 2147483648);
    assert_eq!(abs32(i32::MAX), 2147483647);
}
