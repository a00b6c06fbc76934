use vex_contracts::fixed_point::{mul_div_ceil, mul_div_floor};

#[test]
fn mul_div_small_values() {
    assert_eq!(mul_div_floor(7, 3, 2), Some(10));
    assert_eq!(mul_div_ceil(7, 3, 2), Some(11));
    assert_eq!(mul_div_floor(6, 3, 2), Some(9));
    assert_eq!(mul_div_ceil(6, 3, 2), Some(9));
    assert_eq!(mul_div_floor(0, 5, 3), Some(0));
    assert_eq!(mul_div_ceil(0, 5, 3), Some(0));
}

#[test]
fn mul_div_wide_product() {
    assert_eq!(
        mul_div_floor(1u128 << 127, 3, 4),
        Some(127605887595351923798765477786913079296)
    );
    assert_eq!(
        mul_div_floor(10u128.pow(30), 10u128.pow(20), 7 * 10u128.pow(12)),
        Some(14285714285714285714285714285714285714)
    );
    assert_eq!(
        mul_div_ceil(10u128.pow(30), 10u128.pow(20), 7 * 10u128.pow(12)),
        Some(14285714285714285714285714285714285715)
    );
    assert_eq!(mul_div_floor(u128::MAX, u128::MAX, u128::MAX), Some(u128::MAX));
    assert_eq!(mul_div_ceil(u128::MAX, u128::MAX, u128::MAX), Some(u128::MAX));
}

#[test]
fn mul_div_result_too_large() {
    assert_eq!(mul_div_floor(u128::MAX, 2, 1), None);
    assert_eq!(mul_div_floor(u128::MAX, u128::MAX, u128::MAX - 1), None);
    assert_eq!(mul_div_ceil(u128::MAX, 3, 2), None);
    assert_eq!(mul_div_ceil(u128::MAX, 2, 2), Some(u128::MAX));
}
