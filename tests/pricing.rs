use dex::{
    deposit_paired_amount, deposit_share_delta, integer_sqrt, swap_output, zap_in_swap_amount,
    zap_out_swap_amount,
};

#[test]
fn integer_sqrt_small_values() {
    assert_eq!(integer_sqrt(0), 0);
    assert_eq!(integer_sqrt(1), 1);
    assert_eq!(integer_sqrt(3), 1);
    assert_eq!(integer_sqrt(4), 2);
    assert_eq!(integer_sqrt(15), 3);
    assert_eq!(integer_sqrt(16), 4);
    assert_eq!(integer_sqrt(502500000000), 708872);
}

#[test]
fn integer_sqrt_largest_value() {
    assert_eq!(integer_sqrt(u128::MAX), u64::MAX as u128);
    assert_eq!(integer_sqrt((u64::MAX as u128) * (u64::MAX as u128)), u64::MAX as u128);
}

#[test]
fn swap_output_with_fee() {
    // 2500 / 60 = 41; 50 - 41 = 9; 9 * 997 / 1000 = 8
    assert_eq!(swap_output(50, 50, 2500, 10, 997, 1000), Some(8));
}

#[test]
fn swap_output_without_fee_is_constant_product_quote() {
    assert_eq!(swap_output(50, 50, 2500, 10, 1000, 1000), Some(9));
    assert_eq!(swap_output(1000, 4000, 4000000, 1000, 1, 1), Some(2000));
}

#[test]
fn swap_output_falls_as_fee_rises() {
    let low_fee = swap_output(1000, 4000, 4000000, 1000, 999, 1000).unwrap();
    let high_fee = swap_output(1000, 4000, 4000000, 1000, 900, 1000).unwrap();
    assert_eq!(low_fee, 1998);
    assert_eq!(high_fee, 1800);
    assert!(high_fee < low_fee);
    // Too small a gross output for the fee difference to show
    assert_eq!(swap_output(50, 50, 2500, 1, 997, 1000), swap_output(50, 50, 2500, 1, 996, 1000));
}

#[test]
fn swap_output_overflow_cases() {
    assert_eq!(swap_output(u128::MAX, 50, 2500, 1, 997, 1000), None);
    // The constant leaves less than nothing on the out side
    assert_eq!(swap_output(50, 10, 2500, 10, 997, 1000), None);
    assert_eq!(swap_output(50, u128::MAX, 0, 10, 2, 1000), None);
    assert_eq!(swap_output(50, 50, 2500, 10, 997, 0), None);
}

#[test]
fn deposit_amounts() {
    assert_eq!(deposit_share_delta(10, 50, 10000), Some(2000));
    assert_eq!(deposit_paired_amount(10, 50, 50), Some(10));
    assert_eq!(deposit_paired_amount(7, 3, 10), Some(23));
    assert_eq!(deposit_share_delta(u128::MAX, 50, 2), None);
}

#[test]
fn single_asset_formulas() {
    assert_eq!(zap_in_swap_amount(50000, 10000000), Some(658872));
    assert_eq!(zap_out_swap_amount(60000000, 1000000), Some(502101));
    assert_eq!(zap_in_swap_amount(u128::MAX, 1), None);
    assert_eq!(zap_out_swap_amount(10, 11), None);
    assert_eq!(zap_out_swap_amount(10, 10), Some(10));
}
