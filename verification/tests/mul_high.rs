use pasta_glv::arithmetic::{adc, mac};
use pasta_glv::glv::mul_high;

#[test]
fn test_mul_high() {
    let a = [1u64, 0, 0, 0];
    let b = [5u64, 0, 0, 0];
    let mut out = [0u64; 2];
    mul_high(&a, &b, 6, &mut out);
    assert_eq!(out, [0, 0]);

    let a = [u64::MAX, u64::MAX, u64::MAX, u64::MAX];
    let b = [1u64, 0, 0, 0];
    let mut out = [0u64; 2];
    mul_high(&a, &b, 6, &mut out);
    assert_eq!(out, [0, 0]);
}

#[test]
fn mul_high_skip_zero_is_full_product() {
    let a = [2u64, 0, 0, 0];
    let b = [3u64, 0, 0, 0];
    let mut out = [7u64; 8];
    mul_high(&a, &b, 0, &mut out);
    assert_eq!(out, [6, 0, 0, 0, 0, 0, 0, 0]);
}

#[test]
fn mul_high_shifts_by_limbs() {
    // 2^64 * 2^64 = 2^128, shifted right by one limb is 2^64.
    let a = [0u64, 1];
    let b = [0u64, 1, 0, 0];
    let mut out = [9u64; 5];
    mul_high(&a, &b, 1, &mut out);
    assert_eq!(out, [0, 1, 0, 0, 0]);
}

#[test]
fn mul_high_clears_unused_limbs() {
    let a = [1u64, 0, 0, 0];
    let b = [1u64, 0, 0, 0];
    let mut out = [5u64; 4];
    mul_high(&a, &b, 6, &mut out);
    assert_eq!(out, [0, 0, 0, 0]);
}

#[test]
fn mul_high_carries_column_overflow_two_limbs_up() {
    // Column 1 totals more than 2^128; its top part lands two limbs up, so the
    // result is the exact product (2^128 - 1)^2 = 2^256 - 2^129 + 1.
    let m = u64::MAX;
    let a = [m, m];
    let b = [m, m, 0, 0];
    let mut out = [0u64; 6];
    mul_high(&a, &b, 0, &mut out);
    assert_eq!(out, [1, 0, 0xffff_ffff_ffff_fffe, 0xffff_ffff_ffff_ffff, 0, 0]);
}

#[test]
fn mul_high_full_product_of_largest_values() {
    // (2^256 - 1)^2 = 2^512 - 2^257 + 1.
    let m = u64::MAX;
    let a = [m; 4];
    let b = [m; 4];
    let mut out = [0u64; 8];
    mul_high(&a, &b, 0, &mut out);
    assert_eq!(out, [1, 0, 0, 0, m - 1, m, m, m]);
}

#[test]
fn mul_high_skip_one_is_exact() {
    let m = u64::MAX;
    let a = [m; 4];
    let b = [m; 4];
    let mut out = [0u64; 7];
    mul_high(&a, &b, 1, &mut out);
    assert_eq!(out, [0, 0, 0, m - 1, m, m, m]);
}

#[test]
fn mul_high_skip_two_is_within_one() {
    // The exact high part is [0, 0, m - 1, m, m, m]; dropping column 0 costs one.
    let m = u64::MAX;
    let a = [m; 4];
    let b = [m; 4];
    let mut out = [0u64; 6];
    mul_high(&a, &b, 2, &mut out);
    assert_eq!(out, [m, m, m - 2, m, m, m]);
}

#[test]
fn mul_high_ignores_old_contents() {
    let a = [0xf61136c01d2cfb39u64, 0xffffffffffffffff, 0x7f9c7e7b29f5a341, 0xcecc8f3548e254d6];
    let b = [0xffffffffffffffffu64, 0xffffffffffffffff, 0x87374f4208b59df2, 0xfe6a7e36e8fbbabf];
    let mut out1 = [0u64; 4];
    let mut out2 = [0x1234u64, u64::MAX, 7, u64::MAX];
    mul_high(&a, &b, 5, &mut out1);
    mul_high(&a, &b, 5, &mut out2);
    assert_eq!(out1, out2);
    assert_eq!(out1[3], 0);
}

#[test]
fn mul_high_commutes_for_four_limb_factors() {
    let a = [0xf61136c01d2cfb39u64, 0xffffffffffffffff, 0x7f9c7e7b29f5a341, 0xcecc8f3548e254d6];
    let b = [0xffffffffffffffffu64, 0xffffffffffffffff, 0x87374f4208b59df2, 0xfe6a7e36e8fbbabf];
    for skip in 0..8usize {
        let mut out1 = [0u64; 8];
        let mut out2 = [0u64; 8];
        mul_high(&a, &b, skip, &mut out1);
        mul_high(&b, &a, skip, &mut out2);
        assert_eq!(out1, out2);
    }
}

#[test]
fn mul_high_drops_low_columns() {
    // g1 of Pallas times q - 1: the exact high part is 0x47afc1f319ba3400000001,
    // and the dropped columns cost one.
    let g1 = [0x7bf422ae2d81872bu64, 0xffffffffff666e35, 0xcc66e8d000000003, 0x11ebf07];
    let k = [0x8c46eb2100000000u64, 0x224698fc0994a8dd, 0, 0x4000000000000000];
    let mut out = [0u64; 2];
    mul_high(&g1, &k, 6, &mut out);
    assert_eq!(out, [0xf319ba3400000000, 0x47afc1]);
}

#[test]
fn adc_carries() {
    assert_eq!(adc(u64::MAX, 1, 0), (0, 1));
    assert_eq!(adc(u64::MAX, u64::MAX, 1), (u64::MAX, 1));
    assert_eq!(adc(2, 3, 1), (6, 0));
}

#[test]
fn mac_multiplies_and_adds() {
    assert_eq!(mac(1, 2, 3, 4), (11, 0));
    assert_eq!(mac(u64::MAX, u64::MAX, u64::MAX, u64::MAX), (u64::MAX, u64::MAX));
    assert_eq!(mac(0, 1 << 32, 1 << 32, 0), (0, 1));
}

#[test]
fn mul_high_falls_short_by_at_most_four() {
    // The exact high part is 0xcd84fcbf3437e834c41f44583e33f56e; the dropped
    // columns cost 3 here.
    let a = [0xf61136c01d2cfb39u64, 0xffffffffffffffff, 0x7f9c7e7b29f5a341, 0xcecc8f3548e254d6];
    let b = [0xffffffffffffffffu64, 0xffffffffffffffff, 0x87374f4208b59df2, 0xfe6a7e36e8fbbabf];
    let mut out = [0u64; 2];
    mul_high(&a, &b, 6, &mut out);
    assert_eq!(out, [0xc41f44583e33f56b, 0xcd84fcbf3437e834]);
}
