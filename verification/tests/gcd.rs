use handouts::gcd::binary::{gcd_i128, gcd_i64, gcd_u128, gcd_u64};
use handouts::gcd::euclid::{count_coprime_pairs, gcd_euclidean, mygcd};

#[test]
fn test_gcd_u64() {
    assert_eq!(gcd_u64(0, 5), 5);
    assert_eq!(gcd_u64(5, 0), 5);
    assert_eq!(gcd_u64(12, 8), 4);
    assert_eq!(gcd_u64(48, 18), 6);
    assert_eq!(gcd_u64(17, 13), 1);
    assert_eq!(gcd_u64(100, 25), 25);
    assert_eq!(gcd_u64(1071, 462), 21);
}

#[test]
fn test_gcd_i64() {
    assert_eq!(gcd_i64(0, 5), 5);
    assert_eq!(gcd_i64(5, 0), 5);
    assert_eq!(gcd_i64(12, 8), 4);
    assert_eq!(gcd_i64(-12, 8), 4);
    assert_eq!(gcd_i64(12, -8), 4);
    assert_eq!(gcd_i64(-12, -8), 4);
    assert_eq!(gcd_i64(48, 18), 6);
    assert_eq!(gcd_i64(-48, -18), 6);
}

#[test]
fn test_gcd_u128() {
    assert_eq!(gcd_u128(0, 5), 5);
    assert_eq!(gcd_u128(5, 0), 5);
    assert_eq!(gcd_u128(12, 8), 4);
    assert_eq!(gcd_u128(1071, 462), 21);
}

#[test]
fn test_gcd_i128() {
    assert_eq!(gcd_i128(0, 5), 5);
    assert_eq!(gcd_i128(-12, 8), 4);
    assert_eq!(gcd_i128(12, -8), 4);
    assert_eq!(gcd_i128(-12, -8), 4);
}

#[test]
fn test_gcd_i64_min_with_other() {
    // gcd(MIN, 2) works: the arguments are swapped first
    assert_eq!(gcd_i64(i64::MIN, 2), 2);
}

#[test]
fn gcd_of_zero_and_zero_is_zero() {
    assert_eq!(gcd_u64(0, 0), 0);
    assert_eq!(gcd_i64(0, 0), 0);
    assert_eq!(gcd_u128(0, 0), 0);
    assert_eq!(gcd_i128(0, 0), 0);
    assert_eq!(gcd_euclidean(0u32, 0u32), 0);
}

#[test]
fn gcd_u64_takes_out_common_powers_of_two() {
    assert_eq!(gcd_u64(1 << 40, 1 << 63), 1 << 40);
    assert_eq!(gcd_u64(3 << 20, 5 << 17), 1 << 17);
    assert_eq!(gcd_u64(u64::MAX, u64::MAX), u64::MAX);
    assert_eq!(gcd_u64(u64::MAX, 1 << 63), 1);
}

#[test]
fn gcd_u128_takes_out_common_powers_of_two() {
    assert_eq!(gcd_u128(1 << 100, 1 << 127), 1 << 100);
    assert_eq!(gcd_u128(3 << 90, 5 << 70), 1 << 70);
    assert_eq!(gcd_u128(u128::MAX, u128::MAX), u128::MAX);
}

#[test]
fn gcd_i64_with_min_on_either_side() {
    assert_eq!(gcd_i64(2, i64::MIN), 2);
    assert_eq!(gcd_i64(i64::MIN, 1 << 62), 1 << 62);
    assert_eq!(gcd_i64(i64::MIN, 3), 1);
    assert_eq!(gcd_i64(i64::MAX, i64::MIN), 1);
    assert_eq!(gcd_i64(i64::MIN + 1, i64::MAX), i64::MAX);
}

#[test]
fn gcd_i128_with_min_on_either_side() {
    assert_eq!(gcd_i128(i128::MIN, 2), 2);
    assert_eq!(gcd_i128(6, i128::MIN), 2);
    assert_eq!(gcd_i128(i128::MIN, 1 << 126), 1 << 126);
    assert_eq!(gcd_i128(1071, -462), 21);
}

#[test]
fn gcd_is_symmetric_on_samples() {
    let samples: [u64; 6] = [0, 1, 12, 18, 1071, 462];
    for &a in samples.iter() {
        for &b in samples.iter() {
            assert_eq!(gcd_u64(a, b), gcd_u64(b, a));
            assert_eq!(gcd_u64(a, b), gcd_euclidean(a, b));
            assert_eq!(gcd_u64(a, b) as u128, gcd_u128(a as u128, b as u128));
        }
    }
}

#[test]
fn gcd_divides_both_arguments() {
    let g = gcd_u64(2 * 3 * 5 * 7 * 11, 3 * 7 * 13 * 17);
    assert_eq!(g, 21);
    assert_eq!((2 * 3 * 5 * 7 * 11) % g, 0);
    assert_eq!((3 * 7 * 13 * 17) % g, 0);
}

#[test]
fn gcd_euclidean_on_every_unsigned_width() {
    assert_eq!(gcd_euclidean(48u8, 18u8), 6);
    assert_eq!(gcd_euclidean(48u16, 18u16), 6);
    assert_eq!(gcd_euclidean(1071u32, 462u32), 21);
    assert_eq!(gcd_euclidean(1071u64, 462u64), 21);
    assert_eq!(gcd_euclidean(1071u128, 462u128), 21);
    assert_eq!(gcd_euclidean(1071usize, 462usize), 21);
    assert_eq!(gcd_euclidean(0u64, 7u64), 7);
    assert_eq!(gcd_euclidean(7u64, 0u64), 7);
}

#[test]
fn mygcd_keeps_the_sign_of_the_last_divisor() {
    assert_eq!(mygcd(12, 8), 4);
    assert_eq!(mygcd(8, 12), 4);
    assert_eq!(mygcd(-12, 8), -4);
    assert_eq!(mygcd(12, -8), 4);
    assert_eq!(mygcd(-12, -8), -4);
    assert_eq!(mygcd(0, -5), -5);
    assert_eq!(mygcd(-5, 0), -5);
    assert_eq!(mygcd(0, 0), 0);
    assert_eq!(mygcd(i32::MIN, 6), -2);
    assert_eq!(mygcd(6, i32::MIN), -2);
    assert_eq!(mygcd(i32::MIN, i32::MIN), i32::MIN);
}

#[test]
fn count_coprime_pairs_small_cases() {
    assert_eq!(count_coprime_pairs(-3), 0);
    assert_eq!(count_coprime_pairs(0), 0);
    assert_eq!(count_coprime_pairs(1), 1);
    assert_eq!(count_coprime_pairs(2), 3);
    assert_eq!(count_coprime_pairs(3), 7);
    assert_eq!(count_coprime_pairs(10), 63);
}

#[test]
fn count_coprime_pairs_estimates_pi() {
    let n = 300;
    let cnt = count_coprime_pairs(n);
    let prob = cnt as f64 / (n * n) as f64;
    let pi = (6.0 / prob).sqrt();
    assert!((pi - std::f64::consts::PI).abs() < 0.01);
}

#[test]
fn gcd_euclidean_on_every_signed_width() {
    assert_eq!(gcd_euclidean(48i8, 18i8), 6);
    assert_eq!(gcd_euclidean(48i16, 18i16), 6);
    assert_eq!(gcd_euclidean(1071i32, 462i32), 21);
    assert_eq!(gcd_euclidean(1071i64, 462i64), 21);
    assert_eq!(gcd_euclidean(1071i128, 462i128), 21);
    assert_eq!(gcd_euclidean(1071isize, 462isize), 21);
    assert_eq!(gcd_euclidean(0i64, 7i64), 7);
    assert_eq!(gcd_euclidean(7i64, 0i64), 7);
    assert_eq!(gcd_euclidean(0i64, 0i64), 0);
}

#[test]
fn gcd_euclidean_keeps_the_sign_of_the_last_divisor() {
    assert_eq!(gcd_euclidean(12i64, 8i64), 4);
    assert_eq!(gcd_euclidean(-12i64, 8i64), -4);
    assert_eq!(gcd_euclidean(12i64, -8i64), 4);
    assert_eq!(gcd_euclidean(-12i64, -8i64), -4);
    assert_eq!(gcd_euclidean(0i64, -5i64), -5);
    assert_eq!(gcd_euclidean(-5i64, 0i64), -5);
    for (a, b) in [(12i64, 8i64), (-12, 8), (12, -8), (-12, -8), (-1071, 462), (17, -13)] {
        assert_eq!(gcd_euclidean(a, b).unsigned_abs(), gcd_i64(a, b) as u64);
        assert_eq!(gcd_euclidean(a as i32, b as i32), mygcd(a as i32, b as i32));
    }
}

#[test]
fn gcd_euclidean_with_the_least_number() {
    assert_eq!(gcd_euclidean(i64::MIN, 6), -2);
    assert_eq!(gcd_euclidean(6, i64::MIN), -2);
    assert_eq!(gcd_euclidean(i64::MIN, i64::MIN), i64::MIN);
    assert_eq!(gcd_euclidean(i64::MIN, 0), i64::MIN);
    assert_eq!(gcd_euclidean(i64::MIN, 1), 1);
    assert_eq!(gcd_euclidean(1, i64::MIN), 1);
    assert_eq!(gcd_euclidean(-2, i64::MIN), -2);
    assert_eq!(gcd_euclidean(i8::MIN, 96), -32);
    assert_eq!(gcd_euclidean(i128::MIN, 1 << 100), 1 << 100);
}
