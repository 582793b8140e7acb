use jsondoc::number::{
    double_bits_from_i128, double_bits_from_i64, double_bits_from_single_bits,
    double_bits_from_u128, double_bits_from_u64,
};

#[test]
fn small_unsigned_integers_encode_exactly() {
    for n in 0u64..3000 {
        assert_eq!(double_bits_from_u64(n), (n as f64).to_bits(), "n = {}", n);
    }
}

#[test]
fn powers_of_two_encode_exactly() {
    for k in 0..64 {
        let n = 1u64 << k;
        assert_eq!(double_bits_from_u64(n), (n as f64).to_bits(), "k = {}", k);
        if n > 1 {
            assert_eq!(double_bits_from_u64(n - 1), ((n - 1) as f64).to_bits());
            assert_eq!(double_bits_from_u64(n + 1), ((n + 1) as f64).to_bits());
        }
    }
}

#[test]
fn large_unsigned_integers_round_to_nearest_even() {
    let cases: [u64; 8] = [
        u64::MAX,
        u64::MAX - 1,
        (1u64 << 53) + 1,
        (1u64 << 53) + 3,
        (1u64 << 54) + 2,
        (1u64 << 54) + 6,
        0xDEAD_BEEF_CAFE_F00D,
        0xFFFF_FFFF_FFFF_FC00,
    ];
    for &n in cases.iter() {
        assert_eq!(double_bits_from_u64(n), (n as f64).to_bits(), "n = {}", n);
    }
}

#[test]
fn signed_integers_encode_with_sign_bit() {
    let cases: [i64; 9] = [
        0,
        1,
        -1,
        -42,
        i64::MIN,
        i64::MAX,
        -(1i64 << 53) - 1,
        1234567890123,
        -987654321987,
    ];
    for &i in cases.iter() {
        assert_eq!(double_bits_from_i64(i), (i as f64).to_bits(), "i = {}", i);
    }
}

#[test]
fn wide_integers_encode_like_their_casts() {
    let cases: [u128; 7] = [
        0,
        1,
        u128::MAX,
        1u128 << 100,
        (1u128 << 100) + (1u128 << 60),
        u64::MAX as u128 + 1,
        0x1234_5678_9ABC_DEF0_1234_5678_9ABC_DEF0,
    ];
    for &n in cases.iter() {
        assert_eq!(double_bits_from_u128(n), (n as f64).to_bits(), "n = {}", n);
    }
    let signed: [i128; 5] = [i128::MIN, i128::MAX, -1, -(1i128 << 90) - 77, 5];
    for &i in signed.iter() {
        assert_eq!(double_bits_from_i128(i), (i as f64).to_bits(), "i = {}", i);
    }
}

#[test]
fn single_precision_widens_exactly() {
    let cases: [f32; 12] = [
        0.0,
        -0.0,
        1.5,
        440.0,
        -3.25,
        f32::MAX,
        f32::MIN_POSITIVE,
        1.0e-45,          // smallest positive subnormal
        -7.0e-42,         // negative subnormal
        f32::INFINITY,
        f32::NEG_INFINITY,
        3.1415927,
    ];
    for &f in cases.iter() {
        assert_eq!(
            double_bits_from_single_bits(f.to_bits()),
            (f as f64).to_bits(),
            "f = {}",
            f
        );
    }
}
