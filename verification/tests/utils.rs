use num_bigint::{BigUint, Sign};
use py_marshal::utils::{biguint_from_pylong_digits, sign_of};

#[test]
fn test_biguint_from_pylong_digits() {
    assert_eq!(
        biguint_from_pylong_digits(&[
            0b000_1101_1100_0100,
            0b110_1101_0010_0100,
            0b001_0000_1001_1101
        ]),
        BigUint::from(0b001_0000_1001_1101_110_1101_0010_0100_000_1101_1100_0100_u64)
    );
}

#[test]
fn biguint_from_no_digits_is_zero() {
    assert_eq!(biguint_from_pylong_digits(&[]), BigUint::from(0u32));
}

#[test]
fn biguint_from_one_digit() {
    assert_eq!(biguint_from_pylong_digits(&[1]), BigUint::from(1u32));
    assert_eq!(biguint_from_pylong_digits(&[0x7fff]), BigUint::from(0x7fffu32));
}

#[test]
fn biguint_from_digits_across_limbs() {
    // 2^15 and 2^30: the second and the third digit.
    assert_eq!(biguint_from_pylong_digits(&[0, 1]), BigUint::from(1u64 << 15));
    assert_eq!(biguint_from_pylong_digits(&[0, 0, 1]), BigUint::from(1u64 << 30));
    // 2^45 lies in the second 32-bit limb.
    assert_eq!(biguint_from_pylong_digits(&[0, 0, 0, 1]), BigUint::from(1u64 << 45));
    // Five full digits: 2^75 - 1.
    assert_eq!(
        biguint_from_pylong_digits(&[0x7fff, 0x7fff, 0x7fff, 0x7fff, 0x7fff]),
        (BigUint::from(1u32) << 75usize) - BigUint::from(1u32)
    );
}

#[test]
fn sign_of_each_sign() {
    assert_eq!(sign_of(&-5), Sign::Minus);
    assert_eq!(sign_of(&0), Sign::NoSign);
    assert_eq!(sign_of(&7), Sign::Plus);
    assert_eq!(sign_of(&i32::MIN), Sign::Minus);
    assert_eq!(sign_of(&i32::MAX), Sign::Plus);
}
