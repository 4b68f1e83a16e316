//! Arbitrary-precision integers are those of `num_bigint`. This file holds
//! what the library assumes of that crate: the numbers that its two integer
//! types stand for, and what the constructors and readers used here do with
//! them. None of it is proved.
use vstd::prelude::*;
use vstd::arithmetic::power2::pow2;
use num_bigint::BigInt;
use num_bigint::BigUint;
use num_bigint::Sign;
use num_traits::Zero;

verus! {

/// `num_bigint::BigUint`: nothing is seen of it but the number that it
/// holds.
#[verifier::external_type_specification]
#[verifier::external_body]
pub struct ExBigUint(BigUint);

/// `num_bigint::BigInt`: nothing is seen of it but the number that it
/// holds.
#[verifier::external_type_specification]
#[verifier::external_body]
pub struct ExBigInt(BigInt);

/// `num_bigint::Sign`, with the three variants that the crate declares:
/// `Minus`, `NoSign` and `Plus`.
#[verifier::external_type_specification]
pub struct ExSign(Sign);

/// The natural number that a `BigUint` holds.
pub uninterp spec fn biguint_value(b: BigUint) -> nat;

/// The integer that a `BigInt` holds.
pub uninterp spec fn bigint_value(b: BigInt) -> int;

/// The number written by base-2^32 digits, least significant first.
pub open spec fn limbs_value(limbs: Seq<u32>) -> nat
    decreases limbs.len(),
{
    if limbs.len() == 0 {
        0
    } else {
        limbs_value(limbs.drop_last()) + limbs.last() as nat * pow2((32 * (limbs.len() - 1)) as nat)
    }
}

/// The integer with the given sign and magnitude; `NoSign` gives zero
/// whatever the magnitude.
pub open spec fn signed_value(sign: Sign, magnitude: nat) -> int {
    match sign {
        Sign::Minus => -(magnitude as int),
        Sign::NoSign => 0,
        Sign::Plus => magnitude as int,
    }
}

/// `BigUint::new`: the number whose base-2^32 digits, least significant
/// first, are `digits`. Leading zero digits are allowed and change nothing.
#[verifier::external_body]
pub(crate) fn biguint_new(digits: Vec<u32>) -> (r: BigUint)
    ensures
        biguint_value(r) == limbs_value(digits@),
{
    BigUint::new(digits)
}

/// `<BigUint as Zero>::zero`: the number 0.
#[verifier::external_body]
pub(crate) fn biguint_zero() -> (r: BigUint)
    ensures
        biguint_value(r) == 0,
{
    BigUint::zero()
}

/// `<BigInt as Zero>::zero`: the number 0.
#[verifier::external_body]
pub(crate) fn bigint_zero() -> (r: BigInt)
    ensures
        bigint_value(r) == 0,
{
    BigInt::zero()
}

/// `BigInt::from_biguint`: the magnitude `data` with the sign `sign`, and 0
/// where the sign is `NoSign`.
#[verifier::external_body]
pub(crate) fn bigint_from_biguint(sign: Sign, data: BigUint) -> (r: BigInt)
    ensures
        bigint_value(r) == signed_value(sign, biguint_value(data)),
{
    BigInt::from_biguint(sign, data)
}

/// `<BigInt as From<i32>>::from`: the same number.
#[verifier::external_body]
pub(crate) fn bigint_from_i32(n: i32) -> (r: BigInt)
    ensures
        bigint_value(r) == n,
{
    BigInt::from(n)
}

/// `<BigInt as From<i64>>::from`: the same number.
#[verifier::external_body]
pub(crate) fn bigint_from_i64(n: i64) -> (r: BigInt)
    ensures
        bigint_value(r) == n,
{
    BigInt::from(n)
}

/// `<BigInt as PartialEq>::eq`: whether both hold the same number.
#[verifier::external_body]
pub(crate) fn bigint_eq(a: &BigInt, b: &BigInt) -> (r: bool)
    ensures
        r == (bigint_value(*a) == bigint_value(*b)),
{
    a == b
}

/// The sign of a number.
pub open spec fn sign_of_int(x: int) -> Sign {
    if x < 0 {
        Sign::Minus
    } else if x == 0 {
        Sign::NoSign
    } else {
        Sign::Plus
    }
}

/// `BigInt::to_u32_digits`: the sign of the number, and the base-2^32
/// digits of its magnitude, least significant first.
#[verifier::external_body]
pub(crate) fn bigint_to_u32_digits(b: &BigInt) -> (r: (Sign, Vec<u32>))
    ensures
        r.0 == sign_of_int(bigint_value(*b)),
        limbs_value(r.1@) == (if bigint_value(*b) < 0 {
            -bigint_value(*b)
        } else {
            bigint_value(*b)
        }),
{
    b.to_u32_digits()
}

/// The number of a sequence of limbs leaves its first limb when divided by
/// 2^32.
pub proof fn lemma_limbs_value_low(limbs: Seq<u32>)
    ensures
        limbs_value(limbs) % 0x1_0000_0000 == (if limbs.len() > 0 {
            limbs[0] as int
        } else {
            0
        }),
    decreases limbs.len(),
{
    if limbs.len() > 1 {
        let front = limbs.drop_last();
        lemma_limbs_value_low(front);
        let k = (32 * (limbs.len() - 2)) as nat;
        vstd::arithmetic::power2::lemma_pow2_adds(32, k);
        vstd::arithmetic::power2::lemma2_to64();
        let high: int = limbs.last() as int * pow2(k) as int;
        assert(limbs.last() as nat * pow2((32 * (limbs.len() - 1)) as nat) == 0x1_0000_0000 * high)
            by (nonlinear_arith)
            requires
                pow2((32 * (limbs.len() - 1)) as nat) == 0x1_0000_0000 * pow2(k),
                high == limbs.last() as int * pow2(k) as int,
        ;
        vstd::arithmetic::div_mod::lemma_mod_multiples_vanish(high, limbs_value(front) as int, 0x1_0000_0000);
    } else if limbs.len() == 1 {
        vstd::arithmetic::power2::lemma2_to64();
        assert(limbs_value(limbs.drop_last()) == 0);
        assert(pow2(0) == 1);
        assert(limbs.last() == limbs[0]);
        assert(limbs_value(limbs) == limbs[0] as nat * 1);
    }
}

} // verus!
