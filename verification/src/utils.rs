//! Rebuilding an integer from CPython's 15-bit digits.
use vstd::prelude::*;
use vstd::arithmetic::power2::pow2;
use num_bigint::BigUint;
use num_bigint::Sign;
use vstd::arithmetic::power2::{lemma2_to64, lemma_pow2_adds, lemma_pow2_strictly_increases};
use vstd::bits::lemma_u64_shl_is_mul;
use vstd::std_specs::bits::{axiom_u16_leading_zeros, u16_leading_zeros};
use crate::bigint::{biguint_new, biguint_value, biguint_zero, limbs_value, sign_of_int};

verus! {

/// The number written by 15-bit digits, least significant first.
pub open spec fn digits_value(digits: Seq<u16>) -> nat
    decreases digits.len(),
{
    if digits.len() == 0 {
        0
    } else {
        digits_value(digits.drop_last()) + digits.last() as nat * pow2((15 * (digits.len() - 1)) as nat)
    }
}

/// Whether every digit fits in 15 bits and the last one, if any, is not 0.
pub open spec fn normalized_digits(digits: Seq<u16>) -> bool {
    &&& forall|i: int| 0 <= i < digits.len() ==> digits[i] < 0x8000
    &&& digits.len() > 0 ==> digits.last() != 0
}

/// The sign of `x`.
pub fn sign_of(x: &i32) -> (r: Sign)
    ensures
        r == sign_of_int(*x as int),
{
    if *x < 0 {
        Sign::Minus
    } else if *x == 0 {
        Sign::NoSign
    } else {
        Sign::Plus
    }
}

/// Appending a digit adds it at the next power of 2^15.
pub proof fn lemma_digits_value_push(digits: Seq<u16>, d: u16)
    ensures
        digits_value(digits.push(d)) == digits_value(digits) + d as nat * pow2((15 * digits.len()) as nat),
{
    assert(digits.push(d).drop_last() =~= digits);
}

/// Appending a limb adds it at the next power of 2^32.
pub proof fn lemma_limbs_value_push(limbs: Seq<u32>, x: u32)
    ensures
        limbs_value(limbs.push(x)) == limbs_value(limbs) + x as nat * pow2((32 * limbs.len()) as nat),
{
    assert(limbs.push(x).drop_last() =~= limbs);
}

/// A window below 2^`shift` takes a digit at bit `shift` by a plain sum.
proof fn lemma_window_take(accum: u64, digit: u16, shift: u8, width: u8)
    requires
        shift < 32,
        1 <= width <= 15,
        accum < (1u64 << shift),
        digit < (1u16 << width),
    ensures
        (accum | ((digit as u64) << shift)) == accum + digit as nat * pow2(shift as nat),
        (accum | ((digit as u64) << shift)) < (1u64 << ((shift + width) as u8)),
{
    let wide: u64 = digit as u64;
    assert(wide < (1u64 << width)) by (bit_vector)
        requires
            wide == digit as u64,
            digit < (1u16 << width),
            1 <= width <= 15,
    ;
    assert((accum | (wide << shift)) == accum + (wide << shift) && (accum | (wide << shift)) < (1u64
        << ((shift + width) as u8))) by (bit_vector)
        requires
            shift < 32,
            1 <= width <= 15,
            accum < (1u64 << shift),
            wide < (1u64 << width),
    ;
    lemma2_to64();
    lemma_pow2_strictly_increases(shift as nat, 32);
    let scale: nat = pow2(shift as nat);
    assert(wide * scale <= u64::MAX) by (nonlinear_arith)
        requires
            wide < 0x1_0000,
            scale < 0x1_0000_0000,
    ;
    lemma_u64_shl_is_mul(wide, shift as u64);
}

/// The low 32 bits of a window leave as one limb; the rest moves down.
proof fn lemma_window_emit(accum: u64, bits: u8)
    requires
        32 <= bits < 64,
        accum < (1u64 << bits),
    ensures
        accum == (accum as u32) as nat + (accum >> 32) as nat * 0x1_0000_0000,
        (accum >> 32) < (1u64 << ((bits - 32) as u8)),
{
    assert(accum == ((accum as u32) as u64) + (accum >> 32) * 0x1_0000_0000 && (accum >> 32) < (1u64
        << ((bits - 32) as u8))) by (bit_vector)
        requires
            32 <= bits < 64,
            accum < (1u64 << bits),
    ;
}

/// The number that CPython's digits stand for: 15 bits each, least
/// significant first. The last digit must not be 0.
pub fn biguint_from_pylong_digits(digits: &[u16]) -> (r: BigUint)
    requires
        normalized_digits(digits@),
    ensures
        biguint_value(r) == digits_value(digits@),
{
    if digits.len() == 0 {
        return biguint_zero();
    }
    let n: usize = digits.len();
    let mut accum: u64 = 0;
    let mut accumbits: u8 = 0;
    let mut p: Vec<u32> = Vec::new();
    let mut i: usize = 0;
    proof {
        lemma2_to64();
        assert(digits@.take(0) =~= Seq::<u16>::empty());
        assert(0u64 < (1u64 << 0u8)) by (bit_vector);
    }
    while i < n
        invariant
            n == digits.len(),
            normalized_digits(digits@),
            i <= n,
            accumbits < 32,
            accum < (1u64 << accumbits),
            i < n ==> 32 * p.len() + accumbits == 15 * i,
            limbs_value(p@) + accum as nat * pow2((32 * p.len()) as nat) == digits_value(
                digits@.take(i as int),
            ),
        decreases n - i,
    {
        let thisdigit: u16 = digits[i];
        let width: u8 = if i == n - 1 {
            proof {
                axiom_u16_leading_zeros(thisdigit);
                let z: u32 = u16_leading_zeros(thisdigit);
                assert(1 <= z <= 15 && thisdigit < (1u16 << ((16 - z) as u8))) by (bit_vector)
                    requires
                        z <= 16,
                        thisdigit != 0,
                        thisdigit < 0x8000,
                        (thisdigit == 0) == (z == 16),
                        z < 16 ==> (thisdigit >> ((15 - z) as u16)) & 1u16 != 0u16,
                        thisdigit >> ((16 - z) as u16) == 0,
                ;
            }
            16 - (thisdigit.leading_zeros() as u8)
        } else {
            assert(thisdigit < (1u16 << 15u8)) by (bit_vector)
                requires
                    thisdigit < 0x8000,
            ;
            15
        };
        proof {
            lemma_window_take(accum, thisdigit, accumbits, width);
            lemma_digits_value_push(digits@.take(i as int), thisdigit);
            assert(digits@.take(i as int).push(thisdigit) =~= digits@.take(i + 1));
            lemma_pow2_adds(accumbits as nat, (32 * p.len()) as nat);
            let a: nat = accum as nat;
            let d: nat = thisdigit as nat;
            let s: nat = pow2(accumbits as nat);
            let t: nat = pow2((32 * p.len()) as nat);
            assert((a + d * s) * t == a * t + d * (s * t)) by (nonlinear_arith);
        }
        accum = accum | ((thisdigit as u64) << accumbits);
        accumbits = accumbits + width;
        while accumbits >= 32
            invariant
                accumbits < 64,
                accum < (1u64 << accumbits),
                limbs_value(p@) + accum as nat * pow2((32 * p.len()) as nat) == digits_value(
                    digits@.take(i + 1),
                ),
                i + 1 < n ==> 32 * p.len() + accumbits == 15 * (i + 1),
            decreases accumbits,
        {
            proof {
                lemma_window_emit(accum, accumbits);
                lemma_limbs_value_push(p@, accum as u32);
                lemma_pow2_adds(32, (32 * p.len()) as nat);
                lemma2_to64();
                let lo: nat = (accum as u32) as nat;
                let hi: nat = (accum >> 32) as nat;
                let t: nat = pow2((32 * p.len()) as nat);
                assert((lo + hi * 0x1_0000_0000) * t == lo * t + hi * (0x1_0000_0000 * t))
                    by (nonlinear_arith);
            }
            p.push(accum as u32);
            accumbits = accumbits - 32;
            accum = accum >> 32;
        }
        i = i + 1;
    }
    assert(digits@.take(n as int) =~= digits@);
    if accumbits > 0 {
        proof {
            lemma_limbs_value_push(p@, accum as u32);
            assert(accum == (accum as u32) as u64) by (bit_vector)
                requires
                    accumbits < 32,
                    accum < (1u64 << accumbits),
            ;
        }
        p.push(accum as u32);
    } else {
        assert(accum == 0) by (bit_vector)
            requires
                accumbits == 0,
                accum < (1u64 << accumbits),
        ;
    }
    biguint_new(p)
}

} // verus!
