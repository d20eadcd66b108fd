//! Calls into `num_bigint::BigInt`, `num_integer::Integer` and `glass_pumpkin` on numbers held
//! as a sign and canonical digits.
//!
//! Each function turns its numbers into `BigInt` values (`BigInt::from_biguint` of
//! `BigUint::new` of the digits), makes one call, and turns the result back
//! (`BigInt::into_parts`, `BigUint::to_u32_digits`). The digits that `to_u32_digits` hands out
//! have no zero at the top, and a `BigInt` is negative only when nonzero, so every number
//! returned is well formed. The contracts are trusted: they state what the source of those
//! crates computes.
use vstd::prelude::*;
use vstd::arithmetic::power::pow;
use vstd::arithmetic::power2::pow2;
use num_bigint::{BigInt, BigUint, Sign};
use num_integer::Integer;
use glass_pumpkin::error::Error as PrimeGenerationError;
use rand_core::Rng;
use crate::rust::bn::BigNumber;
use crate::crypto::words::abs;
use crate::crypto::bn::bits_of;
use crate::crypto::arith::{trunc_div, trunc_rem, int_gcd};
use crate::crypto::serial::serial_bytes;
use crate::bytes::be_value;
use crate::digits::radix_text;

verus! {

/// `Ord::cmp` on `BigInt`: -1, 0 or 1 as `a` is below, equal to or above `b`.
#[verifier::external_body]
pub(crate) fn big_compare(a: &BigNumber, b: &BigNumber) -> (r: i8)
    ensures
        r == (if a@ < b@ { -1int } else if a@ == b@ { 0int } else { 1int }),
{
    let x = BigInt::from_biguint(if a.negative { Sign::Minus } else { Sign::Plus }, BigUint::new(a.digits.clone()));
    let y = BigInt::from_biguint(if b.negative { Sign::Minus } else { Sign::Plus }, BigUint::new(b.digits.clone()));
    match x.cmp(&y) {
        core::cmp::Ordering::Less => -1,
        core::cmp::Ordering::Equal => 0,
        core::cmp::Ordering::Greater => 1,
    }
}

/// `Add` on `BigInt`: the sum.
#[verifier::external_body]
pub(crate) fn big_add(a: &BigNumber, b: &BigNumber) -> (r: BigNumber)
    ensures
        r@ == a@ + b@,
{
    let x = BigInt::from_biguint(if a.negative { Sign::Minus } else { Sign::Plus }, BigUint::new(a.digits.clone()));
    let y = BigInt::from_biguint(if b.negative { Sign::Minus } else { Sign::Plus }, BigUint::new(b.digits.clone()));
    let (sign, magnitude) = (x + y).into_parts();
    BigNumber { negative: sign == Sign::Minus, digits: magnitude.to_u32_digits() }
}

/// `Sub` on `BigInt`: the difference.
#[verifier::external_body]
pub(crate) fn big_sub(a: &BigNumber, b: &BigNumber) -> (r: BigNumber)
    ensures
        r@ == a@ - b@,
{
    let x = BigInt::from_biguint(if a.negative { Sign::Minus } else { Sign::Plus }, BigUint::new(a.digits.clone()));
    let y = BigInt::from_biguint(if b.negative { Sign::Minus } else { Sign::Plus }, BigUint::new(b.digits.clone()));
    let (sign, magnitude) = (x - y).into_parts();
    BigNumber { negative: sign == Sign::Minus, digits: magnitude.to_u32_digits() }
}

/// `Mul` on `BigInt`: the product.
#[verifier::external_body]
pub(crate) fn big_mul(a: &BigNumber, b: &BigNumber) -> (r: BigNumber)
    ensures
        r@ == a@ * b@,
{
    let x = BigInt::from_biguint(if a.negative { Sign::Minus } else { Sign::Plus }, BigUint::new(a.digits.clone()));
    let y = BigInt::from_biguint(if b.negative { Sign::Minus } else { Sign::Plus }, BigUint::new(b.digits.clone()));
    let (sign, magnitude) = (x * y).into_parts();
    BigNumber { negative: sign == Sign::Minus, digits: magnitude.to_u32_digits() }
}

/// `Integer::div_rem` on `BigInt`: the quotient rounded toward zero and the remainder with the
/// dividend's sign. It panics for a zero divisor; `requires` leaves that out.
#[verifier::external_body]
pub(crate) fn big_div_rem(a: &BigNumber, b: &BigNumber) -> (r: (BigNumber, BigNumber))
    requires
        b@ != 0,
    ensures
        r.0@ == trunc_div(a@, b@),
        r.1@ == trunc_rem(a@, b@),
{
    let x = BigInt::from_biguint(if a.negative { Sign::Minus } else { Sign::Plus }, BigUint::new(a.digits.clone()));
    let y = BigInt::from_biguint(if b.negative { Sign::Minus } else { Sign::Plus }, BigUint::new(b.digits.clone()));
    let (q, m) = x.div_rem(&y);
    let ((qs, qm), (ms, mm)) = (q.into_parts(), m.into_parts());
    (BigNumber { negative: qs == Sign::Minus, digits: qm.to_u32_digits() },
     BigNumber { negative: ms == Sign::Minus, digits: mm.to_u32_digits() })
}

/// `Shl<usize>` on `BigInt`: the value times `2^shift`.
#[verifier::external_body]
pub(crate) fn big_shl(a: &BigNumber, shift: usize) -> (r: BigNumber)
    ensures
        r@ == a@ * pow2(shift as nat),
{
    let x = BigInt::from_biguint(if a.negative { Sign::Minus } else { Sign::Plus }, BigUint::new(a.digits.clone()));
    let (sign, magnitude) = (x << shift).into_parts();
    BigNumber { negative: sign == Sign::Minus, digits: magnitude.to_u32_digits() }
}

/// `Shr<usize>` on `BigInt`: the value divided by `2^shift`, rounded toward negative infinity.
#[verifier::external_body]
pub(crate) fn big_shr(a: &BigNumber, shift: usize) -> (r: BigNumber)
    ensures
        r@ == a@ / (pow2(shift as nat) as int),
{
    let x = BigInt::from_biguint(if a.negative { Sign::Minus } else { Sign::Plus }, BigUint::new(a.digits.clone()));
    let (sign, magnitude) = (x >> shift).into_parts();
    BigNumber { negative: sign == Sign::Minus, digits: magnitude.to_u32_digits() }
}

/// `Integer::mod_floor` on `BigInt` with a positive modulus: the remainder in `0..m`. It panics
/// for a zero modulus; `requires` leaves that out.
#[verifier::external_body]
pub(crate) fn big_mod_floor(a: &BigNumber, m: &BigNumber) -> (r: BigNumber)
    requires
        m@ > 0,
    ensures
        r@ == a@ % m@,
{
    let x = BigInt::from_biguint(if a.negative { Sign::Minus } else { Sign::Plus }, BigUint::new(a.digits.clone()));
    let y = BigInt::from_biguint(if m.negative { Sign::Minus } else { Sign::Plus }, BigUint::new(m.digits.clone()));
    let (sign, magnitude) = x.mod_floor(&y).into_parts();
    BigNumber { negative: sign == Sign::Minus, digits: magnitude.to_u32_digits() }
}

/// `BigInt::modpow` with a non-negative exponent and a positive modulus: the power in `0..m`.
/// It panics for a negative exponent or a zero modulus; `requires` leaves them out.
#[verifier::external_body]
pub(crate) fn big_modpow(a: &BigNumber, e: &BigNumber, m: &BigNumber) -> (r: BigNumber)
    requires
        e@ >= 0,
        m@ > 0,
    ensures
        r@ == pow(a@, e@ as nat) % m@,
{
    let x = BigInt::from_biguint(if a.negative { Sign::Minus } else { Sign::Plus }, BigUint::new(a.digits.clone()));
    let y = BigInt::from_biguint(Sign::Plus, BigUint::new(e.digits.clone()));
    let z = BigInt::from_biguint(Sign::Plus, BigUint::new(m.digits.clone()));
    let (sign, magnitude) = x.modpow(&y, &z).into_parts();
    BigNumber { negative: sign == Sign::Minus, digits: magnitude.to_u32_digits() }
}

/// `Integer::gcd` on `BigInt`: the non-negative greatest common divisor.
#[verifier::external_body]
pub(crate) fn big_gcd(a: &BigNumber, b: &BigNumber) -> (r: BigNumber)
    ensures
        r@ == int_gcd(a@, b@),
{
    let x = BigInt::from_biguint(if a.negative { Sign::Minus } else { Sign::Plus }, BigUint::new(a.digits.clone()));
    let y = BigInt::from_biguint(if b.negative { Sign::Minus } else { Sign::Plus }, BigUint::new(b.digits.clone()));
    let (sign, magnitude) = x.gcd(&y).into_parts();
    BigNumber { negative: sign == Sign::Minus, digits: magnitude.to_u32_digits() }
}

/// `Integer::lcm` on `BigInt`: zero when both are zero, else `|a| / gcd * |b|`.
#[verifier::external_body]
pub(crate) fn big_lcm(a: &BigNumber, b: &BigNumber) -> (r: BigNumber)
    ensures
        a@ == 0 && b@ == 0 ==> r@ == 0,
        !(a@ == 0 && b@ == 0) ==> r@ == (abs(a@) / int_gcd(a@, b@)) * abs(b@),
{
    let x = BigInt::from_biguint(if a.negative { Sign::Minus } else { Sign::Plus }, BigUint::new(a.digits.clone()));
    let y = BigInt::from_biguint(if b.negative { Sign::Minus } else { Sign::Plus }, BigUint::new(b.digits.clone()));
    let (sign, magnitude) = x.lcm(&y).into_parts();
    BigNumber { negative: sign == Sign::Minus, digits: magnitude.to_u32_digits() }
}

/// `Integer::extended_gcd` on `BigInt`: the non-negative greatest common divisor and Bézout
/// coefficients for it.
#[verifier::external_body]
pub(crate) fn big_extended_gcd(a: &BigNumber, b: &BigNumber) -> (r: (BigNumber, BigNumber, BigNumber))
    ensures
        r.0@ == int_gcd(a@, b@),
        r.1@ * a@ + r.2@ * b@ == r.0@,
{
    let x = BigInt::from_biguint(if a.negative { Sign::Minus } else { Sign::Plus }, BigUint::new(a.digits.clone()));
    let y = BigInt::from_biguint(if b.negative { Sign::Minus } else { Sign::Plus }, BigUint::new(b.digits.clone()));
    let e = x.extended_gcd(&y);
    let ((gs, gm), (xs, xm), (ys, ym)) = (e.gcd.into_parts(), e.x.into_parts(), e.y.into_parts());
    (BigNumber { negative: gs == Sign::Minus, digits: gm.to_u32_digits() },
     BigNumber { negative: xs == Sign::Minus, digits: xm.to_u32_digits() },
     BigNumber { negative: ys == Sign::Minus, digits: ym.to_u32_digits() })
}

/// `BigInt::set_bit` with a set bit, on a non-negative value: the value with bit `bit` set.
#[verifier::external_body]
pub(crate) fn big_set_bit(a: &BigNumber, bit: u64) -> (r: BigNumber)
    requires
        a@ >= 0,
    ensures
        r@ == (if (a@ / (pow2(bit as nat) as int)) % 2 == 1 { a@ } else { a@ + pow2(bit as nat) }),
{
    let mut x = BigInt::from_biguint(Sign::Plus, BigUint::new(a.digits.clone()));
    x.set_bit(bit, true);
    let (sign, magnitude) = x.into_parts();
    BigNumber { negative: sign == Sign::Minus, digits: magnitude.to_u32_digits() }
}

/// `BigInt::bits`: the bit length of the magnitude.
#[verifier::external_body]
pub(crate) fn big_bits(a: &BigNumber) -> (r: u64)
    ensures
        r == bits_of(a@),
{
    BigUint::new(a.digits.clone()).bits()
}

/// `BigInt::from_bytes_be` with a positive sign: the value of big-endian bytes.
#[verifier::external_body]
pub(crate) fn big_from_bytes_be(bytes: &[u8]) -> (r: BigNumber)
    ensures
        r@ == be_value(bytes@),
{
    let (sign, magnitude) = BigInt::from_bytes_be(Sign::Plus, bytes).into_parts();
    BigNumber { negative: sign == Sign::Minus, digits: magnitude.to_u32_digits() }
}

/// `BigInt::to_bytes_be`, sign dropped: the shortest big-endian bytes of the magnitude, and a
/// single zero byte for zero.
#[verifier::external_body]
pub(crate) fn big_to_bytes_be(a: &BigNumber) -> (r: Vec<u8>)
    ensures
        r@ == serial_bytes(a@),
{
    BigInt::from_biguint(if a.negative { Sign::Minus } else { Sign::Plus }, BigUint::new(a.digits.clone())).to_bytes_be().1
}

/// `BigInt::to_str_radix`: `-` for a negative value, then the lower-case digits of the
/// magnitude without leading zeros. It panics outside `2..=36`; `requires` leaves that out.
#[verifier::external_body]
pub(crate) fn big_to_str_radix(a: &BigNumber, radix: u32) -> (r: String)
    requires
        2 <= radix <= 36,
    ensures
        r@ == (if a@ < 0 { seq!['-'] } else { Seq::<char>::empty() }) + radix_text(abs(a@), radix as nat, false),
{
    BigInt::from_biguint(if a.negative { Sign::Minus } else { Sign::Plus }, BigUint::new(a.digits.clone())).to_str_radix(radix)
}

/// The answer of `glass_pumpkin::prime::strong_check_with` (a Baillie-PSW test with fixed
/// bases, which does not draw from its generator) for a non-negative value. A function of the
/// value alone.
pub uninterp spec fn glass_pumpkin_strong_check(n: int) -> bool;

/// `glass_pumpkin::prime::strong_check_with` on the magnitude.
#[verifier::external_body]
pub(crate) fn big_strong_check(a: &BigNumber, rng: &mut rand::rngs::StdRng) -> (r: bool)
    requires
        a@ >= 0,
    ensures
        r == glass_pumpkin_strong_check(a@),
{
    glass_pumpkin::prime::strong_check_with(&BigUint::new(a.digits.clone()), rng)
}

/// `glass_pumpkin::prime::from_rng`: a random probable prime of exactly `bits` bits; an error
/// below 128 bits and none from 128 bits on (the generator it draws from cannot fail). The
/// candidate has its lowest bit set and is returned only after it passes the small-prime sieve
/// and the Baillie-PSW test, which are what `strong_check_with` runs on it.
#[verifier::external_body]
pub(crate) fn big_random_prime(bits: usize, rng: &mut rand::rngs::StdRng) -> (r: Result<BigNumber, PrimeGenerationError>)
    ensures
        bits < 128 ==> r is Err,
        bits >= 128 ==> r is Ok,
        r matches Ok(p) ==> p@ > 0 && bits_of(p@) == bits,
        r matches Ok(p) ==> p@ % 2 == 1 && glass_pumpkin_strong_check(p@),
{
    glass_pumpkin::prime::from_rng(bits, rng).map(|p| BigNumber { negative: false, digits: p.to_u32_digits() })
}

/// `glass_pumpkin::safe_prime::from_rng`: a random probable safe prime of exactly `bits` bits;
/// an error below 128 bits and none from 128 bits on (the generator it draws from cannot fail).
/// The prime `2q + 1` has its lowest bit set and is returned only after it passes the
/// small-prime sieve, the base-two Miller-Rabin test and the strong Lucas test, which are what
/// `prime::strong_check_with` runs on it.
#[verifier::external_body]
pub(crate) fn big_random_safe_prime(bits: usize, rng: &mut rand::rngs::StdRng) -> (r: Result<BigNumber, PrimeGenerationError>)
    ensures
        bits < 128 ==> r is Err,
        bits >= 128 ==> r is Ok,
        r matches Ok(p) ==> p@ > 0 && bits_of(p@) == bits,
        r matches Ok(p) ==> p@ % 2 == 1 && glass_pumpkin_strong_check(p@),
{
    glass_pumpkin::safe_prime::from_rng(bits, rng).map(|p| BigNumber { negative: false, digits: p.to_u32_digits() })
}

/// `rand_core::Rng::fill_bytes`: overwrites the buffer with random bytes. Nothing is stated of
/// the bytes.
#[verifier::external_body]
pub(crate) fn fill_random(rng: &mut rand::rngs::StdRng, buffer: &mut [u8])
    ensures
        final(buffer)@.len() == old(buffer)@.len(),
{
    rng.fill_bytes(buffer);
}

} // verus!
