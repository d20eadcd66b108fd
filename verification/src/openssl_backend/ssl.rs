//! Calls into OpenSSL's `BIGNUM` functions, through `openssl::bn`, on numbers held as a sign
//! and minimal big-endian magnitude bytes.
//!
//! Each function turns its numbers into `BigNum` values (`BigNum::from_slice` of the magnitude,
//! then `set_negative`), makes one call, and turns the result back (`is_negative`, `to_vec`).
//! `to_vec` writes the shortest bytes of the magnitude (none for zero), and OpenSSL never marks
//! zero negative, so every number returned is well formed once its bit length is within
//! [`MAX_BITS`](crate::openssl_backend::MAX_BITS), which each `requires` asks of the result.
//!
//! On the inputs that the `requires` clauses admit, these calls fail only when OpenSSL cannot
//! allocate memory; that case is outside what the contracts speak of, as it is for Rust's own
//! allocations, and the wrappers then panic. The contracts are trusted: they state what OpenSSL
//! computes.
use vstd::prelude::*;
use vstd::arithmetic::power::pow;
use vstd::arithmetic::power2::pow2;
use ::openssl::bn::{BigNum, BigNumContext};
use ::openssl::error::ErrorStack;
use crate::openssl_backend::bn::{BigNumber, fits, max_bits};
use crate::crypto::words::{abs, bit_length};
use crate::bytes::{be_value, min_bytes};
use crate::crypto::bn::bits_of;
use crate::crypto::arith::{trunc_div, trunc_rem, int_gcd};
use crate::modspec::{invertible, inverse, is_prime_int};

verus! {

/// `BN_cmp` (`Ord::cmp` on `BigNum`): -1, 0 or 1 as `a` is below, equal to or above `b`.
#[verifier::external_body]
pub(crate) fn ssl_compare(a: &BigNumber, b: &BigNumber) -> (r: i8)
    ensures
        r == (if a@ < b@ { -1int } else if a@ == b@ { 0int } else { 1int }),
{
    let mut x = BigNum::from_slice(&a.magnitude).unwrap();
    x.set_negative(a.negative);
    let mut y = BigNum::from_slice(&b.magnitude).unwrap();
    y.set_negative(b.negative);
    match x.cmp(&y) {
        core::cmp::Ordering::Less => -1,
        core::cmp::Ordering::Equal => 0,
        core::cmp::Ordering::Greater => 1,
    }
}

/// `BN_add` (`BigNumRef::checked_add`): the sum.
#[verifier::external_body]
pub(crate) fn ssl_add(a: &BigNumber, b: &BigNumber) -> (r: BigNumber)
    requires
        fits(a@ + b@),
    ensures
        r@ == a@ + b@,
{
    let mut x = BigNum::from_slice(&a.magnitude).unwrap();
    x.set_negative(a.negative);
    let mut y = BigNum::from_slice(&b.magnitude).unwrap();
    y.set_negative(b.negative);
    let mut r = BigNum::new().unwrap();
    r.checked_add(&x, &y).unwrap();
    BigNumber { negative: r.is_negative(), magnitude: r.to_vec() }
}

/// `BN_sub` (`BigNumRef::checked_sub`): the difference.
#[verifier::external_body]
pub(crate) fn ssl_sub(a: &BigNumber, b: &BigNumber) -> (r: BigNumber)
    requires
        fits(a@ - b@),
    ensures
        r@ == a@ - b@,
{
    let mut x = BigNum::from_slice(&a.magnitude).unwrap();
    x.set_negative(a.negative);
    let mut y = BigNum::from_slice(&b.magnitude).unwrap();
    y.set_negative(b.negative);
    let mut r = BigNum::new().unwrap();
    r.checked_sub(&x, &y).unwrap();
    BigNumber { negative: r.is_negative(), magnitude: r.to_vec() }
}

/// `BN_mul` (`BigNumRef::checked_mul`): the product.
#[verifier::external_body]
pub(crate) fn ssl_mul(a: &BigNumber, b: &BigNumber) -> (r: BigNumber)
    requires
        fits(a@ * b@),
    ensures
        r@ == a@ * b@,
{
    let mut x = BigNum::from_slice(&a.magnitude).unwrap();
    x.set_negative(a.negative);
    let mut y = BigNum::from_slice(&b.magnitude).unwrap();
    y.set_negative(b.negative);
    let mut r = BigNum::new().unwrap();
    r.checked_mul(&x, &y, &mut BigNumContext::new().unwrap()).unwrap();
    BigNumber { negative: r.is_negative(), magnitude: r.to_vec() }
}

/// `BN_div` (`BigNumRef::div_rem`): the quotient rounded toward zero and the remainder with
/// the dividend's sign. It fails for a zero divisor; `requires` leaves that out.
#[verifier::external_body]
pub(crate) fn ssl_div_rem(a: &BigNumber, b: &BigNumber) -> (r: (BigNumber, BigNumber))
    requires
        b@ != 0,
    ensures
        r.0@ == trunc_div(a@, b@),
        r.1@ == trunc_rem(a@, b@),
{
    let mut x = BigNum::from_slice(&a.magnitude).unwrap();
    x.set_negative(a.negative);
    let mut y = BigNum::from_slice(&b.magnitude).unwrap();
    y.set_negative(b.negative);
    let (mut q, mut m) = (BigNum::new().unwrap(), BigNum::new().unwrap());
    q.div_rem(&mut m, &x, &y, &mut BigNumContext::new().unwrap()).unwrap();
    (BigNumber { negative: q.is_negative(), magnitude: q.to_vec() },
     BigNumber { negative: m.is_negative(), magnitude: m.to_vec() })
}

/// `BN_nnmod` (`BigNumRef::nnmod`): the remainder in `0..|m|`. It fails for a zero modulus;
/// `requires` leaves that out.
#[verifier::external_body]
pub(crate) fn ssl_nnmod(a: &BigNumber, m: &BigNumber) -> (r: BigNumber)
    requires
        m@ != 0,
    ensures
        r@ == a@ % (abs(m@) as int),
{
    let mut x = BigNum::from_slice(&a.magnitude).unwrap();
    x.set_negative(a.negative);
    let mut y = BigNum::from_slice(&m.magnitude).unwrap();
    y.set_negative(m.negative);
    let mut r = BigNum::new().unwrap();
    r.nnmod(&x, &y, &mut BigNumContext::new().unwrap()).unwrap();
    BigNumber { negative: r.is_negative(), magnitude: r.to_vec() }
}

/// `BN_mod_add` (`BigNumRef::mod_add`): the sum reduced into `0..|m|`. It fails for a zero
/// modulus; `requires` leaves that out.
#[verifier::external_body]
pub(crate) fn ssl_mod_add(a: &BigNumber, b: &BigNumber, m: &BigNumber) -> (r: BigNumber)
    requires
        m@ != 0,
    ensures
        r@ == (a@ + b@) % (abs(m@) as int),
{
    let mut x = BigNum::from_slice(&a.magnitude).unwrap();
    x.set_negative(a.negative);
    let mut y = BigNum::from_slice(&b.magnitude).unwrap();
    y.set_negative(b.negative);
    let mut z = BigNum::from_slice(&m.magnitude).unwrap();
    z.set_negative(m.negative);
    let mut r = BigNum::new().unwrap();
    r.mod_add(&x, &y, &z, &mut BigNumContext::new().unwrap()).unwrap();
    BigNumber { negative: r.is_negative(), magnitude: r.to_vec() }
}

/// `BN_mod_sub` (`BigNumRef::mod_sub`): the difference reduced into `0..|m|`. It fails for a
/// zero modulus; `requires` leaves that out.
#[verifier::external_body]
pub(crate) fn ssl_mod_sub(a: &BigNumber, b: &BigNumber, m: &BigNumber) -> (r: BigNumber)
    requires
        m@ != 0,
    ensures
        r@ == (a@ - b@) % (abs(m@) as int),
{
    let mut x = BigNum::from_slice(&a.magnitude).unwrap();
    x.set_negative(a.negative);
    let mut y = BigNum::from_slice(&b.magnitude).unwrap();
    y.set_negative(b.negative);
    let mut z = BigNum::from_slice(&m.magnitude).unwrap();
    z.set_negative(m.negative);
    let mut r = BigNum::new().unwrap();
    r.mod_sub(&x, &y, &z, &mut BigNumContext::new().unwrap()).unwrap();
    BigNumber { negative: r.is_negative(), magnitude: r.to_vec() }
}

/// `BN_mod_mul` (`BigNumRef::mod_mul`): the product reduced into `0..|m|`. It fails for a
/// zero modulus; `requires` leaves that out.
#[verifier::external_body]
pub(crate) fn ssl_mod_mul(a: &BigNumber, b: &BigNumber, m: &BigNumber) -> (r: BigNumber)
    requires
        m@ != 0,
    ensures
        r@ == (a@ * b@) % (abs(m@) as int),
{
    let mut x = BigNum::from_slice(&a.magnitude).unwrap();
    x.set_negative(a.negative);
    let mut y = BigNum::from_slice(&b.magnitude).unwrap();
    y.set_negative(b.negative);
    let mut z = BigNum::from_slice(&m.magnitude).unwrap();
    z.set_negative(m.negative);
    let mut r = BigNum::new().unwrap();
    r.mod_mul(&x, &y, &z, &mut BigNumContext::new().unwrap()).unwrap();
    BigNumber { negative: r.is_negative(), magnitude: r.to_vec() }
}

/// `BN_mod_exp` (`BigNumRef::mod_exp`) on a non-negative base and exponent and a positive
/// modulus: `a^p mod m`, in `0..m`. Negative operands are left out by `requires`.
#[verifier::external_body]
pub(crate) fn ssl_mod_exp(a: &BigNumber, p: &BigNumber, m: &BigNumber) -> (r: BigNumber)
    requires
        a@ >= 0,
        p@ >= 0,
        m@ > 0,
    ensures
        r@ == pow(a@, p@ as nat) % m@,
{
    let x = BigNum::from_slice(&a.magnitude).unwrap();
    let y = BigNum::from_slice(&p.magnitude).unwrap();
    let z = BigNum::from_slice(&m.magnitude).unwrap();
    let mut r = BigNum::new().unwrap();
    r.mod_exp(&x, &y, &z, &mut BigNumContext::new().unwrap()).unwrap();
    BigNumber { negative: r.is_negative(), magnitude: r.to_vec() }
}

/// `BN_mod_inverse` (`BigNumRef::mod_inverse`) of a residue `a` in `0..n` modulo `n > 1`: the
/// inverse of `a` modulo `n` in `0..n`, or `None` where OpenSSL reports that there is none.
#[verifier::external_body]
pub(crate) fn ssl_mod_inverse(a: &BigNumber, n: &BigNumber) -> (r: Option<BigNumber>)
    requires
        0 <= a@ < n@,
        n@ > 1,
    ensures
        r is Some <==> invertible(a@, n@),
        r matches Some(v) ==> v@ == inverse(a@, n@),
{
    let x = BigNum::from_slice(&a.magnitude).unwrap();
    let y = BigNum::from_slice(&n.magnitude).unwrap();
    let mut r = BigNum::new().unwrap();
    match r.mod_inverse(&x, &y, &mut BigNumContext::new().unwrap()) {
        Ok(()) => Some(BigNumber { negative: r.is_negative(), magnitude: r.to_vec() }),
        Err(_) => None,
    }
}

/// `BN_gcd` (`BigNumRef::gcd`): the non-negative greatest common divisor.
#[verifier::external_body]
pub(crate) fn ssl_gcd(a: &BigNumber, b: &BigNumber) -> (r: BigNumber)
    ensures
        r@ == int_gcd(a@, b@),
{
    let mut x = BigNum::from_slice(&a.magnitude).unwrap();
    x.set_negative(a.negative);
    let mut y = BigNum::from_slice(&b.magnitude).unwrap();
    y.set_negative(b.negative);
    let mut r = BigNum::new().unwrap();
    r.gcd(&x, &y, &mut BigNumContext::new().unwrap()).unwrap();
    BigNumber { negative: r.is_negative(), magnitude: r.to_vec() }
}

/// `BN_num_bits` (`BigNumRef::num_bits`): the bit length of the magnitude.
#[verifier::external_body]
pub(crate) fn ssl_num_bits(a: &BigNumber) -> (r: i32)
    ensures
        r == bits_of(a@),
{
    BigNum::from_slice(&a.magnitude).unwrap().num_bits()
}

/// `BN_lshift` (`BigNumRef::lshift`): the value times `2^n`. It fails for a negative shift, and
/// for a shift that takes the value past the size that OpenSSL allocates, which the bit bound
/// in `requires` leaves out.
#[verifier::external_body]
pub(crate) fn ssl_lshift(a: &BigNumber, n: i32) -> (r: BigNumber)
    requires
        n >= 0,
        bits_of(a@) + n <= max_bits(),
    ensures
        r@ == a@ * pow2(n as nat),
{
    let mut x = BigNum::from_slice(&a.magnitude).unwrap();
    x.set_negative(a.negative);
    let mut r = BigNum::new().unwrap();
    r.lshift(&x, n).unwrap();
    BigNumber { negative: r.is_negative(), magnitude: r.to_vec() }
}

/// `BN_rshift` (`BigNumRef::rshift`): the magnitude shifted right by `n` bits with the sign
/// kept, which is the value divided by `2^n` rounded toward zero. It fails for a negative
/// shift; `requires` leaves that out.
#[verifier::external_body]
pub(crate) fn ssl_rshift(a: &BigNumber, n: i32) -> (r: BigNumber)
    requires
        n >= 0,
    ensures
        r@ == trunc_div(a@, pow2(n as nat) as int),
{
    let mut x = BigNum::from_slice(&a.magnitude).unwrap();
    x.set_negative(a.negative);
    let mut r = BigNum::new().unwrap();
    r.rshift(&x, n).unwrap();
    BigNumber { negative: r.is_negative(), magnitude: r.to_vec() }
}

/// `BN_set_bit` (`BigNumRef::set_bit`) on a non-negative value: the value with bit `n` set.
/// It fails for a negative bit index; `requires` leaves that out.
#[verifier::external_body]
pub(crate) fn ssl_set_bit(a: &BigNumber, n: i32) -> (r: BigNumber)
    requires
        a@ >= 0,
        0 <= n < max_bits(),
    ensures
        r@ == (if (a@ / (pow2(n as nat) as int)) % 2 == 1 { a@ } else { a@ + pow2(n as nat) }),
{
    let mut r = BigNum::from_slice(&a.magnitude).unwrap();
    r.set_bit(n).unwrap();
    BigNumber { negative: r.is_negative(), magnitude: r.to_vec() }
}

/// `BN_is_prime_ex` (`BigNumRef::is_prime`): a Miller-Rabin test with `checks` rounds on
/// randomly chosen bases, or OpenSSL's error. A Miller-Rabin test never refuses a prime, so a
/// prime is answered `true`; what a composite is answered rests on the bases that OpenSSL draws
/// and is not stated.
#[verifier::external_body]
pub(crate) fn ssl_is_prime(a: &BigNumber, checks: i32) -> (r: Result<bool, ErrorStack>)
    ensures
        r matches Ok(b) ==> (is_prime_int(a@) ==> b),
{
    let mut x = BigNum::from_slice(&a.magnitude).unwrap();
    x.set_negative(a.negative);
    let mut ctx = BigNumContext::new()?;
    x.is_prime(checks, &mut ctx)
}

/// `BN_generate_prime_ex` (`BigNumRef::generate_prime`): the shortest big-endian bytes of a
/// random probable prime (a safe one when `safe` holds) of at least `bits` bits, or OpenSSL's
/// error.
#[verifier::external_body]
pub(crate) fn ssl_generate_prime(bits: i32, safe: bool) -> (r: Result<Vec<u8>, ErrorStack>)
    ensures
        r matches Ok(m) ==> m@ == min_bytes(be_value(m@)) && bit_length(be_value(m@)) >= bits,
{
    let mut p = BigNum::new()?;
    p.generate_prime(bits, safe, None, None)?;
    Ok(p.to_vec())
}

} // verus!
