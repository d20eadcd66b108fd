//! Arithmetic of the OpenSSL backend: OpenSSL computes, and the modular operations reduce
//! modulo the magnitude of the modulus and give zero for a zero modulus.
use vstd::prelude::*;
use vstd::arithmetic::power::pow;
use vstd::arithmetic::power2::pow2;
use vstd::arithmetic::div_mod::{lemma_mod_bound, lemma_small_mod};
use crate::openssl_backend::bn::{BigNumber, fits, max_bits};
use crate::openssl_backend::ssl::{
    ssl_add, ssl_sub, ssl_mul, ssl_div_rem, ssl_nnmod, ssl_mod_add, ssl_mod_sub, ssl_mod_mul,
    ssl_mod_exp, ssl_mod_inverse, ssl_gcd, ssl_num_bits, ssl_lshift, ssl_rshift,
};
use crate::crypto::words::abs;
use crate::crypto::bn::bits_of;
use crate::crypto::arith::{trunc_div, trunc_rem, int_gcd};
use crate::modspec::{reduce, modpow_value, invertible, inverse, lemma_zero_not_invertible};

verus! {

impl BigNumber {
    /// Compute `self + rhs`.
    pub fn add(&self, rhs: &Self) -> (r: Self)
        requires
            fits(self@ + rhs@),
        ensures
            r@ == self@ + rhs@,
    {
        ssl_add(self, rhs)
    }

    /// Compute `self - rhs`.
    pub fn sub(&self, rhs: &Self) -> (r: Self)
        requires
            fits(self@ - rhs@),
        ensures
            r@ == self@ - rhs@,
    {
        ssl_sub(self, rhs)
    }

    /// Compute `self * rhs`.
    pub fn mul(&self, rhs: &Self) -> (r: Self)
        requires
            fits(self@ * rhs@),
        ensures
            r@ == self@ * rhs@,
    {
        ssl_mul(self, rhs)
    }

    /// Simultaneous integer division and modulus: the quotient rounded toward zero and the
    /// remainder with the dividend's sign.
    pub fn div_rem(&self, other: &Self) -> (r: (Self, Self))
        requires
            other@ != 0,
        ensures
            r.0@ == trunc_div(self@, other@),
            r.1@ == trunc_rem(self@, other@),
    {
        ssl_div_rem(self, other)
    }

    /// Compute `self / other`, rounded toward zero.
    pub fn div(&self, other: &Self) -> (r: Self)
        requires
            other@ != 0,
        ensures
            r@ == trunc_div(self@, other@),
    {
        let (q, _) = ssl_div_rem(self, other);
        q
    }

    /// Compute `self % other`, with the sign of `self`.
    pub fn rem(&self, other: &Self) -> (r: Self)
        requires
            other@ != 0,
        ensures
            r@ == trunc_rem(self@, other@),
    {
        let (_, m) = ssl_div_rem(self, other);
        m
    }

    /// Compute `self << shift`.
    pub fn shl(&self, shift: u32) -> (r: Self)
        requires
            bits_of(self@) + shift <= max_bits(),
        ensures
            r@ == self@ * pow2(shift as nat),
    {
        ssl_lshift(self, shift as i32)
    }

    /// Compute `self >> shift`: the magnitude shifted with the sign kept, which rounds toward
    /// zero.
    pub fn shr(&self, shift: u32) -> (r: Self)
        requires
            shift <= i32::MAX,
        ensures
            r@ == trunc_div(self@, pow2(shift as nat) as int),
    {
        ssl_rshift(self, shift as i32)
    }

    /// Return the bit length
    pub fn bit_length(&self) -> (r: usize)
        ensures
            r == bits_of(self@),
    {
        let bits = ssl_num_bits(self);
        bits as usize
    }

    /// Compute the greatest common divisor
    pub fn gcd(&self, other: &Self) -> (r: Self)
        ensures
            r@ == int_gcd(self@, other@),
    {
        ssl_gcd(self, other)
    }

    /// Compute the least common multiple: `self / gcd * other`, which carries the sign of
    /// `self * other`, and zero when both are zero.
    pub fn lcm(&self, other: &Self) -> (r: Self)
        requires
            self@ == 0 && other@ == 0 || fits(trunc_div(self@, int_gcd(self@, other@) as int) * other@),
        ensures
            self@ == 0 && other@ == 0 ==> r@ == 0,
            !(self@ == 0 && other@ == 0) ==> r@ == trunc_div(self@, int_gcd(self@, other@) as int) * other@,
    {
        if self.is_zero() && other.is_zero() {
            BigNumber::zero()
        } else {
            let g = self.gcd(other);
            proof {
                crate::crypto::arith::lemma_gcd_positive(abs(self@), abs(other@));
            }
            let q = self.div(&g);
            proof {
                crate::crypto::arith::lemma_trunc_div_rem(self@, g@);
                assert(abs(q@) <= abs(self@)) by {
                    vstd::arithmetic::div_mod::lemma_div_is_ordered_by_denominator(abs(self@) as int, 1, abs(g@) as int);
                }
            }
            q.mul(other)
        }
    }

    /// The magnitude of a modulus.
    fn get_mod(n: &Self) -> (r: Self)
        ensures
            r@ == abs(n@),
    {
        if n.is_negative() {
            n.neg()
        } else {
            n.clone()
        }
    }

    /// Compute self mod n
    pub fn nmod(&self, n: &Self) -> (r: Self)
        ensures
            r@ == reduce(self@, n@),
    {
        if n.is_zero() {
            return BigNumber::zero();
        }
        ssl_nnmod(self, n)
    }

    /// Compute (self + rhs) mod n
    pub fn modadd(&self, rhs: &Self, n: &Self) -> (r: Self)
        ensures
            r@ == reduce(self@ + rhs@, n@),
    {
        if n.is_zero() {
            return BigNumber::zero();
        }
        ssl_mod_add(self, rhs, n)
    }

    /// Replace this value with (self + rhs) mod n
    pub(crate) fn modadd_assign(&mut self, rhs: &Self, n: &Self)
        ensures
            final(self)@ == reduce(old(self)@ + rhs@, n@),
    {
        *self = self.modadd(rhs, n);
    }

    /// Compute (self - rhs) mod n
    pub fn modsub(&self, rhs: &Self, n: &Self) -> (r: Self)
        ensures
            r@ == reduce(self@ - rhs@, n@),
    {
        if n.is_zero() {
            return BigNumber::zero();
        }
        ssl_mod_sub(self, rhs, n)
    }

    /// Replace this value with (self - rhs) mod n
    pub(crate) fn modsub_assign(&mut self, rhs: &Self, n: &Self)
        ensures
            final(self)@ == reduce(old(self)@ - rhs@, n@),
    {
        *self = self.modsub(rhs, n);
    }

    /// Compute (self * rhs) mod n
    pub fn modmul(&self, rhs: &Self, n: &Self) -> (r: Self)
        ensures
            r@ == reduce(self@ * rhs@, n@),
    {
        if n.is_zero() {
            return BigNumber::zero();
        }
        ssl_mod_mul(self, rhs, n)
    }

    /// Replace this value with (self * rhs) mod n
    pub(crate) fn modmul_assign(&mut self, rhs: &Self, n: &Self)
        ensures
            final(self)@ == reduce(old(self)@ * rhs@, n@),
    {
        *self = self.modmul(rhs, n);
    }

    /// Compute -self mod n
    pub fn modneg(&self, n: &Self) -> (r: Self)
        ensures
            r@ == reduce(-self@, n@),
    {
        if n.is_zero() {
            return BigNumber::zero();
        }
        let zero = BigNumber::zero();
        ssl_mod_sub(&zero, self, n)
    }

    /// Computes the multiplicative inverse of this element, failing if the element is zero.
    /// There is none modulo zero, one or minus one.
    pub fn invert(&self, modulus: &Self) -> (r: Option<Self>)
        ensures
            abs(modulus@) <= 1 ==> r is None,
            abs(modulus@) > 1 ==> (r is Some <==> invertible(self@ % (abs(modulus@) as int), abs(modulus@) as int)),
            abs(modulus@) > 1 ==> (r matches Some(v) ==> v@ == inverse(self@ % (abs(modulus@) as int), abs(modulus@) as int)),
    {
        if self.is_zero() || modulus.is_zero() || modulus.is_unit() {
            proof {
                if abs(modulus@) > 1 {
                    lemma_zero_not_invertible(abs(modulus@) as int);
                    lemma_small_mod(0, abs(modulus@));
                }
            }
            return None;
        }
        let m = BigNumber::get_mod(modulus);
        let a = ssl_nnmod(self, &m);
        proof {
            lemma_mod_bound(self@, m@);
        }
        ssl_mod_inverse(&a, &m)
    }

    /// Returns `(self ^ exponent) mod n`
    /// Note that this rounds down
    /// which makes a difference when given a negative `self` or `n`.
    /// The result will be in the interval `[0, n)` for `n > 0`
    pub fn modpow(&self, exponent: &Self, n: &Self) -> (r: Self)
        ensures
            r@ == modpow_value(self@, exponent@, n@),
    {
        if n.is_zero() {
            return BigNumber::zero();
        }
        let m = BigNumber::get_mod(n);
        if exponent.is_negative() {
            match self.invert(n) {
                None => BigNumber::zero(),
                Some(a) => {
                    let e = exponent.neg();
                    proof {
                        crate::modspec::lemma_inverse_bound(self@ % m@, m@);
                    }
                    ssl_mod_exp(&a, &e, &m)
                },
            }
        } else {
            let base = ssl_nnmod(self, &m);
            proof {
                lemma_mod_bound(self@, m@);
                if m@ == 1 {
                    lemma_mod_bound(pow(base@, exponent@ as nat), 1);
                }
            }
            ssl_mod_exp(&base, exponent, &m)
        }
    }

    /// Compute (self * 1/rhs) mod n
    pub fn moddiv(&self, rhs: &Self, n: &Self) -> (r: Self)
        ensures
            r@ == crate::modspec::moddiv_value(self@, rhs@, n@),
    {
        if n.is_zero() {
            return BigNumber::zero();
        }
        let ghost m = abs(n@) as int;
        match rhs.invert(n) {
            Some(inverse) => {
                ssl_mod_mul(self, &inverse, n)
            },
            None => BigNumber::zero(),
        }
    }

    /// Replace this value with (self * 1/rhs) mod n
    pub(crate) fn moddiv_assign(&mut self, rhs: &Self, n: &Self)
        ensures
            final(self)@ == crate::modspec::moddiv_value(old(self)@, rhs@, n@),
    {
        *self = self.moddiv(rhs, n);
    }
}

/// The greatest common divisor times the least common multiple that [`BigNumber::lcm`]
/// computes is `|a b|`, whatever the signs.
pub proof fn lemma_gcd_times_signed_lcm(a: int, b: int)
    requires
        !(a == 0 && b == 0),
    ensures
        int_gcd(a, b) * abs(trunc_div(a, int_gcd(a, b) as int) * b) == abs(a * b),
{
    let g = int_gcd(a, b) as int;
    crate::crypto::arith::lemma_gcd_positive(abs(a), abs(b));
    crate::crypto::arith::lemma_trunc_div_rem(a, g);
    crate::crypto::egcd::lemma_abs_mul(trunc_div(a, g), b);
    crate::crypto::arith::lemma_gcd_times_lcm(a, b);
}

/// Shifting left and then right by the same amount gives the value back, with the rounding
/// toward zero of [`BigNumber::shr`].
pub proof fn lemma_truncating_shift_round_trip(x: int, shift: nat)
    ensures
        trunc_div(x * pow2(shift), pow2(shift) as int) == x,
{
    let p = pow2(shift) as int;
    vstd::arithmetic::power2::lemma_pow2_pos(shift);
    crate::crypto::egcd::lemma_abs_mul(x, p);
    vstd::arithmetic::div_mod::lemma_div_multiples_vanish(abs(x) as int, p);
    assert(abs(x) * p == p * abs(x)) by (nonlinear_arith);
    assert((x * p < 0) == (x < 0)) by (nonlinear_arith)
        requires
            p > 0,
    ;
}

} // verus!
