//! Arithmetic of the `num-bigint` backend: `BigInt` computes, and the modular operations reduce
//! modulo the magnitude of the modulus.
use vstd::prelude::*;
use vstd::arithmetic::power2::pow2;
use vstd::arithmetic::div_mod::{lemma_mod_bound, lemma_fundamental_div_mod_converse};
use crate::gcd_result::GcdResult;
use crate::rust::bn::BigNumber;
use crate::rust::big::{
    big_add, big_sub, big_mul, big_div_rem, big_shl, big_shr, big_mod_floor, big_gcd, big_lcm,
    big_extended_gcd, big_bits,
};
use crate::crypto::words::abs;
use crate::crypto::bn::bits_of;
use crate::crypto::arith::{trunc_div, trunc_rem, int_gcd, lemma_trunc_div_rem};
use crate::modspec::reduce;

verus! {

impl BigNumber {
    /// The sum.
    pub fn add(&self, rhs: &Self) -> (r: Self)
        ensures
            r@ == self@ + rhs@,
    {
        big_add(self, rhs)
    }

    /// The difference.
    pub fn sub(&self, rhs: &Self) -> (r: Self)
        ensures
            r@ == self@ - rhs@,
    {
        big_sub(self, rhs)
    }

    /// The product.
    pub fn mul(&self, rhs: &Self) -> (r: Self)
        ensures
            r@ == self@ * rhs@,
    {
        big_mul(self, rhs)
    }

    /// Simultaneous integer division and modulus: the quotient rounds toward zero and the
    /// remainder has the dividend's sign.
    pub fn div_rem(&self, other: &Self) -> (r: (Self, Self))
        requires
            other@ != 0,
        ensures
            r.0@ == trunc_div(self@, other@),
            r.1@ == trunc_rem(self@, other@),
    {
        big_div_rem(self, other)
    }

    /// The quotient, rounded toward zero.
    pub fn div(&self, other: &Self) -> (r: Self)
        requires
            other@ != 0,
        ensures
            r@ == trunc_div(self@, other@),
    {
        let (q, _) = big_div_rem(self, other);
        q
    }

    /// The remainder of truncated division.
    pub fn rem(&self, other: &Self) -> (r: Self)
        requires
            other@ != 0,
        ensures
            r@ == trunc_rem(self@, other@),
    {
        let (_, m) = big_div_rem(self, other);
        m
    }

    /// The value times `2^shift`.
    pub fn shl(&self, shift: u32) -> (r: Self)
        ensures
            r@ == self@ * pow2(shift as nat),
    {
        big_shl(self, shift as usize)
    }

    /// The value divided by `2^shift`, rounded toward negative infinity.
    pub fn shr(&self, shift: u32) -> (r: Self)
        ensures
            r@ == self@ / (pow2(shift as nat) as int),
    {
        big_shr(self, shift as usize)
    }

    /// Compute the greatest common divisor
    pub fn gcd(&self, other: &Self) -> (r: Self)
        ensures
            r@ == int_gcd(self@, other@),
    {
        big_gcd(self, other)
    }

    /// Compute the least common multiple
    pub fn lcm(&self, other: &Self) -> (r: Self)
        ensures
            self@ == 0 && other@ == 0 ==> r@ == 0,
            !(self@ == 0 && other@ == 0) ==> r@ == (abs(self@) / int_gcd(self@, other@)) * abs(other@),
    {
        big_lcm(self, other)
    }

    /// Compute the extended euclid algorithm and return the Bézout coefficients and GCD
    pub fn extended_gcd(&self, other: &Self) -> (r: GcdResult<Self>)
        ensures
            r.gcd@ == int_gcd(self@, other@),
            r.x@ * self@ + r.y@ * other@ == r.gcd@,
    {
        let (gcd, x, y) = big_extended_gcd(self, other);
        GcdResult { gcd, x, y }
    }

    /// Return the bit length
    pub fn bit_length(&self) -> (r: usize)
        requires
            bits_of(self@) <= usize::MAX,
        ensures
            r == bits_of(self@),
    {
        big_bits(self) as usize
    }

    /// The magnitude of a modulus.
    pub(crate) fn get_mod(n: &Self) -> (r: Self)
        ensures
            r@ == abs(n@),
    {
        if n.is_negative() {
            n.neg()
        } else {
            n.clone()
        }
    }

    /// Replaces this value with its remainder in `0..m` for a positive `m`: the remainder of
    /// truncated division, moved up by `m` when it is negative.
    pub(crate) fn reduce_mod_assign(&mut self, modulus: &Self)
        requires
            modulus@ > 0,
        ensures
            final(self)@ == old(self)@ % modulus@,
    {
        let ghost a = self@;
        *self = self.rem(modulus);
        proof {
            lemma_trunc_div_rem(a, modulus@);
            lemma_mod_bound(a, modulus@);
        }
        let ghost rem = self@;
        if self.is_negative() {
            *self = self.add(modulus);
            proof {
                let q = trunc_div(a, modulus@);
                let m = modulus@;
                assert(a == (q - 1) * m + self@) by (nonlinear_arith)
                    requires
                        a == q * m + rem,
                        self@ == rem + m,
                ;
                lemma_fundamental_div_mod_converse(a, m, q - 1, self@);
            }
        } else {
            proof {
                lemma_fundamental_div_mod_converse(a, modulus@, trunc_div(a, modulus@), self@);
            }
        }
    }

    /// Compute self mod n
    pub fn nmod(&self, n: &Self) -> (r: Self)
        requires
            n@ != 0,
        ensures
            r@ == reduce(self@, n@),
    {
        let nn = BigNumber::get_mod(n);
        big_mod_floor(self, &nn)
    }

    /// Compute (self + rhs) mod n
    pub fn modadd(&self, rhs: &Self, n: &Self) -> (r: Self)
        requires
            n@ != 0,
        ensures
            r@ == reduce(self@ + rhs@, n@),
    {
        let nn = BigNumber::get_mod(n);
        big_mod_floor(&self.add(rhs), &nn)
    }

    pub(crate) fn modadd_assign(&mut self, rhs: &Self, n: &Self)
        requires
            n@ != 0,
        ensures
            final(self)@ == reduce(old(self)@ + rhs@, n@),
    {
        let modulus = BigNumber::get_mod(n);
        *self = self.add(rhs);
        self.reduce_mod_assign(&modulus);
    }

    /// Compute (self - rhs) mod n
    pub fn modsub(&self, rhs: &Self, n: &Self) -> (r: Self)
        requires
            n@ != 0,
        ensures
            r@ == reduce(self@ - rhs@, n@),
    {
        let nn = BigNumber::get_mod(n);
        big_mod_floor(&self.sub(rhs), &nn)
    }

    pub(crate) fn modsub_assign(&mut self, rhs: &Self, n: &Self)
        requires
            n@ != 0,
        ensures
            final(self)@ == reduce(old(self)@ - rhs@, n@),
    {
        let modulus = BigNumber::get_mod(n);
        *self = self.sub(rhs);
        self.reduce_mod_assign(&modulus);
    }

    /// Compute (self * rhs) mod n
    pub fn modmul(&self, rhs: &Self, n: &Self) -> (r: Self)
        requires
            n@ != 0,
        ensures
            r@ == reduce(self@ * rhs@, n@),
    {
        let nn = BigNumber::get_mod(n);
        big_mod_floor(&self.mul(rhs), &nn)
    }

    pub(crate) fn modmul_assign(&mut self, rhs: &Self, n: &Self)
        requires
            n@ != 0,
        ensures
            final(self)@ == reduce(old(self)@ * rhs@, n@),
    {
        let modulus = BigNumber::get_mod(n);
        *self = self.mul(rhs);
        self.reduce_mod_assign(&modulus);
    }

    /// Compute -self mod n
    pub fn modneg(&self, n: &Self) -> (r: Self)
        requires
            n@ != 0,
        ensures
            r@ == reduce(-self@, n@),
    {
        let nn = BigNumber::get_mod(n);
        let r = big_mod_floor(self, &nn);
        proof {
            crate::modspec::lemma_mod_negate(self@, nn@);
        }
        if r.is_zero() {
            BigNumber::zero()
        } else {
            nn.sub(&r)
        }
    }
}

} // verus!
