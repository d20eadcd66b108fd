//! Big numbers of the OpenSSL backend as elements of groups of unknown order.
use vstd::prelude::*;
use crate::openssl_backend::bn::BigNumber;
use crate::error::Result;
use crate::group::GroupElement;
use crate::modspec::is_prime_int;

verus! {

impl GroupElement for BigNumber {
    open spec fn as_int(&self) -> int {
        self@
    }

    /// OpenSSL's test draws its bases at random, so no value is known to be refused.
    open spec fn passes_prime_test(&self) -> bool {
        true
    }

    proof fn lemma_eq_compares_integers() {
    }

    fn zero() -> (r: Self) {
        BigNumber::zero()
    }

    fn one() -> (r: Self) {
        BigNumber::one()
    }

    fn is_zero(&self) -> (r: bool) {
        BigNumber::is_zero(self)
    }

    fn is_one(&self) -> (r: bool) {
        BigNumber::is_one(self)
    }

    fn is_negative(&self) -> (r: bool) {
        BigNumber::is_negative(self)
    }

    fn is_prime(&self) -> (r: Result<bool>)
        ensures
            r matches Ok(b) ==> (is_prime_int(self.as_int()) ==> b),
            r matches Err(e) ==> e is OpenSsl,
    {
        BigNumber::is_prime(self)
    }

    fn invert(&self, modulus: &Self) -> (r: Option<Self>) {
        BigNumber::invert(self, modulus)
    }

    fn modpow(&self, exponent: &Self, modulus: &Self) -> (r: Self) {
        BigNumber::modpow(self, exponent, modulus)
    }

    fn modadd(&self, rhs: &Self, modulus: &Self) -> (r: Self) {
        BigNumber::modadd(self, rhs, modulus)
    }

    fn modadd_assign(&mut self, rhs: &Self, modulus: &Self) {
        BigNumber::modadd_assign(self, rhs, modulus);
    }

    fn modsub(&self, rhs: &Self, modulus: &Self) -> (r: Self) {
        BigNumber::modsub(self, rhs, modulus)
    }

    fn modsub_assign(&mut self, rhs: &Self, modulus: &Self) {
        BigNumber::modsub_assign(self, rhs, modulus);
    }

    fn modmul(&self, rhs: &Self, modulus: &Self) -> (r: Self) {
        BigNumber::modmul(self, rhs, modulus)
    }

    fn modmul_assign(&mut self, rhs: &Self, modulus: &Self) {
        BigNumber::modmul_assign(self, rhs, modulus);
    }

    fn moddiv(&self, rhs: &Self, modulus: &Self) -> (r: Self) {
        BigNumber::moddiv(self, rhs, modulus)
    }

    fn moddiv_assign(&mut self, rhs: &Self, modulus: &Self) {
        BigNumber::moddiv_assign(self, rhs, modulus);
    }

    fn modneg(&self, modulus: &Self) -> (r: Self) {
        BigNumber::modneg(self, modulus)
    }

    fn nmod(&self, modulus: &Self) -> (r: Self) {
        BigNumber::nmod(self, modulus)
    }
}

} // verus!
