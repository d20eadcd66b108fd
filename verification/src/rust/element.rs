//! Big numbers of the `num-bigint` backend as elements of groups of unknown order.
use vstd::prelude::*;
use crate::rust::bn::BigNumber;
use crate::error::Result;
use crate::group::GroupElement;
use crate::modspec::lemma_zero_not_invertible;

verus! {

impl GroupElement for BigNumber {
    open spec fn as_int(&self) -> int {
        self@
    }

    open spec fn passes_prime_test(&self) -> bool {
        self.prime_test()
    }

    proof fn lemma_eq_compares_integers() {
    }

    fn zero() -> (r: Self) {
        BigNumber::zero()
    }

    fn one() -> (r: Self) {
        BigNumber::one()
    }

    fn is_zero(&self) -> (r: bool) {
        BigNumber::is_zero(self)
    }

    fn is_one(&self) -> (r: bool) {
        BigNumber::is_one(self)
    }

    fn is_negative(&self) -> (r: bool) {
        BigNumber::is_negative(self)
    }

    fn is_prime(&self) -> (r: Result<bool>)
        ensures
            r matches Ok(b) ==> b == self.passes_prime_test(),
            self.as_int() < 0 ==> (r matches Ok(b) && !b),
            r matches Err(e) ==> e is Random,
    {
        BigNumber::is_prime(self)
    }

    fn invert(&self, modulus: &Self) -> (r: Option<Self>) {
        proof {
            if modulus@ > 1 && self@ == 0 {
                lemma_zero_not_invertible(modulus@);
                vstd::arithmetic::div_mod::lemma_small_mod(0, modulus@ as nat);
            }
        }
        BigNumber::invert(self, modulus)
    }

    fn modpow(&self, exponent: &Self, modulus: &Self) -> (r: Self) {
        BigNumber::modpow(self, exponent, modulus)
    }

    fn modadd(&self, rhs: &Self, modulus: &Self) -> (r: Self) {
        BigNumber::modadd(self, rhs, modulus)
    }

    fn modadd_assign(&mut self, rhs: &Self, modulus: &Self) {
        BigNumber::modadd_assign(self, rhs, modulus);
    }

    fn modsub(&self, rhs: &Self, modulus: &Self) -> (r: Self) {
        BigNumber::modsub(self, rhs, modulus)
    }

    fn modsub_assign(&mut self, rhs: &Self, modulus: &Self) {
        BigNumber::modsub_assign(self, rhs, modulus);
    }

    fn modmul(&self, rhs: &Self, modulus: &Self) -> (r: Self) {
        BigNumber::modmul(self, rhs, modulus)
    }

    fn modmul_assign(&mut self, rhs: &Self, modulus: &Self) {
        BigNumber::modmul_assign(self, rhs, modulus);
    }

    fn moddiv(&self, rhs: &Self, modulus: &Self) -> (r: Self) {
        BigNumber::moddiv(self, rhs, modulus)
    }

    fn moddiv_assign(&mut self, rhs: &Self, modulus: &Self) {
        BigNumber::moddiv_assign(self, rhs, modulus);
    }

    fn modneg(&self, modulus: &Self) -> (r: Self) {
        BigNumber::modneg(self, modulus)
    }

    fn nmod(&self, modulus: &Self) -> (r: Self) {
        BigNumber::nmod(self, modulus)
    }
}

} // verus!
