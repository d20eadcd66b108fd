//! Signed big integers of the `num-bigint` backend, held as a sign and canonical 32-bit digits.
use vstd::prelude::*;
use crate::rust::digits::{
    digits_value, canonical, lemma_canonical_zero, lemma_canonical_unique, lemma_digits_push,
};
use crate::crypto::words::abs;
use vstd::arithmetic::power2::pow2;

verus! {

/// Big number
#[derive(Debug, Hash)]
pub struct BigNumber {
    pub(crate) negative: bool,
    pub(crate) digits: Vec<u32>,
}

impl View for BigNumber {
    type V = int;

    /// The integer: the magnitude that the digits hold, negated when the number is negative.
    closed spec fn view(&self) -> int {
        if self.negative {
            -digits_value(self.digits@)
        } else {
            digits_value(self.digits@) as int
        }
    }
}

impl BigNumber {
    /// The digits are canonical (no zero digit at the top, none at all for zero) and zero is
    /// never negative.
    #[verifier::type_invariant]
    pub(crate) open spec fn well_formed(&self) -> bool {
        &&& canonical(self.digits@)
        &&& self.negative ==> self.digits@.len() > 0
    }

    /// What the invariant says of the view.
    pub(crate) proof fn lemma_parts(&self)
        requires
            self.well_formed(),
        ensures
            abs(self@) == digits_value(self.digits@),
            self@ < 0 <==> self.negative,
            self@ == 0 <==> self.digits@.len() == 0,
            self@ == (if self.negative { -digits_value(self.digits@) } else { digits_value(self.digits@) as int }),
    {
        lemma_canonical_zero(self.digits@);
    }

    /// Two well-formed numbers with the same view have the same sign and digits.
    pub(crate) proof fn lemma_unique(&self, other: &Self)
        requires
            self.well_formed(),
            other.well_formed(),
            self@ == other@,
        ensures
            self.negative == other.negative,
            self.digits@ == other.digits@,
    {
        self.lemma_parts();
        other.lemma_parts();
        lemma_canonical_unique(self.digits@, other.digits@);
    }

    /// Return zero
    pub fn zero() -> (r: Self)
        ensures
            r@ == 0,
    {
        BigNumber { negative: false, digits: Vec::new() }
    }

    /// Return one
    pub fn one() -> (r: Self)
        ensures
            r@ == 1,
    {
        let digits = vec![1u32];
        proof {
            assert(digits@ =~= seq![1u32]);
            lemma_digits_push(Seq::<u32>::empty(), 1);
            assert(seq![1u32] =~= Seq::<u32>::empty().push(1));
            vstd::arithmetic::power2::lemma2_to64();
            assert((1 as nat) * pow2(0) == 1);
        }
        BigNumber { negative: false, digits }
    }

    /// self == 0
    pub fn is_zero(&self) -> (r: bool)
        ensures
            r == (self@ == 0),
    {
        proof {
            use_type_invariant(self);
            self.lemma_parts();
        }
        self.digits.len() == 0
    }

    /// Return whether this value is negative.
    pub fn is_negative(&self) -> (r: bool)
        ensures
            r == (self@ < 0),
    {
        proof {
            use_type_invariant(self);
            self.lemma_parts();
        }
        self.negative
    }

    /// self == 1
    pub fn is_one(&self) -> (r: bool)
        ensures
            r == (self@ == 1),
    {
        proof {
            use_type_invariant(self);
            self.lemma_parts();
            let one = seq![1u32];
            lemma_digits_push(Seq::<u32>::empty(), 1);
            assert(one =~= Seq::<u32>::empty().push(1));
            vstd::arithmetic::power2::lemma2_to64();
            assert(digits_value(one) == 1) by {
                assert((1 as nat) * pow2(0) == 1);
            }
            if self@ == 1 {
                lemma_canonical_unique(self.digits@, one);
            }
            if self.digits@.len() == 1 && self.digits@[0] == 1 {
                assert(self.digits@ =~= one);
            }
        }
        !self.negative && self.digits.len() == 1 && self.digits[0] == 1
    }

    /// Return the additive inverse.
    pub fn neg(&self) -> (r: Self)
        ensures
            r@ == -self@,
    {
        proof {
            use_type_invariant(self);
            self.lemma_parts();
        }
        let negative = !self.negative && self.digits.len() > 0;
        BigNumber { negative, digits: self.digits.clone() }
    }

    /// Sets this number to zero.
    pub fn zeroize(&mut self)
        ensures
            final(self)@ == 0,
    {
        *self = BigNumber::zero();
    }

    /// The number of a `u128`.
    pub fn from_u128(value: u128) -> (r: Self)
        ensures
            r@ == value,
    {
        BigNumber { negative: false, digits: digits_of(value) }
    }

    /// The number of an `i128`.
    pub fn from_i128(value: i128) -> (r: Self)
        ensures
            r@ == value,
    {
        let magnitude: u128 = if value < 0 { ((-(value + 1)) as u128) + 1 } else { value as u128 };
        let digits = digits_of(magnitude);
        proof {
            lemma_canonical_zero(digits@);
        }
        BigNumber { negative: value < 0, digits }
    }
}

/// The canonical digits of a `u128`.
fn digits_of(value: u128) -> (r: Vec<u32>)
    ensures
        canonical(r@),
        digits_value(r@) == value,
{
    let mut digits: Vec<u32> = Vec::new();
    let mut rest = value;
    proof {
        vstd::arithmetic::power2::lemma2_to64();
        vstd::arithmetic::power2::lemma2_to64_rest();
        vstd::arithmetic::power2::lemma_pow2_adds(64, 64);
        assert(rest * pow2(0) == rest);
        assert(digits@.len() == 0);
    }
    while rest > 0
        invariant
            digits_value(digits@) + rest * pow2((32 * digits@.len()) as nat) == value,
            rest == 0 ==> canonical(digits@),
            digits@.len() <= 4,
            rest < pow2((128 - 32 * digits@.len()) as nat),
        decreases rest,
    {
        let low = (rest % 0x1_0000_0000) as u32;
        let high = rest / 0x1_0000_0000;
        proof {
            let n = digits@.len();
            let p = pow2((32 * n) as nat);
            lemma_digits_push(digits@, low);
            vstd::arithmetic::power2::lemma_pow2_adds((32 * n) as nat, 32);
            vstd::arithmetic::power2::lemma2_to64();
            assert((32 * n + 32) as nat == (32 * (n + 1)) as nat);
            assert(rest == 0x1_0000_0000 * high + low);
            assert(rest * p == (low as nat) * p + high * pow2((32 * (n + 1)) as nat)) by (nonlinear_arith)
                requires
                    rest == 0x1_0000_0000 * high + low,
                    pow2((32 * (n + 1)) as nat) == p * 0x1_0000_0000,
            ;
            if n == 4 {
                assert(pow2(0) == 1);
                assert(false);
            }
            vstd::arithmetic::power2::lemma_pow2_adds((128 - 32 * (n + 1)) as nat, 32);
            assert(((128 - 32 * (n + 1)) + 32) as nat == (128 - 32 * n) as nat);
            if high > 0 {
                assert(low != 0 || high > 0);
            }
        }
        digits.push(low);
        rest = high;
        proof {
            if rest == 0 {
                assert(low > 0);
                assert(digits@.last() == low);
            }
        }
    }
    proof {
        assert(rest * pow2((32 * digits@.len()) as nat) == 0);
    }
    digits
}

impl Clone for BigNumber {
    fn clone(&self) -> (r: Self)
        ensures
            r@ == self@,
    {
        proof {
            use_type_invariant(self);
        }
        let digits = self.digits.clone();
        assert(digits@ =~= self.digits@);
        BigNumber { negative: self.negative, digits }
    }
}

impl Default for BigNumber {
    fn default() -> (r: Self)
        ensures
            r@ == 0,
    {
        BigNumber::zero()
    }
}

} // verus!
