//! Signed big integers of the OpenSSL backend, held as a sign and the shortest big-endian bytes
//! of the magnitude, as `BN_bn2bin` writes them.
use vstd::prelude::*;
use vstd::arithmetic::power2::lemma_pow2_pos;
use crate::bytes::{
    be_value, is_minimal, min_bytes, lemma_be_value_lower, lemma_minimal_is_min_bytes,
};
use crate::crypto::words::{abs, bit_length, lemma_bit_length_bound};
use crate::crypto::bn::bits_of;

verus! {

/// The largest bit length that a number of this backend has: every operation on such numbers,
/// products included, stays within the size that OpenSSL allocates for a number.
pub const MAX_BITS: u32 = 0x0800_0000;

/// The largest bit length, as a number.
pub open spec fn max_bits() -> nat {
    MAX_BITS as nat
}

/// The integer has at most [`MAX_BITS`] bits.
pub open spec fn fits(x: int) -> bool {
    bits_of(x) <= max_bits()
}

/// Big number
#[derive(Debug, Hash)]
pub struct BigNumber {
    pub(crate) negative: bool,
    pub(crate) magnitude: Vec<u8>,
}

impl View for BigNumber {
    type V = int;

    /// The integer: the value of the magnitude bytes, negated when the number is negative.
    closed spec fn view(&self) -> int {
        if self.negative {
            -be_value(self.magnitude@)
        } else {
            be_value(self.magnitude@) as int
        }
    }
}

impl BigNumber {
    /// The magnitude has no leading zero byte (and no byte at all for zero), zero is never
    /// negative, and the value has at most [`MAX_BITS`] bits.
    #[verifier::type_invariant]
    pub(crate) open spec fn well_formed(&self) -> bool {
        &&& is_minimal(self.magnitude@)
        &&& self.negative ==> self.magnitude@.len() > 0
        &&& bit_length(be_value(self.magnitude@)) <= max_bits()
    }

    /// What the invariant says of the view.
    pub(crate) proof fn lemma_parts(&self)
        requires
            self.well_formed(),
        ensures
            abs(self@) == be_value(self.magnitude@),
            self@ < 0 <==> self.negative,
            self@ == 0 <==> self.magnitude@.len() == 0,
            self@ == (if self.negative { -be_value(self.magnitude@) } else { be_value(self.magnitude@) as int }),
            self.magnitude@ == min_bytes(abs(self@)),
            fits(self@),
    {
        if self.magnitude@.len() > 0 {
            lemma_be_value_lower(self.magnitude@);
            lemma_pow2_pos((8 * (self.magnitude@.len() - 1)) as nat);
        }
        lemma_minimal_is_min_bytes(self.magnitude@);
    }

    /// Two well-formed numbers with the same view have the same sign and bytes.
    pub(crate) proof fn lemma_unique(&self, other: &Self)
        requires
            self.well_formed(),
            other.well_formed(),
            self@ == other@,
        ensures
            self.negative == other.negative,
            self.magnitude@ == other.magnitude@,
    {
        self.lemma_parts();
        other.lemma_parts();
    }

    /// Return zero
    pub fn zero() -> (r: Self)
        ensures
            r@ == 0,
    {
        proof {
            assert(bit_length(0) == 0);
        }
        BigNumber { negative: false, magnitude: Vec::new() }
    }

    /// Return one
    pub fn one() -> (r: Self)
        ensures
            r@ == 1,
    {
        let magnitude = vec![1u8];
        proof {
            assert(magnitude@ =~= seq![1u8]);
            assert(magnitude@.drop_last() =~= Seq::<u8>::empty());
            assert(be_value(magnitude@) == 1) by {
                reveal_with_fuel(be_value, 2);
            }
            lemma_bit_length_bound(1, 1);
            vstd::arithmetic::power2::lemma2_to64();
        }
        BigNumber { negative: false, magnitude }
    }

    /// self == 0
    pub fn is_zero(&self) -> (r: bool)
        ensures
            r == (self@ == 0),
    {
        proof {
            use_type_invariant(self);
            self.lemma_parts();
        }
        self.magnitude.len() == 0
    }

    /// Return whether this value is negative.
    pub fn is_negative(&self) -> (r: bool)
        ensures
            r == (self@ < 0),
    {
        proof {
            use_type_invariant(self);
            self.lemma_parts();
        }
        self.negative
    }

    /// Whether the magnitude is one: the value is one or minus one.
    pub(crate) fn is_unit(&self) -> (r: bool)
        ensures
            r == (abs(self@) == 1),
    {
        proof {
            use_type_invariant(self);
            self.lemma_parts();
            let one = seq![1u8];
            assert(one.drop_last() =~= Seq::<u8>::empty());
            assert(be_value(one) == 1) by {
                reveal_with_fuel(be_value, 2);
            }
            if abs(self@) == 1 {
                lemma_minimal_is_min_bytes(one);
                assert(self.magnitude@ =~= one);
            }
            if self.magnitude@.len() == 1 && self.magnitude@[0] == 1 {
                assert(self.magnitude@ =~= one);
            }
        }
        self.magnitude.len() == 1 && self.magnitude[0] == 1
    }

    /// self == 1
    pub fn is_one(&self) -> (r: bool)
        ensures
            r == (self@ == 1),
    {
        proof {
            use_type_invariant(self);
            self.lemma_parts();
        }
        !self.negative && self.is_unit()
    }

    /// Return the additive inverse.
    pub fn neg(&self) -> (r: Self)
        ensures
            r@ == -self@,
    {
        proof {
            use_type_invariant(self);
            self.lemma_parts();
        }
        let negative = !self.negative && self.magnitude.len() > 0;
        BigNumber { negative, magnitude: self.magnitude.clone() }
    }

    /// Sets this number to zero.
    pub fn zeroize(&mut self)
        ensures
            final(self)@ == 0,
    {
        *self = BigNumber::zero();
    }
}

impl Clone for BigNumber {
    fn clone(&self) -> (r: Self)
        ensures
            r@ == self@,
    {
        proof {
            use_type_invariant(self);
        }
        let magnitude = self.magnitude.clone();
        assert(magnitude@ =~= self.magnitude@);
        BigNumber { negative: self.negative, magnitude }
    }
}

impl Default for BigNumber {
    fn default() -> (r: Self)
        ensures
            r@ == 0,
    {
        BigNumber::zero()
    }
}

} // verus!
