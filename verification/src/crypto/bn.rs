//! Signed big integers whose magnitudes `crypto_bigint::BoxedUint` computes on.
use vstd::prelude::*;
use vstd::arithmetic::power2::{pow2, lemma2_to64, lemma2_to64_rest};
use vstd::std_specs::cmp::PartialEqSpecImpl;
use zeroize::Zeroize;
use crate::crypto::sign::Sign;
use crate::crypto::limbs::{words_bits, words_resize, words_is_zero, words_compare};
use crate::crypto::words::{
    words_value, bit_length, limbs_for, max_bits, abs, lemma_bit_length_bound,
    lemma_limbs_for_bits,
};

verus! {

/// Big number with dynamically-sized precision
#[derive(Debug, Hash)]
pub struct BigNumber {
    pub(crate) sign: Sign,
    pub(crate) value: Vec<u64>,
}

impl View for BigNumber {
    type V = int;

    /// The integer: the sign's factor times the magnitude.
    closed spec fn view(&self) -> int {
        self.sign.factor() * words_value(self.value@)
    }
}

/// The bit length of an integer's magnitude.
pub open spec fn bits_of(x: int) -> nat {
    bit_length(abs(x))
}

/// The sign of an integer.
pub open spec fn sign_of(x: int) -> Sign {
    if x < 0 {
        Sign::Minus
    } else if x == 0 {
        Sign::NoSign
    } else {
        Sign::Plus
    }
}

/// The largest value of `bits` bits that the backend can hold at once, counted in words.
pub open spec fn fits(x: int) -> bool {
    bits_of(x) <= max_bits()
}

impl BigNumber {
    /// The magnitude words are the shortest that hold the value, the value is within the
    /// backend's precision, and the sign is `None` exactly for zero.
    #[verifier::type_invariant]
    pub(crate) open spec fn well_formed(&self) -> bool {
        &&& self.value@.len() == limbs_for(bit_length(words_value(self.value@)))
        &&& bit_length(words_value(self.value@)) <= max_bits()
        &&& (self.sign == Sign::NoSign) == (words_value(self.value@) == 0)
    }

    /// The words of the magnitude, least significant first.
    pub closed spec fn limb_words(&self) -> Seq<u64> {
        self.value@
    }

    /// The magnitude as a natural number.
    pub(crate) open spec fn magnitude(&self) -> nat {
        words_value(self.value@)
    }

    /// What the invariant says of the view.
    pub(crate) proof fn lemma_parts(&self)
        requires
            self.well_formed(),
        ensures
            self@ == self.sign.factor() * self.magnitude(),
            self@ == (if self.sign == Sign::Minus { -self.magnitude() } else { self.magnitude() as int }),
            abs(self@) == self.magnitude(),
            self.sign == sign_of(self@),
            bits_of(self@) <= max_bits(),
            self.value@.len() == limbs_for(bits_of(self@)),
            1 <= self.value@.len(),
            64 * self.value@.len() <= 0x7fff_0000,
            bits_of(self@) <= 64 * self.value@.len(),
            self.limb_words() == self.value@,
    {
        lemma_limbs_for_bits(bits_of(self@));
        match self.sign {
            Sign::Minus => {},
            Sign::NoSign => {},
            Sign::Plus => {},
        }
    }

    /// Builds a number from a sign and a magnitude: the sign is dropped for zero, and the
    /// magnitude is shortened to the fewest words that hold it.
    pub(crate) fn from_sign_magnitude(negative: bool, value: Vec<u64>) -> (r: Self)
        requires
            64 * value@.len() <= u32::MAX,
            bit_length(words_value(value@)) <= max_bits(),
        ensures
            r@ == (if negative { -words_value(value@) } else { words_value(value@) as int }),
    {
        let value = minimize(value);
        if words_is_zero(&value) {
            BigNumber { sign: Sign::NoSign, value }
        } else if negative {
            BigNumber { sign: Sign::Minus, value }
        } else {
            BigNumber { sign: Sign::Plus, value }
        }
    }

    /// Return zero
    pub fn zero() -> (r: Self)
        ensures
            r@ == 0,
    {
        let value = vec![0u64];
        proof {
            assert(value@ =~= seq![0u64]);
            lemma_single_word(0);
        }
        BigNumber { sign: Sign::NoSign, value }
    }

    /// Return one
    pub fn one() -> (r: Self)
        ensures
            r@ == 1,
    {
        let value = vec![1u64];
        proof {
            assert(value@ =~= seq![1u64]);
            lemma_single_word(1);
        }
        BigNumber { sign: Sign::Plus, value }
    }

    /// self == 0
    pub fn is_zero(&self) -> (r: bool)
        ensures
            r == (self@ == 0),
    {
        proof {
            use_type_invariant(self);
            self.lemma_parts();
        }
        self.sign.is_zero() || words_is_zero(&self.value)
    }

    /// Return whether this value is negative.
    pub fn is_negative(&self) -> (r: bool)
        ensures
            r == (self@ < 0),
    {
        proof {
            use_type_invariant(self);
            self.lemma_parts();
        }
        self.sign.is_negative()
    }

    /// self == 1
    pub fn is_one(&self) -> (r: bool)
        ensures
            r == (self@ == 1),
    {
        proof {
            use_type_invariant(self);
            self.lemma_parts();
            lemma2_to64();
            if self@ == 1 {
                assert(bit_length(1) == 1) by {
                    assert(bit_length(0) == 0);
                }
            } else if self.sign == Sign::Plus {
                lemma_bit_length_bound(self.magnitude(), 1);
            }
        }
        self.sign.is_positive() && words_bits(&self.value) == 1
    }

    /// Return the bit length
    pub fn bit_length(&self) -> (r: usize)
        ensures
            r == bits_of(self@),
    {
        proof {
            use_type_invariant(self);
            self.lemma_parts();
        }
        words_bits(&self.value) as usize
    }

    /// Sets this number to zero and overwrites the words that held its magnitude.
    pub fn zeroize(&mut self)
        ensures
            final(self)@ == 0,
    {
        let mut old = BigNumber::zero();
        core::mem::swap(&mut old, self);
        wipe_words(old.value);
    }

    /// Return the additive inverse.
    pub fn neg(&self) -> (r: Self)
        ensures
            r@ == -self@,
    {
        proof {
            use_type_invariant(self);
        }
        let sign = self.sign.negate();
        BigNumber { sign, value: self.value.clone() }
    }
}

impl Clone for BigNumber {
    fn clone(&self) -> (r: Self)
        ensures
            r@ == self@,
            r.limb_words() == self.limb_words(),
    {
        proof {
            use_type_invariant(self);
        }
        let value = self.value.clone();
        assert(value@ =~= self.value@);
        BigNumber { sign: self.sign, value }
    }
}

impl Default for BigNumber {
    fn default() -> (r: Self)
        ensures
            r@ == 0,
    {
        BigNumber::zero()
    }
}

impl PartialEq for BigNumber {
    fn eq(&self, other: &Self) -> (r: bool) {
        proof {
            use_type_invariant(self);
            use_type_invariant(other);
            self.lemma_parts();
            other.lemma_parts();
        }
        self.sign == other.sign && words_compare(&self.value, &other.value) == 0
    }
}

impl PartialEqSpecImpl for BigNumber {
    open spec fn obeys_eq_spec() -> bool {
        true
    }

    open spec fn eq_spec(&self, other: &BigNumber) -> bool {
        self@ == other@
    }
}

impl Eq for BigNumber {}

/// The value of one word.
pub(crate) proof fn lemma_single_word(w: u64)
    ensures
        words_value(seq![w]) == w,
        w < pow2(64),
        bit_length(w as nat) <= 64,
        limbs_for(bit_length(w as nat)) == 1,
{
    lemma2_to64();
    lemma2_to64_rest();
    let s = seq![w];
    assert(s.len() == 1);
    assert(s.drop_last() =~= Seq::<u64>::empty());
    assert(words_value(Seq::<u64>::empty()) == 0);
    assert(s.last() == w);
    assert(words_value(s) == words_value(s.drop_last()) + (w as nat) * pow2(0));
    lemma_bit_length_bound(w as nat, 64);
}

/// `Zeroize::zeroize` on the words, which overwrites them with zeros in a way the compiler does
/// not remove, before they are freed. Nothing is stated: the words are gone afterwards.
#[verifier::external_body]
fn wipe_words(mut words: Vec<u64>) {
    words.zeroize();
}

/// Return the smallest limb-aligned precision capable of storing `bits` bits.
pub(crate) fn precision_for_bits(bits: u32) -> (r: u32)
    requires
        bits <= max_bits(),
    ensures
        r == 64 * limbs_for(bits as nat),
{
    let bits = if bits < 1 { 1 } else { bits };
    (bits + 63) / 64 * 64
}

/// Remove unused high limbs after an operation grows its working precision.
pub(crate) fn minimize(value: Vec<u64>) -> (r: Vec<u64>)
    requires
        64 * value@.len() <= u32::MAX,
        bit_length(words_value(value@)) <= max_bits(),
    ensures
        words_value(r@) == words_value(value@),
        r@.len() == limbs_for(bit_length(words_value(r@))),
{
    let bits = words_bits(&value);
    let precision = precision_for_bits(bits);
    proof {
        lemma_limbs_for_bits(bits as nat);
    }
    words_resize(value, precision)
}

} // verus!
