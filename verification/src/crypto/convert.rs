//! Conversions from machine integers.
use vstd::prelude::*;
use vstd::arithmetic::power2::{pow2, lemma2_to64, lemma2_to64_rest};
use vstd::std_specs::convert::FromSpecImpl;
use crate::crypto::bn::{BigNumber, lemma_single_word};
use crate::crypto::words::{words_value, bit_length, lemma_bit_length_bound};

verus! {

proof fn lemma_two_words(lo: u64, hi: u64)
    ensures
        words_value(seq![lo, hi]) == lo + hi * pow2(64),
        words_value(seq![lo, hi]) < pow2(128),
        bit_length(words_value(seq![lo, hi])) <= 128,
{
    lemma2_to64();
    lemma2_to64_rest();
    lemma_single_word(lo);
    let s = seq![lo, hi];
    assert(s.drop_last() =~= seq![lo]);
    crate::crypto::words::lemma_words_value_bound(s);
    lemma_bit_length_bound(words_value(s), 128);
}

impl BigNumber {
    /// The number equal to an unsigned 64-bit integer.
    pub fn from_u64(v: u64) -> (r: Self)
        ensures
            r@ == v,
    {
        let value = vec![v];
        proof {
            assert(value@ =~= seq![v]);
            lemma_single_word(v);
        }
        BigNumber::from_sign_magnitude(false, value)
    }

    /// The number equal to an unsigned 128-bit integer.
    pub fn from_u128(v: u128) -> (r: Self)
        ensures
            r@ == v,
    {
        let lo = #[verifier::truncate] (v as u64);
        let hi = #[verifier::truncate] ((v >> 64u32) as u64);
        assert(lo == v % 0x1_0000_0000_0000_0000 && hi == v / 0x1_0000_0000_0000_0000) by (bit_vector)
            requires
                lo == v as u64,
                hi == (v >> 64u32) as u64,
        ;
        let value = vec![lo, hi];
        proof {
            assert(value@ =~= seq![lo, hi]);
            lemma_two_words(lo, hi);
            vstd::arithmetic::div_mod::lemma_fundamental_div_mod(v as int, 0x1_0000_0000_0000_0000);
            lemma2_to64_rest();
        }
        BigNumber::from_sign_magnitude(false, value)
    }

    /// The number equal to a signed 64-bit integer.
    pub fn from_i64(v: i64) -> (r: Self)
        ensures
            r@ == v,
    {
        let magnitude: u64 = if v < 0 {
            if v == i64::MIN {
                0x8000_0000_0000_0000
            } else {
                (-v) as u64
            }
        } else {
            v as u64
        };
        let value = vec![magnitude];
        proof {
            assert(value@ =~= seq![magnitude]);
            lemma_single_word(magnitude);
        }
        BigNumber::from_sign_magnitude(v < 0, value)
    }

    /// The number equal to a signed 128-bit integer.
    pub fn from_i128(v: i128) -> (r: Self)
        ensures
            r@ == v,
    {
        let magnitude: u128 = if v < 0 {
            if v == i128::MIN {
                0x8000_0000_0000_0000_0000_0000_0000_0000
            } else {
                (-v) as u128
            }
        } else {
            v as u128
        };
        let lo = #[verifier::truncate] (magnitude as u64);
        let hi = #[verifier::truncate] ((magnitude >> 64u32) as u64);
        assert(lo == magnitude % 0x1_0000_0000_0000_0000 && hi == magnitude / 0x1_0000_0000_0000_0000)
            by (bit_vector)
            requires
                lo == magnitude as u64,
                hi == (magnitude >> 64u32) as u64,
        ;
        let value = vec![lo, hi];
        proof {
            assert(value@ =~= seq![lo, hi]);
            lemma_two_words(lo, hi);
            vstd::arithmetic::div_mod::lemma_fundamental_div_mod(magnitude as int, 0x1_0000_0000_0000_0000);
            lemma2_to64_rest();
        }
        BigNumber::from_sign_magnitude(v < 0, value)
    }
}

impl From<u64> for BigNumber {
    fn from(value: u64) -> (r: Self)
        ensures
            r@ == value,
    {
        BigNumber::from_u64(value)
    }
}

impl FromSpecImpl<u64> for BigNumber {
    open spec fn obeys_from_spec() -> bool {
        false
    }

    open spec fn from_spec(v: u64) -> BigNumber {
        arbitrary()
    }
}

impl From<u32> for BigNumber {
    fn from(value: u32) -> (r: Self)
        ensures
            r@ == value,
    {
        BigNumber::from_u64(value as u64)
    }
}

impl FromSpecImpl<u32> for BigNumber {
    open spec fn obeys_from_spec() -> bool {
        false
    }

    open spec fn from_spec(v: u32) -> BigNumber {
        arbitrary()
    }
}

impl From<u16> for BigNumber {
    fn from(value: u16) -> (r: Self)
        ensures
            r@ == value,
    {
        BigNumber::from_u64(value as u64)
    }
}

impl FromSpecImpl<u16> for BigNumber {
    open spec fn obeys_from_spec() -> bool {
        false
    }

    open spec fn from_spec(v: u16) -> BigNumber {
        arbitrary()
    }
}

impl From<u8> for BigNumber {
    fn from(value: u8) -> (r: Self)
        ensures
            r@ == value,
    {
        BigNumber::from_u64(value as u64)
    }
}

impl FromSpecImpl<u8> for BigNumber {
    open spec fn obeys_from_spec() -> bool {
        false
    }

    open spec fn from_spec(v: u8) -> BigNumber {
        arbitrary()
    }
}

impl From<usize> for BigNumber {
    fn from(value: usize) -> (r: Self)
        ensures
            r@ == value,
    {
        BigNumber::from_u64(value as u64)
    }
}

impl FromSpecImpl<usize> for BigNumber {
    open spec fn obeys_from_spec() -> bool {
        false
    }

    open spec fn from_spec(v: usize) -> BigNumber {
        arbitrary()
    }
}

impl From<u128> for BigNumber {
    fn from(value: u128) -> (r: Self)
        ensures
            r@ == value,
    {
        BigNumber::from_u128(value)
    }
}

impl FromSpecImpl<u128> for BigNumber {
    open spec fn obeys_from_spec() -> bool {
        false
    }

    open spec fn from_spec(v: u128) -> BigNumber {
        arbitrary()
    }
}

impl From<i64> for BigNumber {
    fn from(value: i64) -> (r: Self)
        ensures
            r@ == value,
    {
        BigNumber::from_i64(value)
    }
}

impl FromSpecImpl<i64> for BigNumber {
    open spec fn obeys_from_spec() -> bool {
        false
    }

    open spec fn from_spec(v: i64) -> BigNumber {
        arbitrary()
    }
}

impl From<i32> for BigNumber {
    fn from(value: i32) -> (r: Self)
        ensures
            r@ == value,
    {
        BigNumber::from_i64(value as i64)
    }
}

impl FromSpecImpl<i32> for BigNumber {
    open spec fn obeys_from_spec() -> bool {
        false
    }

    open spec fn from_spec(v: i32) -> BigNumber {
        arbitrary()
    }
}

impl From<i16> for BigNumber {
    fn from(value: i16) -> (r: Self)
        ensures
            r@ == value,
    {
        BigNumber::from_i64(value as i64)
    }
}

impl FromSpecImpl<i16> for BigNumber {
    open spec fn obeys_from_spec() -> bool {
        false
    }

    open spec fn from_spec(v: i16) -> BigNumber {
        arbitrary()
    }
}

impl From<i8> for BigNumber {
    fn from(value: i8) -> (r: Self)
        ensures
            r@ == value,
    {
        BigNumber::from_i64(value as i64)
    }
}

impl FromSpecImpl<i8> for BigNumber {
    open spec fn obeys_from_spec() -> bool {
        false
    }

    open spec fn from_spec(v: i8) -> BigNumber {
        arbitrary()
    }
}

impl From<isize> for BigNumber {
    fn from(value: isize) -> (r: Self)
        ensures
            r@ == value,
    {
        BigNumber::from_i64(value as i64)
    }
}

impl FromSpecImpl<isize> for BigNumber {
    open spec fn obeys_from_spec() -> bool {
        false
    }

    open spec fn from_spec(v: isize) -> BigNumber {
        arbitrary()
    }
}

impl From<i128> for BigNumber {
    fn from(value: i128) -> (r: Self)
        ensures
            r@ == value,
    {
        BigNumber::from_i128(value)
    }
}

impl FromSpecImpl<i128> for BigNumber {
    open spec fn obeys_from_spec() -> bool {
        false
    }

    open spec fn from_spec(v: i128) -> BigNumber {
        arbitrary()
    }
}

} // verus!
