//! Big numbers as big-endian bytes of their magnitude.
use vstd::prelude::*;
use vstd::slice::slice_subrange;
use crate::bytes::{
    be_value, min_bytes, lemma_be_value_bound, lemma_be_value_lower, lemma_be_value_skip_zeros,
    lemma_be_value_zeros, lemma_minimal_is_min_bytes,
};
use crate::crypto::bn::{BigNumber, bits_of};
use crate::crypto::limbs::{
    words_from_be_bytes, words_to_be_bytes, words_is_zero, words_to_string_radix,
};
use crate::digits::radix_text;
use crate::text::string_push_str;
use crate::crypto::words::{bit_length, max_bits, abs, lemma_bit_length_bound};
use crate::error::{Error, Result};

verus! {

/// Bytes that start with a nonzero byte have `8 (len - 1) < bits <= 8 len`.
pub(crate) proof fn lemma_minimal_bytes_bits(s: Seq<u8>)
    requires
        s.len() > 0,
        s[0] != 0,
    ensures
        8 * (s.len() - 1) < bit_length(be_value(s)) <= 8 * s.len(),
        s.len() == (bit_length(be_value(s)) + 7) / 8,
{
    lemma_be_value_bound(s);
    lemma_be_value_lower(s);
    lemma_bit_length_bound(be_value(s), (8 * s.len()) as nat);
    lemma_bit_length_bound(be_value(s), (8 * (s.len() - 1)) as nat);
}

impl BigNumber {
    /// Convert a byte sequence to a big number
    pub fn from_slice(b: &[u8]) -> (r: Self)
        requires
            bit_length(be_value(b@)) <= max_bits(),
        ensures
            r@ == be_value(b@),
    {
        let mut first_nonzero: usize = 0;
        while first_nonzero < b.len() && b[first_nonzero] == 0
            invariant
                0 <= first_nonzero <= b@.len(),
                forall|i: int| 0 <= i < first_nonzero ==> b@[i] == 0,
            decreases b@.len() - first_nonzero,
        {
            first_nonzero = first_nonzero + 1;
        }
        proof {
            lemma_be_value_skip_zeros(b@, first_nonzero as int);
        }
        if first_nonzero == b.len() {
            proof {
                lemma_be_value_zeros(b@);
            }
            return BigNumber::zero();
        }
        let tail = slice_subrange(b, first_nonzero, b.len());
        proof {
            lemma_minimal_bytes_bits(tail@);
        }
        let value = words_from_be_bytes(tail);
        BigNumber::from_sign_magnitude(false, value)
    }

    /// Convert this big number to a big-endian byte sequence, the sign is not included
    pub fn to_bytes(&self) -> (r: Vec<u8>)
        ensures
            r@ == min_bytes(abs(self@)),
            be_value(r@) == abs(self@),
            r@.len() == (bits_of(self@) + 7) / 8,
    {
        proof {
            use_type_invariant(self);
            self.lemma_parts();
        }
        if words_is_zero(&self.value) {
            proof {
                assert(bit_length(0) == 0);
                assert(min_bytes(0) =~= Seq::<u8>::empty());
            }
            return Vec::new();
        }
        let mut bytes = words_to_be_bytes(&self.value);
        let mut start: usize = 0;
        while start < bytes.len() && bytes[start] == 0
            invariant
                0 <= start <= bytes@.len(),
                forall|i: int| 0 <= i < start ==> bytes@[i] == 0,
            decreases bytes@.len() - start,
        {
            start = start + 1;
        }
        proof {
            lemma_be_value_skip_zeros(bytes@, start as int);
            if start == bytes.len() {
                lemma_be_value_zeros(bytes@);
            }
        }
        let ghost whole = bytes@;
        let tail = bytes.split_off(start);
        proof {
            assert(tail@ == whole.subrange(start as int, whole.len() as int));
            lemma_minimal_bytes_bits(tail@);
            lemma_minimal_is_min_bytes(tail@);
        }
        tail
    }

    /// Convert this big number to a big-endian byte sequence and store it in `buffer`.
    /// The sign is not included
    pub fn copy_bytes_into_buffer(&self, buffer: &mut [u8]) -> (r: Result<()>)
        ensures
            old(buffer)@.len() != (bits_of(self@) + 7) / 8 ==> (r matches Err(Error::BufferLength { expected, actual })
                && expected == (bits_of(self@) + 7) / 8 && actual == old(buffer)@.len()
                && final(buffer)@ == old(buffer)@),
            old(buffer)@.len() == (bits_of(self@) + 7) / 8 ==> (r is Ok
                && final(buffer)@.len() == old(buffer)@.len() && be_value(final(buffer)@) == abs(self@)),
    {
        proof {
            use_type_invariant(self);
            self.lemma_parts();
        }
        let expected = (self.bit_length() + 7) / 8;
        if buffer.len() != expected {
            return Err(Error::BufferLength { expected, actual: buffer.len() });
        }
        let bytes = self.to_bytes();
        let mut i: usize = 0;
        while i < expected
            invariant
                bytes@.len() == expected,
                buffer@.len() == expected,
                0 <= i <= expected,
                forall|j: int| 0 <= j < i ==> buffer@[j] == bytes@[j],
            decreases expected - i,
        {
            buffer[i] = bytes[i];
            i = i + 1;
        }
        proof {
            assert(buffer@ =~= bytes@);
        }
        Ok(())
    }
}

impl BigNumber {
    /// The number written in base `radix`: `-` for a negative value, then the digits of the
    /// magnitude, lower-case and without leading zeros.
    pub fn to_string_radix(&self, radix: u32) -> (r: String)
        requires
            2 <= radix <= 36,
        ensures
            r@ == (if self@ < 0 { seq!['-'] } else { Seq::<char>::empty() }) + radix_text(abs(self@), radix as nat, false),
    {
        proof {
            use_type_invariant(self);
            self.lemma_parts();
        }
        let digits = words_to_string_radix(&self.value, radix);
        let mut text = self.sign.display_text();
        string_push_str(&mut text, digits.as_str());
        text
    }
}

} // verus!
