//! Bytes, text, equality and order of numbers of the `num-bigint` backend.
use vstd::prelude::*;
use vstd::slice::slice_subrange;
use vstd::string::StringSliceAdditionalSpecFns;
use subtle::ConstantTimeEq;
use crate::bytes::{be_value, min_bytes, ct_eq_u8, lemma_min_bytes};
use crate::digits::radix_text;
use crate::error::{Error, Result};
use crate::hex::{encode_signed_hex, decode_signed_hex, signed_hex_chars, signed_hex_decode};
use crate::crypto::words::abs;
use crate::crypto::bn::bits_of;
use crate::crypto::serial::{serial_bytes, compact_form, compact_value, readable_value};
use crate::crypto::encoding::lemma_minimal_bytes_bits;
use crate::rust::bn::BigNumber;
use crate::rust::big::{big_from_bytes_be, big_to_bytes_be, big_to_str_radix};
use crate::rust::digits::{digit_at, lemma_digits_value_eq};
use vstd::std_specs::cmp::PartialEqSpecImpl;

verus! {

/// `subtle::ConstantTimeEq::ct_eq` on 32-bit digits, read back as a `bool`.
#[verifier::external_body]
fn ct_eq_u32(a: u32, b: u32) -> (r: bool)
    ensures
        r == (a == b),
{
    bool::from(a.ct_eq(&b))
}

impl BigNumber {
    /// Convert a byte sequence to a big number
    pub fn from_slice(b: &[u8]) -> (r: Self)
        ensures
            r@ == be_value(b@),
    {
        big_from_bytes_be(b)
    }

    /// Convert this big number to a big-endian byte sequence: the shortest bytes of the
    /// magnitude, and a single zero byte for zero.
    pub fn to_bytes(&self) -> (r: Vec<u8>)
        ensures
            r@ == serial_bytes(self@),
            be_value(r@) == abs(self@),
            self@ != 0 ==> r@.len() == (bits_of(self@) + 7) / 8,
            self@ == 0 ==> r@.len() == 1,
    {
        let bytes = big_to_bytes_be(self);
        proof {
            if self@ != 0 {
                lemma_min_bytes(abs(self@));
                lemma_minimal_bytes_bits(min_bytes(abs(self@)));
            } else {
                let z = seq![0u8];
                assert(z.drop_last() =~= Seq::<u8>::empty());
                assert(be_value(z.drop_last()) == 0);
                assert(z.last() == 0);
                assert(be_value(z) == 0);
            }
        }
        bytes
    }

    /// Convert this big number to a big-endian byte sequence and store it in `buffer`.
    /// The sign is not included
    pub fn copy_bytes_into_buffer(&self, buffer: &mut [u8]) -> (r: Result<()>)
        ensures
            old(buffer)@.len() != serial_bytes(self@).len() ==> (r matches Err(Error::BufferLength { expected, actual })
                && expected == serial_bytes(self@).len() && actual == old(buffer)@.len()
                && final(buffer)@ == old(buffer)@),
            old(buffer)@.len() == serial_bytes(self@).len() ==> (r is Ok && final(buffer)@ == serial_bytes(self@)),
    {
        let bytes = self.to_bytes();
        let expected = bytes.len();
        if buffer.len() != expected {
            return Err(Error::BufferLength { expected, actual: buffer.len() });
        }
        let mut i: usize = 0;
        while i < expected
            invariant
                bytes@.len() == expected,
                buffer@.len() == expected,
                0 <= i <= expected,
                forall|j: int| 0 <= j < i ==> buffer@[j] == bytes@[j],
            decreases expected - i,
        {
            buffer[i] = bytes[i];
            i = i + 1;
        }
        proof {
            assert(buffer@ =~= bytes@);
        }
        Ok(())
    }

    /// The number written in base `radix`: `-` for a negative value, then the digits of the
    /// magnitude, lower-case and without leading zeros.
    pub fn to_string_radix(&self, radix: u32) -> (r: String)
        requires
            2 <= radix <= 36,
        ensures
            r@ == (if self@ < 0 { seq!['-'] } else { Seq::<char>::empty() }) + radix_text(abs(self@), radix as nat, false),
    {
        big_to_str_radix(self, radix)
    }

    /// Compares two numbers without branching on the contents of their digits: equal signs and
    /// equal magnitudes, the shorter magnitude read as padded with zero digits.
    pub fn ct_eq(&self, other: &Self) -> (r: bool)
        ensures
            r == (self@ == other@),
    {
        proof {
            use_type_invariant(self);
            use_type_invariant(other);
            self.lemma_parts();
            other.lemma_parts();
        }
        let lhs = &self.digits;
        let rhs = &other.digits;
        let len = if lhs.len() < rhs.len() { rhs.len() } else { lhs.len() };
        let mut difference: u32 = 0;
        let mut index: usize = 0;
        while index < len
            invariant
                len == (if lhs@.len() < rhs@.len() { rhs@.len() } else { lhs@.len() }),
                0 <= index <= len,
                (difference == 0) <==> forall|j: int| 0 <= j < index ==> #[trigger] digit_at(lhs@, j)
                    == digit_at(rhs@, j),
            decreases len - index,
        {
            let lhs_digit = if index < lhs.len() { lhs[index] } else { 0 };
            let rhs_digit = if index < rhs.len() { rhs[index] } else { 0 };
            let ghost before = difference;
            difference = difference | (lhs_digit ^ rhs_digit);
            proof {
                assert((before | (lhs_digit ^ rhs_digit)) == 0 <==> (before == 0 && lhs_digit == rhs_digit))
                    by (bit_vector);
                assert(lhs_digit == digit_at(lhs@, index as int));
                assert(rhs_digit == digit_at(rhs@, index as int));
                if difference == 0 {
                    assert forall|j: int| 0 <= j < index + 1 implies #[trigger] digit_at(lhs@, j)
                        == digit_at(rhs@, j) by {
                        if j < index {
                            assert(digit_at(lhs@, j) == digit_at(rhs@, j));
                        }
                    }
                } else if before == 0 {
                    assert(digit_at(lhs@, index as int) != digit_at(rhs@, index as int));
                } else {
                    let j = choose|j: int| 0 <= j < index && #[trigger] digit_at(lhs@, j)
                        != digit_at(rhs@, j);
                    assert(digit_at(lhs@, j) != digit_at(rhs@, j));
                }
            }
            index = index + 1;
        }
        proof {
            lemma_digits_value_eq(lhs@, rhs@);
            if difference == 0 {
                assert forall|i: int| 0 <= i implies #[trigger] digit_at(lhs@, i) == digit_at(rhs@, i) by {
                    if i >= len {
                        assert(digit_at(lhs@, i) == 0 && digit_at(rhs@, i) == 0);
                    }
                }
            }
        }
        let lhs_sign: u8 = if self.negative { 1 } else { 0 };
        let rhs_sign: u8 = if other.negative { 1 } else { 0 };
        let same_sign = ct_eq_u8(lhs_sign, rhs_sign);
        let same_magnitude = ct_eq_u32(difference, 0);
        same_sign && same_magnitude
    }

    /// The readable serialized form: `-` for a negative value, then two lower-case hexadecimal
    /// digits per magnitude byte; zero is `00`.
    pub fn to_readable_hex(&self) -> (r: String)
        ensures
            r@ == signed_hex_chars(self@ < 0, serial_bytes(self@)),
    {
        let bytes = self.to_bytes();
        encode_signed_hex(self.is_negative(), bytes.as_slice())
    }

    /// The compact serialized form: a sign byte, then the magnitude bytes.
    pub fn to_compact_bytes(&self) -> (r: Vec<u8>)
        ensures
            r@ == compact_form(self@),
    {
        let mut bytes = self.to_bytes();
        let sign: u8 = if self.is_negative() { 1 } else { 0 };
        bytes.insert(0, sign);
        proof {
            assert(bytes@ =~= compact_form(self@));
        }
        bytes
    }

    /// Reads the readable serialized form; `None` for text that is not an optional `-`
    /// followed by hexadecimal digits. No digits at all stand for zero, and zero is never
    /// negative.
    pub fn from_readable_hex(s: &str) -> (r: Option<Self>)
        ensures
            signed_hex_decode(s.spec_bytes()) is None ==> r is None,
            signed_hex_decode(s.spec_bytes()) matches Some((negative, b)) ==> (r matches Some(v)
                && v@ == readable_value(negative, b)),
    {
        let (negative, bytes) = match decode_signed_hex(s) {
            Some(decoded) => decoded,
            None => {
                return None;
            },
        };
        let value = if bytes.len() == 0 {
            proof {
                assert(be_value(bytes@) == 0);
            }
            BigNumber::zero()
        } else {
            BigNumber::from_slice(bytes.as_slice())
        };
        if value.is_zero() {
            Some(BigNumber::zero())
        } else if negative {
            Some(value.neg())
        } else {
            Some(value)
        }
    }

    /// Reads the compact serialized form; `None` for no bytes at all. A sign byte of 1 makes
    /// the value negative, any other sign byte positive; no magnitude bytes stand for zero.
    pub fn from_compact_bytes(s: &[u8]) -> (r: Option<Self>)
        ensures
            s@.len() == 0 ==> r is None,
            s@.len() > 0 ==> (r matches Some(v) && v@ == compact_value(s@)),
    {
        if s.len() == 0 {
            return None;
        }
        let negative = s[0] == 1;
        let magnitude = slice_subrange(s, 1, s.len());
        proof {
            assert(magnitude@ =~= s@.drop_first());
        }
        let value = BigNumber::from_slice(magnitude);
        if value.is_zero() {
            Some(BigNumber::zero())
        } else if negative {
            Some(value.neg())
        } else {
            Some(value)
        }
    }
}

impl PartialEq for BigNumber {
    fn eq(&self, other: &Self) -> (r: bool) {
        proof {
            use_type_invariant(self);
            use_type_invariant(other);
            self.lemma_parts();
            other.lemma_parts();
            if self@ == other@ {
                self.lemma_unique(other);
            }
        }
        if self.negative != other.negative || self.digits.len() != other.digits.len() {
            return false;
        }
        let mut i: usize = 0;
        while i < self.digits.len()
            invariant
                self.digits@.len() == other.digits@.len(),
                self.negative == other.negative,
                0 <= i <= self.digits@.len(),
                forall|j: int| 0 <= j < i ==> self.digits@[j] == other.digits@[j],
                self@ == other@ ==> self.digits@ == other.digits@,
            decreases self.digits@.len() - i,
        {
            if self.digits[i] != other.digits[i] {
                return false;
            }
            i = i + 1;
        }
        proof {
            assert(self.digits@ =~= other.digits@);
        }
        true
    }
}

impl PartialEqSpecImpl for BigNumber {
    open spec fn obeys_eq_spec() -> bool {
        true
    }

    open spec fn eq_spec(&self, other: &BigNumber) -> bool {
        self@ == other@
    }
}

impl Eq for BigNumber {}

} // verus!
