//! Bytes, serialized forms, equality and order of numbers of the OpenSSL backend.
use vstd::prelude::*;
use vstd::slice::{slice_subrange, slice_to_vec};
use vstd::string::StringSliceAdditionalSpecFns;
use vstd::std_specs::cmp::{PartialEqSpecImpl, PartialOrdSpecImpl};
use core::cmp::Ordering;
use crate::bytes::{be_value, min_bytes, ct_eq_bytes, lemma_min_bytes, lemma_be_value_skip_zeros};
use crate::crypto::words::{abs, bit_length};
use crate::crypto::int_order;
use crate::crypto::serial::{serial_bytes, compact_form, compact_value, readable_value};
use crate::error::{Error, Result};
use crate::hex::{encode_signed_hex, decode_signed_hex, signed_hex_chars, signed_hex_decode};
use crate::openssl_backend::bn::{BigNumber, fits, max_bits};
use crate::openssl_backend::ssl::ssl_compare;

verus! {

impl BigNumber {
    /// Convert a byte sequence to a big number: the value of the big-endian bytes, with the
    /// leading zero bytes dropped, as `BN_bin2bn` reads them.
    pub fn from_slice(b: &[u8]) -> (r: Self)
        requires
            fits(be_value(b@) as int),
        ensures
            r@ == be_value(b@),
    {
        let mut start: usize = 0;
        while start < b.len() && b[start] == 0
            invariant
                0 <= start <= b@.len(),
                forall|i: int| 0 <= i < start ==> b@[i] == 0,
            decreases b@.len() - start,
        {
            start = start + 1;
        }
        let magnitude = slice_to_vec(slice_subrange(b, start, b.len()));
        proof {
            lemma_be_value_skip_zeros(b@, start as int);
            assert(magnitude@ =~= b@.subrange(start as int, b@.len() as int));
            assert(abs(be_value(b@) as int) == be_value(b@));
        }
        let r = BigNumber { negative: false, magnitude };
        proof {
            use_type_invariant(&r);
            r.lemma_parts();
        }
        r
    }

    /// Convert this big number to a big-endian byte sequence: the shortest bytes of the
    /// magnitude, none for zero.
    pub fn to_bytes(&self) -> (r: Vec<u8>)
        ensures
            r@ == min_bytes(abs(self@)),
            be_value(r@) == abs(self@),
    {
        proof {
            use_type_invariant(self);
            self.lemma_parts();
        }
        self.magnitude.clone()
    }

    /// Convert this big number to a big-endian byte sequence and store it in `buffer`.
    /// The sign is not included
    pub fn copy_bytes_into_buffer(&self, buffer: &mut [u8]) -> (r: Result<()>)
        ensures
            old(buffer)@.len() != min_bytes(abs(self@)).len() ==> (r matches Err(Error::BufferLength { expected, actual })
                && expected == min_bytes(abs(self@)).len() && actual == old(buffer)@.len()
                && final(buffer)@ == old(buffer)@),
            old(buffer)@.len() == min_bytes(abs(self@)).len() ==> (r is Ok && final(buffer)@ == min_bytes(abs(self@))),
    {
        let bytes = self.to_bytes();
        let expected = bytes.len();
        if buffer.len() != expected {
            return Err(Error::BufferLength { expected, actual: buffer.len() });
        }
        let mut i: usize = 0;
        while i < expected
            invariant
                bytes@.len() == expected,
                buffer@.len() == expected,
                0 <= i <= expected,
                forall|j: int| 0 <= j < i ==> buffer@[j] == bytes@[j],
            decreases expected - i,
        {
            buffer[i] = bytes[i];
            i = i + 1;
        }
        proof {
            assert(buffer@ =~= bytes@);
        }
        Ok(())
    }

    /// Compares two numbers without branching on the contents of their bytes: equal signs and
    /// equal magnitudes.
    pub fn ct_eq(&self, other: &Self) -> (r: bool)
        ensures
            r == (self@ == other@),
    {
        proof {
            use_type_invariant(self);
            use_type_invariant(other);
            self.lemma_parts();
            other.lemma_parts();
        }
        let lhs = self.to_bytes();
        let rhs = other.to_bytes();
        ct_eq_bytes(self.is_negative(), lhs.as_slice(), other.is_negative(), rhs.as_slice())
    }

    /// The magnitude bytes that both serialized forms hold: a single zero byte for zero.
    fn serial_magnitude(&self) -> (r: Vec<u8>)
        ensures
            r@ == serial_bytes(self@),
    {
        let mut bytes = self.to_bytes();
        if bytes.len() == 0 {
            bytes.push(0);
            proof {
                lemma_min_bytes(abs(self@));
                assert(bytes@ =~= seq![0u8]);
            }
        } else {
            proof {
                lemma_min_bytes(abs(self@));
            }
        }
        bytes
    }

    /// The readable serialized form: `-` for a negative value, then two lower-case hexadecimal
    /// digits per magnitude byte; zero is `00`.
    pub fn to_readable_hex(&self) -> (r: String)
        ensures
            r@ == signed_hex_chars(self@ < 0, serial_bytes(self@)),
    {
        let bytes = self.serial_magnitude();
        encode_signed_hex(self.is_negative(), bytes.as_slice())
    }

    /// The compact serialized form: a sign byte, then the magnitude bytes.
    pub fn to_compact_bytes(&self) -> (r: Vec<u8>)
        ensures
            r@ == compact_form(self@),
    {
        let mut bytes = self.serial_magnitude();
        let sign: u8 = if self.is_negative() { 1 } else { 0 };
        bytes.insert(0, sign);
        proof {
            assert(bytes@ =~= compact_form(self@));
        }
        bytes
    }

    /// Reads the readable serialized form; `None` for text that is not an optional `-`
    /// followed by hexadecimal digits. No digits at all stand for zero, and zero is never
    /// negative.
    pub fn from_readable_hex(s: &str) -> (r: Option<Self>)
        requires
            signed_hex_decode(s.spec_bytes()) matches Some((_, b)) ==> bit_length(be_value(b)) <= max_bits(),
        ensures
            signed_hex_decode(s.spec_bytes()) is None ==> r is None,
            signed_hex_decode(s.spec_bytes()) matches Some((negative, b)) ==> (r matches Some(v)
                && v@ == readable_value(negative, b)),
    {
        let (negative, bytes) = match decode_signed_hex(s) {
            Some(decoded) => decoded,
            None => {
                return None;
            },
        };
        let value = if bytes.len() == 0 {
            proof {
                assert(be_value(bytes@) == 0);
            }
            BigNumber::zero()
        } else {
            BigNumber::from_slice(bytes.as_slice())
        };
        if value.is_zero() {
            Some(BigNumber::zero())
        } else if negative {
            Some(value.neg())
        } else {
            Some(value)
        }
    }

    /// Reads the compact serialized form; `None` for no bytes at all. A sign byte of 1 makes
    /// the value negative, any other sign byte positive; no magnitude bytes stand for zero.
    pub fn from_compact_bytes(s: &[u8]) -> (r: Option<Self>)
        requires
            s@.len() > 0 ==> bit_length(be_value(s@.drop_first())) <= max_bits(),
        ensures
            s@.len() == 0 ==> r is None,
            s@.len() > 0 ==> (r matches Some(v) && v@ == compact_value(s@)),
    {
        if s.len() == 0 {
            return None;
        }
        let negative = s[0] == 1;
        let magnitude = slice_subrange(s, 1, s.len());
        proof {
            assert(magnitude@ =~= s@.drop_first());
        }
        let value = BigNumber::from_slice(magnitude);
        if value.is_zero() {
            Some(BigNumber::zero())
        } else if negative {
            Some(value.neg())
        } else {
            Some(value)
        }
    }
}

impl PartialEq for BigNumber {
    fn eq(&self, other: &Self) -> (r: bool) {
        ssl_compare(self, other) == 0
    }
}

impl PartialEqSpecImpl for BigNumber {
    open spec fn obeys_eq_spec() -> bool {
        true
    }

    open spec fn eq_spec(&self, other: &BigNumber) -> bool {
        self@ == other@
    }
}

impl Eq for BigNumber {}

impl PartialOrd for BigNumber {
    fn partial_cmp(&self, other: &Self) -> (r: Option<Ordering>) {
        let c = ssl_compare(self, other);
        if c < 0 {
            Some(Ordering::Less)
        } else if c == 0 {
            Some(Ordering::Equal)
        } else {
            Some(Ordering::Greater)
        }
    }
}

impl PartialOrdSpecImpl for BigNumber {
    open spec fn obeys_partial_cmp_spec() -> bool {
        true
    }

    open spec fn partial_cmp_spec(&self, other: &BigNumber) -> Option<Ordering> {
        Some(int_order(self@, other@))
    }
}

} // verus!
