//! The serialized forms of big numbers: readable text (a sign and hexadecimal digits of the
//! magnitude) and compact bytes (a sign byte and the bytes of the magnitude).
use vstd::prelude::*;
use vstd::slice::slice_subrange;
use vstd::string::StringSliceAdditionalSpecFns;
use crate::bytes::{be_value, min_bytes, lemma_min_bytes};
use crate::hex::{
    encode_signed_hex, decode_signed_hex, signed_hex_chars, signed_hex_decode, ascii_bytes, lemma_hex_round_trip,
};
use crate::crypto::bn::BigNumber;
use crate::crypto::words::{bit_length, max_bits, abs};

verus! {

/// The magnitude bytes that serialization writes: the shortest bytes of the magnitude, and a
/// single zero byte for zero.
pub open spec fn serial_bytes(x: int) -> Seq<u8> {
    if x == 0 {
        seq![0u8]
    } else {
        min_bytes(abs(x))
    }
}

/// The compact form: a sign byte (1 for a negative value, 0 otherwise), then the magnitude
/// bytes.
pub open spec fn compact_form(x: int) -> Seq<u8> {
    seq![if x < 0 { 1u8 } else { 0u8 }] + serial_bytes(x)
}

/// The number that a nonempty compact form stands for: the value of the bytes after the first,
/// negated when the first byte is 1.
pub open spec fn compact_value(s: Seq<u8>) -> int {
    let m = be_value(s.drop_first()) as int;
    if s[0] == 1 {
        -m
    } else {
        m
    }
}

/// The number that decoded readable text stands for: the value of the bytes, negated when the
/// text starts with `-`.
pub open spec fn readable_value(negative: bool, bytes: Seq<u8>) -> int {
    if negative {
        -be_value(bytes)
    } else {
        be_value(bytes) as int
    }
}

impl BigNumber {
    /// The magnitude bytes that both serialized forms hold.
    fn serial_magnitude(&self) -> (r: Vec<u8>)
        ensures
            r@ == serial_bytes(self@),
    {
        let mut bytes = self.to_bytes();
        proof {
            lemma_min_bytes(abs(self@));
        }
        if bytes.len() == 0 {
            bytes.push(0);
            proof {
                assert(bytes@ =~= seq![0u8]);
            }
        }
        bytes
    }

    /// The readable serialized form: `-` for a negative value, then two lower-case hexadecimal
    /// digits per magnitude byte; zero is `00`.
    pub fn to_readable_hex(&self) -> (r: String)
        ensures
            r@ == signed_hex_chars(self@ < 0, serial_bytes(self@)),
    {
        let bytes = self.serial_magnitude();
        encode_signed_hex(self.is_negative(), bytes.as_slice())
    }

    /// The compact serialized form: a sign byte, then the magnitude bytes.
    pub fn to_compact_bytes(&self) -> (r: Vec<u8>)
        ensures
            r@ == compact_form(self@),
    {
        let mut bytes = self.serial_magnitude();
        let sign: u8 = if self.is_negative() { 1 } else { 0 };
        bytes.insert(0, sign);
        proof {
            assert(bytes@ =~= compact_form(self@));
        }
        bytes
    }

    /// Reads the readable serialized form; `None` for text that is not an optional `-`
    /// followed by hexadecimal digits. No digits at all stand for zero, and zero is never
    /// negative.
    pub fn from_readable_hex(s: &str) -> (r: Option<Self>)
        requires
            signed_hex_decode(s.spec_bytes()) matches Some((_, b)) ==> bit_length(be_value(b)) <= max_bits(),
        ensures
            signed_hex_decode(s.spec_bytes()) is None ==> r is None,
            signed_hex_decode(s.spec_bytes()) matches Some((negative, b)) ==> (r matches Some(v)
                && v@ == readable_value(negative, b)),
    {
        let (negative, bytes) = match decode_signed_hex(s) {
            Some(decoded) => decoded,
            None => {
                return None;
            },
        };
        let value = if bytes.len() == 0 {
            BigNumber::zero()
        } else {
            BigNumber::from_slice(bytes.as_slice())
        };
        if value.is_zero() {
            Some(BigNumber::zero())
        } else if negative {
            Some(value.neg())
        } else {
            Some(value)
        }
    }

    /// Reads the compact serialized form; `None` for no bytes at all. A sign byte of 1 makes
    /// the value negative, any other sign byte positive; no magnitude bytes stand for zero.
    pub fn from_compact_bytes(s: &[u8]) -> (r: Option<Self>)
        requires
            s@.len() > 0 ==> bit_length(be_value(s@.drop_first())) <= max_bits(),
        ensures
            s@.len() == 0 ==> r is None,
            s@.len() > 0 ==> (r matches Some(v) && v@ == compact_value(s@)),
    {
        if s.len() == 0 {
            return None;
        }
        let negative = s[0] == 1;
        let value = if s.len() == 1 {
            proof {
                assert(s@.drop_first() =~= Seq::<u8>::empty());
            }
            BigNumber::zero()
        } else {
            let magnitude = slice_subrange(s, 1, s.len());
            proof {
                assert(magnitude@ =~= s@.drop_first());
            }
            BigNumber::from_slice(magnitude)
        };
        if value.is_zero() {
            Some(BigNumber::zero())
        } else if negative {
            Some(value.neg())
        } else {
            Some(value)
        }
    }
}

/// Reading the compact form of a number gives the number back.
pub proof fn lemma_compact_round_trip(x: int)
    ensures
        compact_form(x).len() > 0,
        compact_value(compact_form(x)) == x,
{
    let s = compact_form(x);
    assert(s.drop_first() =~= serial_bytes(x));
    if x == 0 {
        let z = seq![0u8];
        assert(z.drop_last() =~= Seq::<u8>::empty());
        assert(be_value(z.drop_last()) == 0);
        assert(z.last() == 0);
        assert(be_value(z) == 0);
    } else {
        lemma_min_bytes(abs(x));
    }
}

/// Reading the readable form of a number gives the number back.
pub proof fn lemma_readable_round_trip(x: int)
    ensures
        signed_hex_decode(ascii_bytes(signed_hex_chars(x < 0, serial_bytes(x)))) == Some((x < 0, serial_bytes(x))),
        readable_value(x < 0, serial_bytes(x)) == x,
{
    lemma_hex_round_trip(x < 0, serial_bytes(x));
    lemma_compact_round_trip(x);
    assert(compact_form(x).drop_first() =~= serial_bytes(x));
}

} // verus!
