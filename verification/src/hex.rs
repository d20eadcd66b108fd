//! Hexadecimal text for signed magnitudes: `-` for negative values, then two lower-case
//! digits per byte.
use vstd::prelude::*;
use crate::text::{string_push, string_with_capacity};
use vstd::string::StringSliceAdditionalSpecFns;
use vstd::slice::slice_subrange;

verus! {

/// The lower-case hexadecimal digit of a value below 16.
pub open spec fn hex_digit(n: int) -> char {
    if n < 10 {
        (48 + n) as char
    } else {
        (87 + n) as char
    }
}

/// The two digits of each byte, most significant digit first.
pub open spec fn hex_chars(bytes: Seq<u8>) -> Seq<char>
    decreases bytes.len(),
{
    if bytes.len() == 0 {
        Seq::empty()
    } else {
        hex_chars(bytes.drop_last()).push(hex_digit((bytes.last() / 16) as int)).push(
            hex_digit((bytes.last() % 16) as int),
        )
    }
}

/// The text that [`encode_signed_hex`] produces.
pub open spec fn signed_hex_chars(negative: bool, bytes: Seq<u8>) -> Seq<char> {
    if negative {
        seq!['-'] + hex_chars(bytes)
    } else {
        hex_chars(bytes)
    }
}

/// The value of one hexadecimal digit, upper or lower case.
pub open spec fn nibble(b: u8) -> Option<u8> {
    if 48 <= b <= 57 {
        Some((b - 48) as u8)
    } else if 97 <= b <= 102 {
        Some((b - 87) as u8)
    } else if 65 <= b <= 70 {
        Some((b - 55) as u8)
    } else {
        None
    }
}

/// Decodes an even number of digits, two per byte.
pub open spec fn hex_pairs(s: Seq<u8>) -> Option<Seq<u8>>
    decreases s.len(),
{
    if s.len() < 2 {
        if s.len() == 0 {
            Some(Seq::empty())
        } else {
            None
        }
    } else {
        match (hex_pairs(s.subrange(0, s.len() - 2)), nibble(s[s.len() - 2]), nibble(s[s.len() - 1])) {
            (Some(rest), Some(hi), Some(lo)) => Some(rest.push((hi * 16 + lo) as u8)),
            _ => None,
        }
    }
}

/// Decodes hexadecimal digits; an odd count makes the first digit a byte of its own.
pub open spec fn hex_decode(s: Seq<u8>) -> Option<Seq<u8>> {
    if s.len() % 2 == 1 {
        match (nibble(s[0]), hex_pairs(s.drop_first())) {
            (Some(first), Some(rest)) => Some(seq![first] + rest),
            _ => None,
        }
    } else {
        hex_pairs(s)
    }
}

/// Decodes an optional leading `-` followed by hexadecimal digits.
pub open spec fn signed_hex_decode(s: Seq<u8>) -> Option<(bool, Seq<u8>)> {
    if s.len() > 0 && s[0] == 45 {
        match hex_decode(s.drop_first()) {
            Some(bytes) => Some((true, bytes)),
            None => None,
        }
    } else {
        match hex_decode(s) {
            Some(bytes) => Some((false, bytes)),
            None => None,
        }
    }
}

fn digit_char(n: u8) -> (c: char)
    requires
        n < 16,
    ensures
        c == hex_digit(n as int),
{
    if n < 10 {
        (48 + n) as char
    } else {
        (87 + n) as char
    }
}

/// Writes `bytes` as hexadecimal digits, after a `-` when `negative` is set.
pub fn encode_signed_hex(negative: bool, bytes: &[u8]) -> (encoded: String)
    ensures
        encoded@ == signed_hex_chars(negative, bytes@),
{
    let capacity: usize = if bytes.len() <= (usize::MAX - 1) / 2 {
        bytes.len() * 2 + if negative { 1 } else { 0 }
    } else {
        0
    };
    let mut encoded = string_with_capacity(capacity);
    if negative {
        string_push(&mut encoded, '-');
    }
    let ghost prefix = encoded@;
    let mut i: usize = 0;
    while i < bytes.len()
        invariant
            i <= bytes.len(),
            prefix == (if negative { seq!['-'] } else { Seq::<char>::empty() }),
            encoded@ == prefix + hex_chars(bytes@.subrange(0, i as int)),
        decreases bytes.len() - i,
    {
        let byte = bytes[i];
        let high = byte >> 4;
        let low = byte & 0x0f;
        assert(byte >> 4 == byte / 16 && byte & 0x0f == byte % 16) by (bit_vector);
        string_push(&mut encoded, digit_char(high));
        string_push(&mut encoded, digit_char(low));
        let ghost next = bytes@.subrange(0, i + 1);
        assert(next.drop_last() =~= bytes@.subrange(0, i as int));
        i = i + 1;
    }
    assert(bytes@.subrange(0, bytes.len() as int) =~= bytes@);
    encoded
}

fn nibble_of(byte: u8) -> (n: Option<u8>)
    ensures
        n == nibble(byte),
{
    if 48 <= byte && byte <= 57 {
        Some(byte - 48)
    } else if 97 <= byte && byte <= 102 {
        Some(byte - 87)
    } else if 65 <= byte && byte <= 70 {
        Some(byte - 55)
    } else {
        None
    }
}

proof fn lemma_nibble_bound(b: u8)
    ensures
        nibble(b) matches Some(n) ==> n < 16,
{
}

/// Decodes hexadecimal digits held as bytes.
pub fn decode_hex_bytes(encoded: &[u8]) -> (decoded: Option<Vec<u8>>)
    ensures
        decoded matches Some(v) ==> hex_decode(encoded@) == Some(v@),
        decoded is None ==> hex_decode(encoded@) is None,
{
    let len = encoded.len();
    let mut bytes: Vec<u8> = Vec::new();
    let mut start: usize = 0;
    if len % 2 == 1 {
        match nibble_of(encoded[0]) {
            Some(n) => bytes.push(n),
            None => return None,
        }
        start = 1;
    }
    let ghost s = encoded@.subrange(start as int, len as int);
    let pairs = (len - start) / 2;
    let mut i: usize = 0;
    while i < pairs
        invariant
            start <= 1,
            start == len % 2,
            len == encoded@.len(),
            s == encoded@.subrange(start as int, len as int),
            pairs * 2 == len - start,
            i <= pairs,
            start == 1 ==> nibble(encoded@[0]) is Some,
            hex_pairs(s.subrange(0, 2 * i)) is Some,
            bytes@ == (if start == 1 { seq![nibble(encoded@[0]).unwrap()] } else { Seq::<u8>::empty() })
                + hex_pairs(s.subrange(0, 2 * i)).unwrap(),
        decreases pairs - i,
    {
        let hi = nibble_of(encoded[start + 2 * i]);
        let lo = nibble_of(encoded[start + 2 * i + 1]);
        let ghost t = s.subrange(0, 2 * i + 2);
        assert(t.subrange(0, t.len() - 2) =~= s.subrange(0, 2 * i));
        assert(t[t.len() - 2] == encoded@[start + 2 * i]);
        assert(t[t.len() - 1] == encoded@[start + 2 * i + 1]);
        match (hi, lo) {
            (Some(h), Some(l)) => {
                proof {
                    lemma_nibble_bound(encoded@[start + 2 * i]);
                    lemma_nibble_bound(encoded@[start + 2 * i + 1]);
                }
                bytes.push(h * 16 + l);
            },
            _ => {
                proof {
                    lemma_pairs_prefix_none(s, (2 * i + 2) as nat);
                }
                if start == 1 {
                    assert(s =~= encoded@.drop_first());
                } else {
                    assert(s =~= encoded@);
                }
                return None;
            },
        }
        i = i + 1;
    }
    assert(s.subrange(0, 2 * i) =~= s);
    if start == 1 {
        assert(s =~= encoded@.drop_first());
    } else {
        assert(s =~= encoded@);
    }
    Some(bytes)
}

/// A prefix of even length that fails to decode makes the whole fail.
proof fn lemma_pairs_prefix_none(s: Seq<u8>, k: nat)
    requires
        k <= s.len(),
        k % 2 == s.len() % 2,
        hex_pairs(s.subrange(0, k as int)) is None,
    ensures
        hex_pairs(s) is None,
    decreases s.len() - k,
{
    if k < s.len() {
        let t = s.subrange(0, (k + 2) as int);
        assert(t.subrange(0, t.len() - 2) =~= s.subrange(0, k as int));
        lemma_pairs_prefix_none(s, k + 2);
    } else {
        assert(s.subrange(0, k as int) =~= s);
    }
}

/// Decodes hexadecimal text.
pub fn decode_hex(encoded: &str) -> (decoded: Option<Vec<u8>>)
    ensures
        decoded matches Some(v) ==> hex_decode(encoded.spec_bytes()) == Some(v@),
        decoded is None ==> hex_decode(encoded.spec_bytes()) is None,
{
    decode_hex_bytes(encoded.as_bytes())
}

/// Decodes hexadecimal text with an optional leading `-`.
pub fn decode_signed_hex(encoded: &str) -> (decoded: Option<(bool, Vec<u8>)>)
    ensures
        decoded matches Some((negative, v)) ==> signed_hex_decode(encoded.spec_bytes()) == Some((negative, v@)),
        decoded is None ==> signed_hex_decode(encoded.spec_bytes()) is None,
{
    let bytes = encoded.as_bytes();
    if bytes.len() > 0 && bytes[0] == 45 {
        let magnitude = slice_subrange(bytes, 1, bytes.len());
        match decode_hex_bytes(magnitude) {
            Some(v) => Some((true, v)),
            None => None,
        }
    } else {
        match decode_hex_bytes(bytes) {
            Some(v) => Some((false, v)),
            None => None,
        }
    }
}

/// The bytes of ASCII characters.
pub open spec fn ascii_bytes(chars: Seq<char>) -> Seq<u8> {
    chars.map_values(|c: char| c as u8)
}

/// A digit that [`hex_digit`] writes reads back as its value.
proof fn lemma_nibble_of_digit(n: int)
    requires
        0 <= n < 16,
    ensures
        nibble(hex_digit(n) as u8) == Some(n as u8),
        hex_digit(n) as u8 != 45,
{
}

/// The digits that [`hex_chars`] writes decode, two at a time, to the bytes again.
proof fn lemma_hex_pairs_round_trip(bytes: Seq<u8>)
    ensures
        ascii_bytes(hex_chars(bytes)).len() == 2 * bytes.len(),
        hex_pairs(ascii_bytes(hex_chars(bytes))) == Some(bytes),
    decreases bytes.len(),
{
    if bytes.len() > 0 {
        let d = bytes.drop_last();
        let b = bytes.last();
        lemma_hex_pairs_round_trip(d);
        let hi = (b / 16) as int;
        let lo = (b % 16) as int;
        lemma_nibble_of_digit(hi);
        lemma_nibble_of_digit(lo);
        let s = ascii_bytes(hex_chars(bytes));
        assert(s.subrange(0, s.len() - 2) =~= ascii_bytes(hex_chars(d)));
        assert(s[s.len() - 2] == hex_digit(hi) as u8);
        assert(s[s.len() - 1] == hex_digit(lo) as u8);
        assert((hi * 16 + lo) as u8 == b);
        assert(d.push(b) =~= bytes);
    } else {
        assert(ascii_bytes(hex_chars(bytes)) =~= Seq::<u8>::empty());
    }
}

/// Reading back what [`encode_signed_hex`] writes gives the sign and the bytes again.
pub proof fn lemma_hex_round_trip(negative: bool, bytes: Seq<u8>)
    ensures
        signed_hex_decode(ascii_bytes(signed_hex_chars(negative, bytes))) == Some((negative, bytes)),
{
    lemma_hex_pairs_round_trip(bytes);
    let digits = ascii_bytes(hex_chars(bytes));
    let s = ascii_bytes(signed_hex_chars(negative, bytes));
    if negative {
        assert(s.drop_first() =~= digits);
        assert(s[0] == 45);
    } else {
        assert(s =~= digits);
        if bytes.len() > 0 {
            let b = bytes.last();
            lemma_nibble_of_digit((b / 16) as int);
            lemma_nibble_of_digit((b % 16) as int);
            assert forall|i: int| 0 <= i < digits.len() implies digits[i] != 45 by {
                lemma_digits_not_minus(bytes, i);
            }
        }
    }
}

/// No digit that [`hex_chars`] writes is `-`.
proof fn lemma_digits_not_minus(bytes: Seq<u8>, i: int)
    requires
        0 <= i < 2 * bytes.len(),
    ensures
        ascii_bytes(hex_chars(bytes))[i] != 45,
    decreases bytes.len(),
{
    let d = bytes.drop_last();
    let b = bytes.last();
    lemma_nibble_of_digit((b / 16) as int);
    lemma_nibble_of_digit((b % 16) as int);
    lemma_hex_pairs_round_trip(d);
    if i < 2 * d.len() {
        lemma_digits_not_minus(d, i);
        assert(ascii_bytes(hex_chars(bytes))[i] == ascii_bytes(hex_chars(d))[i]);
    }
}

} // verus!
