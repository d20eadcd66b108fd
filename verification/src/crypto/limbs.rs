//! Calls into `crypto_bigint::BoxedUint` on magnitudes held as little-endian 64-bit words.
//!
//! Each function converts its words to a `BoxedUint` (`BoxedUint::from_words`), makes one call,
//! and converts the result back (`BoxedUint::to_words`). Their contracts are trusted: they state
//! what the `crypto-bigint` source computes, over [`words_value`].
use vstd::prelude::*;
use vstd::arithmetic::power2::pow2;
use crate::crypto::words::{words_value, bit_length, inverts};
use crate::bytes::be_value;
use crate::digits::radix_text;
use vstd::arithmetic::power::pow;
use crypto_bigint::{BoxedUint, ConcatenatingMul, Gcd, Integer, Limb, Odd, Resize};
use crypto_bigint::modular::{BoxedMontyForm, BoxedMontyParams};

verus! {

/// `BoxedUint::is_zero`: whether the words hold zero.
#[verifier::external_body]
pub(crate) fn words_is_zero(a: &Vec<u64>) -> (r: bool)
    ensures
        r == (words_value(a@) == 0),
{
    bool::from(BoxedUint::from_words(a.iter().copied()).is_zero())
}

/// `BoxedUint::bits`: the bit length of the value.
#[verifier::external_body]
pub(crate) fn words_bits(a: &Vec<u64>) -> (r: u32)
    requires
        64 * a@.len() <= u32::MAX,
    ensures
        r == bit_length(words_value(a@)),
{
    BoxedUint::from_words(a.iter().copied()).bits()
}

/// `Resize::resize`: the same value in `ceil(bits / 64)` words. `resize` panics when the value
/// does not fit; `requires` leaves that out.
#[verifier::external_body]
pub(crate) fn words_resize(a: Vec<u64>, bits: u32) -> (r: Vec<u64>)
    requires
        64 * a@.len() <= u32::MAX,
        bit_length(words_value(a@)) <= bits,
    ensures
        r@.len() == (bits + 63) / 64,
        words_value(r@) == words_value(a@),
{
    BoxedUint::from_words(a).resize(bits).to_words().into_vec()
}

/// `BoxedUint::cmp_vartime`: -1, 0 or 1 as `a` is below, equal to or above `b`.
#[verifier::external_body]
pub(crate) fn words_compare(a: &Vec<u64>, b: &Vec<u64>) -> (r: i8)
    ensures
        r == (if words_value(a@) < words_value(b@) {
            -1int
        } else if words_value(a@) == words_value(b@) {
            0int
        } else {
            1int
        }),
{
    match BoxedUint::from_words(a.iter().copied()).cmp_vartime(&BoxedUint::from_words(b.iter().copied())) {
        core::cmp::Ordering::Less => -1,
        core::cmp::Ordering::Equal => 0,
        core::cmp::Ordering::Greater => 1,
    }
}

/// `BoxedUint::carrying_add` with no incoming carry: the sum in as many words as the longer
/// operand, and the carry out of them.
#[verifier::external_body]
pub(crate) fn words_carrying_add(a: &Vec<u64>, b: &Vec<u64>) -> (r: (Vec<u64>, u64))
    requires
        64 * a@.len() <= u32::MAX,
        64 * b@.len() <= u32::MAX,
    ensures
        r.0@.len() == (if a@.len() < b@.len() { b@.len() } else { a@.len() }),
        r.1 <= 1,
        words_value(r.0@) + r.1 * pow2((64 * r.0@.len()) as nat) == words_value(a@) + words_value(b@),
{
    let (sum, carry) = BoxedUint::from_words(a.iter().copied())
        .carrying_add(&BoxedUint::from_words(b.iter().copied()), Limb::ZERO);
    (sum.to_words().into_vec(), carry.0)
}

/// `BoxedUint::borrowing_sub` with no incoming borrow, the borrow out dropped: the difference
/// in as many words as the longer operand.
#[verifier::external_body]
pub(crate) fn words_borrowing_sub(a: &Vec<u64>, b: &Vec<u64>) -> (r: Vec<u64>)
    requires
        64 * a@.len() <= u32::MAX,
        64 * b@.len() <= u32::MAX,
    ensures
        r@.len() == (if a@.len() < b@.len() { b@.len() } else { a@.len() }),
        words_value(b@) <= words_value(a@) ==> words_value(r@) == words_value(a@) - words_value(b@),
{
    BoxedUint::from_words(a.iter().copied())
        .borrowing_sub(&BoxedUint::from_words(b.iter().copied()), Limb::ZERO)
        .0
        .to_words()
        .into_vec()
}

/// `ConcatenatingMul::concatenating_mul`: the product in as many words as both operands.
#[verifier::external_body]
pub(crate) fn words_mul(a: &Vec<u64>, b: &Vec<u64>) -> (r: Vec<u64>)
    requires
        64 * (a@.len() + b@.len()) <= u32::MAX,
    ensures
        r@.len() == a@.len() + b@.len(),
        words_value(r@) == words_value(a@) * words_value(b@),
{
    BoxedUint::from_words(a.iter().copied())
        .concatenating_mul(&BoxedUint::from_words(b.iter().copied()))
        .to_words()
        .into_vec()
}

/// `BoxedUint::div_rem_vartime`: the quotient in the dividend's words and the remainder in
/// the divisor's.
#[verifier::external_body]
pub(crate) fn words_div_rem(a: &Vec<u64>, b: &Vec<u64>) -> (r: (Vec<u64>, Vec<u64>))
    requires
        words_value(b@) != 0,
        64 * a@.len() <= u32::MAX,
        64 * b@.len() <= u32::MAX,
    ensures
        r.0@.len() == a@.len(),
        r.1@.len() == b@.len(),
        words_value(r.0@) == words_value(a@) / words_value(b@),
        words_value(r.1@) == words_value(a@) % words_value(b@),
{
    let b = BoxedUint::from_words(b.iter().copied());
    let (q, r) = BoxedUint::from_words(a.iter().copied()).div_rem_vartime(b.as_nz_vartime().unwrap());
    (q.to_words().into_vec(), r.to_words().into_vec())
}

/// `BoxedUint::rem_vartime`: the remainder in the modulus's words.
#[verifier::external_body]
pub(crate) fn words_rem(a: &Vec<u64>, m: &Vec<u64>) -> (r: Vec<u64>)
    requires
        words_value(m@) != 0,
        64 * a@.len() <= u32::MAX,
        64 * m@.len() <= u32::MAX,
    ensures
        r@.len() == m@.len(),
        words_value(r@) == words_value(a@) % words_value(m@),
{
    let m = BoxedUint::from_words(m.iter().copied());
    BoxedUint::from_words(a.iter().copied()).rem_vartime(m.as_nz_vartime().unwrap()).to_words().into_vec()
}

/// The greatest common divisor, by Euclid's algorithm; `gcd(a, 0) = a`.
pub open spec fn nat_gcd(a: nat, b: nat) -> nat
    decreases b,
{
    if b == 0 {
        a
    } else {
        nat_gcd(b, a % b)
    }
}

/// `Gcd::gcd_vartime`: the greatest common divisor.
#[verifier::external_body]
pub(crate) fn words_gcd(a: &Vec<u64>, b: &Vec<u64>) -> (r: Vec<u64>)
    requires
        64 * a@.len() <= u32::MAX,
        64 * b@.len() <= u32::MAX,
    ensures
        r@.len() <= (if a@.len() < b@.len() { b@.len() } else { a@.len() }),
        words_value(r@) == nat_gcd(words_value(a@), words_value(b@)),
{
    BoxedUint::from_words(a.iter().copied())
        .gcd_vartime(&BoxedUint::from_words(b.iter().copied()))
        .to_words()
        .into_vec()
}

/// `BoxedUint::shl_assign`: the value shifted left within its words. `shl_assign` panics when
/// the shift reaches the precision; `requires` leaves that out.
#[verifier::external_body]
pub(crate) fn words_shl(a: Vec<u64>, shift: u32) -> (r: Vec<u64>)
    requires
        shift < 64 * a@.len() <= u32::MAX,
    ensures
        r@.len() == a@.len(),
        words_value(r@) == (words_value(a@) * pow2(shift as nat)) % pow2((64 * a@.len()) as nat),
{
    let mut v = BoxedUint::from_words(a);
    v.shl_assign(shift);
    v.to_words().into_vec()
}

/// `BoxedUint::shr_assign`: the value shifted right. `shr_assign` panics when the shift reaches
/// the precision; `requires` leaves that out.
#[verifier::external_body]
pub(crate) fn words_shr(a: Vec<u64>, shift: u32) -> (r: Vec<u64>)
    requires
        shift < 64 * a@.len() <= u32::MAX,
    ensures
        r@.len() == a@.len(),
        words_value(r@) == words_value(a@) / pow2(shift as nat),
{
    let mut v = BoxedUint::from_words(a);
    v.shr_assign(shift);
    v.to_words().into_vec()
}

/// `BoxedUint::trailing_zeros`: for a nonzero value, the exponent of the largest power of two
/// that divides it.
#[verifier::external_body]
pub(crate) fn words_trailing_zeros(a: &Vec<u64>) -> (r: u32)
    requires
        64 * a@.len() <= u32::MAX,
    ensures
        words_value(a@) != 0 ==> words_value(a@) % pow2(r as nat) == 0
            && (words_value(a@) / pow2(r as nat)) % 2 == 1,
{
    BoxedUint::from_words(a.iter().copied()).trailing_zeros()
}

/// `AddAssign<u8>` with one: the successor. The addition panics on overflow; `requires`
/// leaves that out.
#[verifier::external_body]
pub(crate) fn words_increment(a: Vec<u64>) -> (r: Vec<u64>)
    requires
        1 <= a@.len(),
        64 * a@.len() <= u32::MAX,
        words_value(a@) + 1 < pow2((64 * a@.len()) as nat),
    ensures
        r@.len() == a@.len(),
        words_value(r@) == words_value(a@) + 1,
{
    let mut v = BoxedUint::from_words(a);
    v += 1u8;
    v.to_words().into_vec()
}


/// `Integer::is_odd`: whether the value is odd.
#[verifier::external_body]
pub(crate) fn words_is_odd(a: &Vec<u64>) -> (r: bool)
    ensures
        r == (words_value(a@) % 2 == 1),
{
    bool::from(BoxedUint::from_words(a.iter().copied()).is_odd())
}

/// `BoxedUint::bit_vartime`: whether bit `index` of the value is set; false beyond the words.
#[verifier::external_body]
pub(crate) fn words_bit(a: &Vec<u64>, index: u32) -> (r: bool)
    ensures
        r == ((words_value(a@) / pow2(index as nat)) % 2 == 1),
{
    BoxedUint::from_words(a.iter().copied()).bit_vartime(index)
}

/// `BoxedUint::add_mod`: the sum of two residues modulo `m`, all in the same number of words.
#[verifier::external_body]
pub(crate) fn words_add_mod(a: &Vec<u64>, b: &Vec<u64>, m: &Vec<u64>) -> (r: Vec<u64>)
    requires
        words_value(m@) != 0,
        a@.len() == m@.len(),
        b@.len() == m@.len(),
        64 * m@.len() <= u32::MAX,
        words_value(a@) < words_value(m@),
        words_value(b@) < words_value(m@),
    ensures
        r@.len() == m@.len(),
        words_value(r@) == (words_value(a@) + words_value(b@)) % words_value(m@),
{
    let m = BoxedUint::from_words(m.iter().copied());
    BoxedUint::from_words(a.iter().copied())
        .add_mod(&BoxedUint::from_words(b.iter().copied()), m.as_nz_vartime().unwrap())
        .to_words()
        .into_vec()
}

/// `BoxedUint::sub_mod`: the difference of two residues modulo `m`, all in the same number of
/// words.
#[verifier::external_body]
pub(crate) fn words_sub_mod(a: &Vec<u64>, b: &Vec<u64>, m: &Vec<u64>) -> (r: Vec<u64>)
    requires
        words_value(m@) != 0,
        a@.len() == m@.len(),
        b@.len() == m@.len(),
        64 * m@.len() <= u32::MAX,
        words_value(a@) < words_value(m@),
        words_value(b@) < words_value(m@),
    ensures
        r@.len() == m@.len(),
        words_value(r@) == (words_value(a@) - words_value(b@)) % (words_value(m@) as int),
{
    let m = BoxedUint::from_words(m.iter().copied());
    BoxedUint::from_words(a.iter().copied())
        .sub_mod(&BoxedUint::from_words(b.iter().copied()), m.as_nz_vartime().unwrap())
        .to_words()
        .into_vec()
}

/// `BoxedUint::mul_mod`: the product modulo `m`, in the modulus's words.
#[verifier::external_body]
pub(crate) fn words_mul_mod(a: &Vec<u64>, b: &Vec<u64>, m: &Vec<u64>) -> (r: Vec<u64>)
    requires
        words_value(m@) != 0,
        64 * (a@.len() + b@.len()) <= u32::MAX,
        64 * m@.len() <= u32::MAX,
    ensures
        r@.len() == m@.len(),
        words_value(r@) == (words_value(a@) * words_value(b@)) % words_value(m@),
{
    let m = BoxedUint::from_words(m.iter().copied());
    BoxedUint::from_words(a.iter().copied())
        .mul_mod(&BoxedUint::from_words(b.iter().copied()), m.as_nz_vartime().unwrap())
        .to_words()
        .into_vec()
}

/// `BoxedUint::square_mod`: the square modulo `m`, in the modulus's words.
#[verifier::external_body]
pub(crate) fn words_square_mod(a: &Vec<u64>, m: &Vec<u64>) -> (r: Vec<u64>)
    requires
        words_value(m@) != 0,
        64 * (a@.len() + a@.len()) <= u32::MAX,
        64 * m@.len() <= u32::MAX,
    ensures
        r@.len() == m@.len(),
        words_value(r@) == (words_value(a@) * words_value(a@)) % words_value(m@),
{
    let m = BoxedUint::from_words(m.iter().copied());
    BoxedUint::from_words(a.iter().copied()).square_mod(m.as_nz_vartime().unwrap()).to_words().into_vec()
}

/// `BoxedUint::invert_mod`: for a modulus above one, the inverse below the modulus when one
/// exists, and `None` when none does. For the modulus one the outcome is left unstated.
#[verifier::external_body]
pub(crate) fn words_invert_mod(a: &Vec<u64>, m: &Vec<u64>) -> (r: Option<Vec<u64>>)
    requires
        words_value(m@) != 0,
        a@.len() == m@.len(),
        64 * m@.len() <= u32::MAX,
    ensures
        r matches Some(v) ==> v@.len() == m@.len(),
        words_value(m@) > 1 ==> (r matches Some(v) ==> words_value(v@) < words_value(m@)
            && (words_value(a@) * words_value(v@)) % words_value(m@) == 1),
        words_value(m@) > 1 ==> (r is None ==> forall|x: int| !#[trigger] inverts(words_value(a@) as int, x, words_value(m@) as int)),
{
    let m = BoxedUint::from_words(m.iter().copied());
    let inverse = BoxedUint::from_words(a.iter().copied()).invert_mod(m.as_nz_vartime().unwrap());
    Option::<BoxedUint>::from(inverse).map(|v| v.to_words().into_vec())
}

/// `BoxedMontyForm::pow`: for an odd modulus above one, the power of a residue modulo it,
/// in the modulus's words (through `BoxedMontyParams::new_vartime`, `BoxedMontyForm::new` and
/// `BoxedMontyForm::retrieve`).
#[verifier::external_body]
pub(crate) fn words_pow_mod_odd(base: &Vec<u64>, exponent: &Vec<u64>, m: &Vec<u64>) -> (r: Vec<u64>)
    requires
        words_value(m@) % 2 == 1,
        words_value(m@) > 1,
        base@.len() == m@.len(),
        words_value(base@) < words_value(m@),
        64 * m@.len() <= u32::MAX,
        64 * exponent@.len() <= u32::MAX,
    ensures
        r@.len() == m@.len(),
        words_value(r@) == pow(words_value(base@) as int, words_value(exponent@)) % (words_value(m@) as int),
{
    let odd = Option::<Odd<BoxedUint>>::from(Odd::new(BoxedUint::from_words(m.iter().copied()))).unwrap();
    let params = BoxedMontyParams::new_vartime(odd);
    BoxedMontyForm::new(BoxedUint::from_words(base.iter().copied()), &params)
        .pow(&BoxedUint::from_words(exponent.iter().copied()))
        .retrieve()
        .to_words()
        .into_vec()
}

/// `BoxedUint::from_be_slice_vartime`: the value of big-endian bytes, in as many words as the
/// bytes fill.
#[verifier::external_body]
pub(crate) fn words_from_be_bytes(bytes: &[u8]) -> (r: Vec<u64>)
    requires
        1 <= bytes@.len(),
        8 * bytes@.len() <= u32::MAX,
    ensures
        r@.len() == (bytes@.len() + 7) / 8,
        words_value(r@) == be_value(bytes@),
{
    BoxedUint::from_be_slice_vartime(bytes).to_words().into_vec()
}

/// `BoxedUint::to_be_bytes`: the value as big-endian bytes, eight per word.
#[verifier::external_body]
pub(crate) fn words_to_be_bytes(a: &Vec<u64>) -> (r: Vec<u8>)
    requires
        64 * a@.len() <= u32::MAX,
    ensures
        r@.len() == 8 * a@.len(),
        be_value(r@) == words_value(a@),
{
    BoxedUint::from_words(a.iter().copied()).to_be_bytes().into_vec()
}

/// `BoxedUint::to_string_radix_vartime`: the digits of the value in base `radix`, most
/// significant first, lower-case, without leading zeros (zero, held in at least one word, is
/// `0`; no words at all give no digits, which `requires` leaves out). It panics outside
/// `2..=36`; `requires` leaves that out.
#[verifier::external_body]
pub(crate) fn words_to_string_radix(a: &Vec<u64>, radix: u32) -> (r: String)
    requires
        2 <= radix <= 36,
        1 <= a@.len(),
    ensures
        r@ == radix_text(words_value(a@), radix as nat, false),
{
    BoxedUint::from_words(a.iter().copied()).to_string_radix_vartime(radix)
}

} // verus!
