//! Modular arithmetic: operands are reduced to residues below the modulus's magnitude, and the
//! residues are combined by `crypto-bigint`'s modular operations.
use vstd::prelude::*;
use vstd::arithmetic::power::{pow, lemma_pow_adds, lemma_pow0, lemma_pow1};
use vstd::arithmetic::power2::{pow2, lemma_pow2_pos, lemma_pow2_unfold};
use vstd::arithmetic::div_mod::{
    lemma_small_mod, lemma_mod_self_0, lemma_fundamental_div_mod,
    lemma_fundamental_div_mod_converse, lemma_mul_mod_noop_left, lemma_mul_mod_noop_general,
    lemma_mod_pos_bound, lemma_add_mod_noop, lemma_sub_mod_noop, lemma_mod_bound,
    lemma_mod_breakdown,
};
use crate::crypto::sign::Sign;
use crate::crypto::bn::BigNumber;
use crate::crypto::limbs::{
    words_compare, words_resize, words_rem, words_is_zero, words_borrowing_sub, words_add_mod,
    words_sub_mod, words_mul_mod, words_square_mod, words_invert_mod, words_pow_mod_odd, words_is_odd,
    words_bit, words_bits,
};
use crate::modspec::{
    abs, invertible, inverse, lemma_inverse_is, reduce, modpow_value, moddiv_value,
};
use crate::crypto::words::{
    words_value, bit_length, limbs_for, max_bits, lemma_words_value_bound,
    lemma_bit_length_bound, lemma_limbs_for_bits,
};

verus! {

/// The Euclidean remainder of a negated value.
pub proof fn lemma_mod_neg(w: nat, d: nat)
    requires
        d > 0,
    ensures
        (-w) % (d as int) == (if w % d == 0 { 0 } else { d - w % d }),
{
    lemma_fundamental_div_mod(w as int, d as int);
    let q = (w / d) as int;
    let r = (w % d) as int;
    if r == 0 {
        assert(-w == (-q) * d + 0) by (nonlinear_arith)
            requires
                w == d * q + r,
                r == 0,
        ;
        lemma_fundamental_div_mod_converse(-w, d as int, -q, 0);
    } else {
        assert(-w == (-q - 1) * d + (d - r)) by (nonlinear_arith)
            requires
                w == d * q + r,
        ;
        lemma_fundamental_div_mod_converse(-w, d as int, -q - 1, d - r);
    }
}

/// The words of a modulus: nonzero, shortest and within the backend's precision.
pub(crate) open spec fn modulus_words(m: Seq<u64>) -> bool {
    &&& words_value(m) != 0
    &&& m.len() == limbs_for(bit_length(words_value(m)))
    &&& bit_length(words_value(m)) <= max_bits()
}

proof fn lemma_modulus_words(m: Seq<u64>)
    requires
        modulus_words(m),
    ensures
        64 * m.len() <= 0x7fff_0000,
        1 <= m.len(),
{
    lemma_limbs_for_bits(bit_length(words_value(m)));
}

impl BigNumber {
    /// This value reduced modulo the magnitude `m`, in as many words as the modulus.
    pub(crate) fn residue(&self, m: &Vec<u64>) -> (r: Vec<u64>)
        requires
            modulus_words(m@),
        ensures
            r@.len() == m@.len(),
            words_value(r@) == self@ % (words_value(m@) as int),
    {
        proof {
            use_type_invariant(self);
            self.lemma_parts();
            lemma_modulus_words(m@);
            lemma_words_value_bound(m@);
        }
        let ghost mm = words_value(m@);
        let precision = (64 * m.len()) as u32;
        let order = words_compare(&self.value, m);
        let remainder = if order < 0 {
            proof {
                lemma_bit_length_bound(self.magnitude(), precision as nat);
                lemma_small_mod(self.magnitude(), mm);
            }
            words_resize(self.value.clone(), precision)
        } else if order == 0 {
            let zero = vec![0u64];
            proof {
                crate::crypto::bn::lemma_single_word(0);
                assert(zero@ =~= seq![0u64]);
                lemma_mod_self_0(mm as int);
            }
            words_resize(zero, precision)
        } else {
            words_rem(&self.value, m)
        };
        proof {
            lemma_mod_pos_bound(self.magnitude() as int, mm as int);
        }
        if self.sign.is_negative() && !words_is_zero(&remainder) {
            proof {
                lemma_mod_neg(self.magnitude(), mm);
            }
            words_borrowing_sub(m, &remainder)
        } else {
            proof {
                if self.sign == Sign::Minus {
                    lemma_mod_neg(self.magnitude(), mm);
                }
            }
            remainder
        }
    }

    /// A residue as a number.
    pub(crate) fn from_residue(value: Vec<u64>) -> (r: Self)
        requires
            64 * value@.len() <= 0x7fff_0000,
        ensures
            r@ == words_value(value@),
    {
        proof {
            crate::crypto::words::lemma_words_bits(value@);
        }
        BigNumber::from_sign_magnitude(false, value)
    }

    /// Compute self mod n
    pub fn nmod(&self, n: &Self) -> (r: Self)
        ensures
            r@ == reduce(self@, n@),
    {
        proof {
            use_type_invariant(n);
            n.lemma_parts();
        }
        if words_is_zero(&n.value) {
            return BigNumber::zero();
        }
        proof {
            lemma_modulus_words(n.value@);
        }
        BigNumber::from_residue(self.residue(&n.value))
    }

    /// Compute (self + rhs) mod n
    pub fn modadd(&self, rhs: &Self, n: &Self) -> (r: Self)
        ensures
            r@ == reduce(self@ + rhs@, n@),
    {
        proof {
            use_type_invariant(n);
            n.lemma_parts();
        }
        if words_is_zero(&n.value) {
            return BigNumber::zero();
        }
        proof {
            lemma_modulus_words(n.value@);
        }
        let m = &n.value;
        let lhs = self.residue(m);
        let rhs_residue = rhs.residue(m);
        proof {
            let mm = words_value(m@) as int;
            lemma_mod_bound(self@, mm);
            lemma_mod_bound(rhs@, mm);
            lemma_add_mod_noop(self@, rhs@, mm);
        }
        BigNumber::from_residue(words_add_mod(&lhs, &rhs_residue, m))
    }

    /// Compute (self - rhs) mod n
    pub fn modsub(&self, rhs: &Self, n: &Self) -> (r: Self)
        ensures
            r@ == reduce(self@ - rhs@, n@),
    {
        proof {
            use_type_invariant(n);
            n.lemma_parts();
        }
        if words_is_zero(&n.value) {
            return BigNumber::zero();
        }
        proof {
            lemma_modulus_words(n.value@);
        }
        let m = &n.value;
        let lhs = self.residue(m);
        let rhs_residue = rhs.residue(m);
        proof {
            let mm = words_value(m@) as int;
            lemma_mod_bound(self@, mm);
            lemma_mod_bound(rhs@, mm);
            lemma_sub_mod_noop(self@, rhs@, mm);
        }
        let value = words_sub_mod(&lhs, &rhs_residue, m);
        BigNumber::from_residue(value)
    }

    /// Compute (self * rhs) mod n
    pub fn modmul(&self, rhs: &Self, n: &Self) -> (r: Self)
        ensures
            r@ == reduce(self@ * rhs@, n@),
    {
        proof {
            use_type_invariant(n);
            n.lemma_parts();
        }
        if words_is_zero(&n.value) {
            return BigNumber::zero();
        }
        proof {
            lemma_modulus_words(n.value@);
        }
        let m = &n.value;
        let lhs = self.residue(m);
        let rhs_residue = rhs.residue(m);
        proof {
            let mm = words_value(m@) as int;
            lemma_mul_mod_noop_general(self@, rhs@, mm);
        }
        BigNumber::from_residue(words_mul_mod(&lhs, &rhs_residue, m))
    }

    /// Compute -self mod n
    pub fn modneg(&self, n: &Self) -> (r: Self)
        ensures
            r@ == reduce(-self@, n@),
    {
        proof {
            use_type_invariant(n);
            n.lemma_parts();
        }
        if words_is_zero(&n.value) {
            return BigNumber::zero();
        }
        proof {
            lemma_modulus_words(n.value@);
        }
        let m = &n.value;
        let value = self.residue(m);
        proof {
            let mm = words_value(m@) as int;
            lemma_mod_bound(self@, mm);
            lemma_sub_mod_noop(0, self@, mm);
            lemma_small_mod(0, mm as nat);
            lemma_mod_neg(words_value(value@), mm as nat);
            lemma_small_mod(words_value(value@), mm as nat);
        }
        if words_is_zero(&value) {
            BigNumber::from_residue(value)
        } else {
            BigNumber::from_residue(words_borrowing_sub(m, &value))
        }
    }
}


/// The modulus's words that give one at full precision.
fn one_in_words_of(m: &Vec<u64>) -> (r: Vec<u64>)
    requires
        modulus_words(m@),
    ensures
        r@.len() == m@.len(),
        words_value(r@) == 1,
{
    proof {
        lemma_modulus_words(m@);
        crate::crypto::bn::lemma_single_word(1);
        vstd::arithmetic::power2::lemma2_to64();
        lemma_bit_length_bound(1, 64);
    }
    let one = vec![1u64];
    assert(one@ =~= seq![1u64]);
    words_resize(one, (64 * m.len()) as u32)
}

/// One step of square-and-multiply: the exponent's low bits grow by one bit.
proof fn lemma_pow_step(b: int, e: nat, k: nat, m: int)
    requires
        m > 1,
    ensures
        (e / pow2(k)) % 2 == 1 ==> e % pow2(k + 1) == e % pow2(k) + pow2(k),
        (e / pow2(k)) % 2 != 1 ==> e % pow2(k + 1) == e % pow2(k),
        pow(b, pow2(k + 1)) == pow(b, pow2(k)) * pow(b, pow2(k)),
        ((pow(b, e % pow2(k)) % m) * (pow(b, pow2(k)) % m)) % m == pow(b, e % pow2(k) + pow2(k)) % m,
        ((pow(b, pow2(k)) % m) * (pow(b, pow2(k)) % m)) % m == pow(b, pow2(k + 1)) % m,
{
    lemma_pow2_pos(k);
    lemma_pow2_unfold(k + 1);
    lemma_mod_breakdown(e as int, pow2(k) as int, 2);
    assert(pow2(k) * 2 == pow2(k + 1));
    vstd::arithmetic::div_mod::lemma_mod_bound((e / pow2(k)) as int, 2);
    assert(pow2(k) * ((e / pow2(k)) % 2) == (if (e / pow2(k)) % 2 == 1 { pow2(k) } else { 0 })) by (nonlinear_arith)
        requires
            0 <= (e / pow2(k)) % 2 < 2,
    ;
    lemma_pow_adds(b, pow2(k), pow2(k));
    lemma_pow_adds(b, e % pow2(k), pow2(k));
    lemma_mul_mod_noop_general(pow(b, e % pow2(k)), pow(b, pow2(k)), m);
    lemma_mul_mod_noop_general(pow(b, pow2(k)), pow(b, pow2(k)), m);
}

/// `base ^ exponent mod m` by square-and-multiply over the exponent's bits, low bits first.
fn pow_mod_bits(base: Vec<u64>, exponent: &Vec<u64>, m: &Vec<u64>) -> (r: Vec<u64>)
    requires
        modulus_words(m@),
        words_value(m@) > 1,
        base@.len() == m@.len(),
        words_value(base@) < words_value(m@),
        64 * exponent@.len() <= 0x7fff_0000,
    ensures
        r@.len() == m@.len(),
        words_value(r@) == pow(words_value(base@) as int, words_value(exponent@)) % (words_value(m@) as int),
{
    proof {
        lemma_modulus_words(m@);
    }
    let ghost b0 = words_value(base@) as int;
    let ghost e = words_value(exponent@);
    let ghost mm = words_value(m@) as int;
    let mut base = base;
    let mut result = one_in_words_of(m);
    let exponent_bits = words_bits(exponent);
    proof {
        vstd::arithmetic::power2::lemma2_to64();
        lemma_pow0(b0);
        lemma_small_mod(1, mm as nat);
        lemma_pow1(b0);
        lemma_small_mod(b0 as nat, mm as nat);
    }
    let mut bit: u32 = 0;
    while bit < exponent_bits
        invariant
            exponent_bits == bit_length(e),
            e == words_value(exponent@),
            b0 == words_value(base@) || bit > 0,
            mm == words_value(m@),
            modulus_words(m@),
            mm > 1,
            64 * m@.len() <= 0x7fff_0000,
            bit <= exponent_bits,
            result@.len() == m@.len(),
            base@.len() == m@.len(),
            words_value(result@) == pow(b0, e % pow2(bit as nat)) % mm,
            bit < exponent_bits ==> words_value(base@) == pow(b0, pow2(bit as nat)) % mm,
        decreases exponent_bits - bit,
    {
        proof {
            lemma_pow_step(b0, e, bit as nat, mm);
        }
        let ghost old_result = words_value(result@);
        let set = words_bit(exponent, bit);
        assert(((bit + 1) as nat) == (bit as nat) + 1);
        if set {
            result = words_mul_mod(&result, &base, m);
        } else {
            assert((e / pow2(bit as nat)) % 2 != 1);
        }
        if bit + 1 < exponent_bits {
            base = words_square_mod(&base, m);
        }
        bit = bit + 1;
    }
    proof {
        lemma_bit_length_bound(e, bit_length(e));
        lemma_small_mod(e, pow2(bit_length(e)));
    }
    result
}

impl BigNumber {
    /// Computes the multiplicative inverse of this element, failing if the element is zero.
    pub fn invert(&self, n: &Self) -> (r: Option<Self>)
        ensures
            self@ == 0 || n@ == 0 || n@ == 1 ==> r is None,
            self@ != 0 && abs(n@) > 1 ==> (r is Some <==> invertible(self@ % (abs(n@) as int), abs(n@) as int)),
            self@ != 0 && abs(n@) > 1 ==> (r matches Some(v) ==> v@ == inverse(self@ % (abs(n@) as int), abs(n@) as int)),
    {
        if self.is_zero() || n.is_zero() || n.is_one() {
            return None;
        }
        proof {
            use_type_invariant(n);
            n.lemma_parts();
            lemma_modulus_words(n.value@);
        }
        let m = &n.value;
        let residue = self.residue(m);
        match words_invert_mod(&residue, m) {
            Some(v) => {
                proof {
                    if abs(n@) > 1 {
                        lemma_inverse_is(words_value(residue@) as int, words_value(v@) as int, abs(n@) as int);
                    }
                }
                Some(BigNumber::from_residue(v))
            },
            None => None,
        }
    }

    /// Compute (self * 1/rhs) mod n
    pub fn moddiv(&self, rhs: &Self, n: &Self) -> (r: Self)
        ensures
            r@ == moddiv_value(self@, rhs@, n@),
    {
        proof {
            use_type_invariant(n);
            n.lemma_parts();
        }
        if words_is_zero(&n.value) {
            return BigNumber::zero();
        }
        proof {
            lemma_modulus_words(n.value@);
        }
        let m = &n.value;
        let rhs_residue = rhs.residue(m);
        match words_invert_mod(&rhs_residue, m) {
            None => BigNumber::zero(),
            Some(inverse) => {
                let lhs = self.residue(m);
                proof {
                    let mm = abs(n@) as int;
                    if mm > 1 {
                        lemma_inverse_is(words_value(rhs_residue@) as int, words_value(inverse@) as int, mm);
                        lemma_mul_mod_noop_left(self@, words_value(inverse@) as int, mm);
                    }
                }
                BigNumber::from_residue(words_mul_mod(&lhs, &inverse, m))
            },
        }
    }

    /// Returns `(self ^ exponent) mod n`
    /// Note that this rounds down
    /// which makes a difference when given a negative `self` or `n`.
    /// The result will be in the interval `[0, n)` for `n > 0`
    pub fn modpow(&self, exponent: &Self, n: &Self) -> (r: Self)
        ensures
            r@ == modpow_value(self@, exponent@, n@),
    {
        proof {
            use_type_invariant(n);
            use_type_invariant(exponent);
            n.lemma_parts();
            exponent.lemma_parts();
        }
        if words_is_zero(&n.value) {
            return BigNumber::zero();
        }
        let m = &n.value;
        proof {
            lemma_modulus_words(m@);
            vstd::arithmetic::power2::lemma2_to64();
        }
        if words_bits(m) == 1 {
            proof {
                lemma_bit_length_bound(words_value(m@), 1);
            }
            return BigNumber::zero();
        }
        proof {
            if words_value(m@) <= 1 {
                lemma_bit_length_bound(words_value(m@), 0);
                assert(bit_length(1) == 1) by { assert(bit_length(0) == 0); }
            }
        }
        let ghost mm = words_value(m@) as int;
        let mut base = self.residue(m);
        if exponent.sign.is_negative() {
            match words_invert_mod(&base, m) {
                None => {
                    return BigNumber::zero();
                },
                Some(inverse) => {
                    proof {
                        lemma_inverse_is(words_value(base@) as int, words_value(inverse@) as int, mm);
                    }
                    base = inverse;
                },
            }
        }
        if exponent.is_zero() {
            proof {
                lemma_pow0(self@ % mm);
                lemma_small_mod(1, mm as nat);
            }
            return BigNumber::from_residue(one_in_words_of(m));
        }
        let value = if words_is_odd(m) {
            proof {
                vstd::arithmetic::div_mod::lemma_mod_bound(self@, mm);
            }
            words_pow_mod_odd(&base, &exponent.value, m)
        } else {
            pow_mod_bits(base, &exponent.value, m)
        };
        BigNumber::from_residue(value)
    }
}

} // verus!
