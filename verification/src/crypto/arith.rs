//! Signed arithmetic: the sign logic of the backend over magnitude operations of
//! `crypto-bigint`.
use vstd::prelude::*;
use vstd::arithmetic::power2::{pow2, lemma_pow2_pos, lemma_pow2_adds};
use vstd::arithmetic::div_mod::{
    lemma_fundamental_div_mod, lemma_fundamental_div_mod_converse, lemma_div_pos_is_pos,
    lemma_mod_multiples_basic, lemma_div_is_ordered,
};
use vstd::arithmetic::mul::lemma_mul_strict_inequality;
use crate::crypto::sign::Sign;
use crate::crypto::bn::{BigNumber, bits_of, fits, minimize};
use crate::group::{sum_of, product_of};
use crate::crypto::limbs::{
    words_carrying_add, words_borrowing_sub, words_compare, words_mul, words_div_rem, words_is_zero,
    words_shl, words_shr, words_trailing_zeros, words_increment, words_gcd, words_resize, words_bits,
    nat_gcd,
};
use crate::crypto::words::{
    words_value, bit_length, limbs_for, max_bits, abs, lemma_bit_length_bound, lemma_words_value_bound,
    lemma_limbs_for_bits, lemma_words_bits,
};

verus! {

/// Truncated division: the quotient rounded toward zero.
pub open spec fn trunc_div(a: int, b: int) -> int {
    let q = (abs(a) / abs(b)) as int;
    if (a < 0) != (b < 0) {
        -q
    } else {
        q
    }
}

/// The remainder of truncated division: it has the sign of the dividend.
pub open spec fn trunc_rem(a: int, b: int) -> int {
    let r = (abs(a) % abs(b)) as int;
    if a < 0 {
        -r
    } else {
        r
    }
}

/// The greatest common divisor of two integers.
pub open spec fn int_gcd(a: int, b: int) -> nat {
    nat_gcd(abs(a), abs(b))
}

/// Truncated division: the dividend is the quotient times the divisor plus the remainder; the
/// remainder is smaller than the divisor in magnitude and has the dividend's sign.
pub proof fn lemma_trunc_div_rem(a: int, b: int)
    requires
        b != 0,
    ensures
        a == trunc_div(a, b) * b + trunc_rem(a, b),
        abs(trunc_rem(a, b)) < abs(b),
        abs(trunc_rem(a, b)) == abs(a) % abs(b),
        abs(trunc_div(a, b)) == abs(a) / abs(b),
        abs(a) == abs(trunc_div(a, b)) * abs(b) + abs(trunc_rem(a, b)),
        trunc_rem(a, b) != 0 ==> (trunc_rem(a, b) < 0 <==> a < 0),
{
    let aa = abs(a) as int;
    let bb = abs(b) as int;
    lemma_fundamental_div_mod(aa, bb);
    vstd::arithmetic::div_mod::lemma_mod_pos_bound(aa, bb);
    lemma_div_pos_is_pos(aa, bb);
    let q = aa / bb;
    let r = aa % bb;
    assert(a == trunc_div(a, b) * b + trunc_rem(a, b)) by (nonlinear_arith)
        requires
            aa == bb * q + r,
            aa == (if a < 0 { -a } else { a }),
            bb == (if b < 0 { -b } else { b }),
            trunc_div(a, b) == (if (a < 0) != (b < 0) { -q } else { q }),
            trunc_rem(a, b) == (if a < 0 { -r } else { r }),
    ;
    assert(aa == q * bb + r) by (nonlinear_arith)
        requires
            aa == bb * q + r,
    ;
}

/// Adding a word at the top adds its weight.
pub proof fn lemma_words_push(s: Seq<u64>, x: u64)
    ensures
        words_value(s.push(x)) == words_value(s) + (x as nat) * pow2((64 * s.len()) as nat),
{
    assert(s.push(x).drop_last() =~= s);
}

/// Values that fit never decrease in bit length.
pub proof fn lemma_bit_length_monotonic(x: nat, y: nat)
    requires
        x <= y,
    ensures
        bit_length(x) <= bit_length(y),
{
    lemma_bit_length_bound(y, bit_length(y));
    lemma_bit_length_bound(x, bit_length(y));
}

/// The bit length of a product is at most the sum of the bit lengths.
pub proof fn lemma_bit_length_mul(a: nat, b: nat)
    ensures
        bit_length(a * b) <= bit_length(a) + bit_length(b),
{
    lemma_bit_length_bound(a, bit_length(a));
    lemma_bit_length_bound(b, bit_length(b));
    lemma_pow2_adds(bit_length(a), bit_length(b));
    lemma_pow2_pos(bit_length(a));
    lemma_pow2_pos(bit_length(b));
    if a > 0 && b > 0 {
        lemma_mul_strict_inequality(a as int, pow2(bit_length(a)) as int, b as int);
        lemma_mul_strict_inequality(b as int, pow2(bit_length(b)) as int, pow2(bit_length(a)) as int);
        assert(a * b < pow2(bit_length(a)) * pow2(bit_length(b))) by (nonlinear_arith)
            requires
                a < pow2(bit_length(a)),
                b < pow2(bit_length(b)),
                a > 0,
                b > 0,
        ;
    } else {
        assert(a * b == 0) by (nonlinear_arith)
            requires
                a == 0 || b == 0,
        ;
    }
    lemma_bit_length_bound(a * b, bit_length(a) + bit_length(b));
}

/// The sum of two magnitudes, one word longer when the sum carries out of the longer operand.
fn add_magnitudes(a: &Vec<u64>, b: &Vec<u64>) -> (r: Vec<u64>)
    requires
        64 * (a@.len() + 1) <= u32::MAX,
        64 * (b@.len() + 1) <= u32::MAX,
    ensures
        words_value(r@) == words_value(a@) + words_value(b@),
        r@.len() <= (if a@.len() < b@.len() { b@.len() } else { a@.len() }) + 1,
{
    let (mut value, carry) = words_carrying_add(a, b);
    if carry != 0 {
        proof {
            lemma_words_push(value@, carry);
        }
        value.push(carry);
    } else {
        assert(words_value(value@) == words_value(a@) + words_value(b@)) by (nonlinear_arith)
            requires
                words_value(value@) + carry * pow2((64 * value@.len()) as nat) == words_value(a@)
                    + words_value(b@),
                carry == 0,
        ;
    }
    value
}

/// The difference of two magnitudes, the larger first, in the fewest words.
fn sub_magnitudes(a: &Vec<u64>, b: &Vec<u64>) -> (r: Vec<u64>)
    requires
        words_value(b@) <= words_value(a@),
        bit_length(words_value(a@)) <= max_bits(),
        64 * a@.len() <= u32::MAX,
        64 * b@.len() <= u32::MAX,
    ensures
        words_value(r@) == words_value(a@) - words_value(b@),
        r@.len() == limbs_for(bit_length(words_value(r@))),
{
    let value = words_borrowing_sub(a, b);
    proof {
        lemma_bit_length_monotonic((words_value(a@) - words_value(b@)) as nat, words_value(a@));
    }
    minimize(value)
}

impl BigNumber {
    /// The sum.
    pub fn add(&self, rhs: &Self) -> (r: Self)
        requires
            fits(self@ + rhs@),
        ensures
            r@ == self@ + rhs@,
    {
        proof {
            use_type_invariant(self);
            use_type_invariant(rhs);
            self.lemma_parts();
            rhs.lemma_parts();
        }
        if rhs.sign.is_zero() {
            return self.clone();
        }
        if self.sign.is_zero() {
            return rhs.clone();
        }
        if self.sign == rhs.sign {
            let value = add_magnitudes(&self.value, &rhs.value);
            BigNumber::from_sign_magnitude(self.sign.is_negative(), value)
        } else {
            let order = words_compare(&self.value, &rhs.value);
            if order < 0 {
                let value = sub_magnitudes(&rhs.value, &self.value);
                BigNumber::from_sign_magnitude(rhs.sign.is_negative(), value)
            } else if order > 0 {
                let value = sub_magnitudes(&self.value, &rhs.value);
                BigNumber::from_sign_magnitude(self.sign.is_negative(), value)
            } else {
                BigNumber::zero()
            }
        }
    }

    /// The difference.
    pub fn sub(&self, rhs: &Self) -> (r: Self)
        requires
            fits(self@ - rhs@),
        ensures
            r@ == self@ - rhs@,
    {
        proof {
            use_type_invariant(self);
            use_type_invariant(rhs);
            self.lemma_parts();
            rhs.lemma_parts();
        }
        if rhs.sign.is_zero() {
            return self.clone();
        }
        if self.sign.is_zero() {
            return rhs.neg();
        }
        if self.sign != rhs.sign {
            let value = add_magnitudes(&self.value, &rhs.value);
            BigNumber::from_sign_magnitude(self.sign.is_negative(), value)
        } else {
            let order = words_compare(&self.value, &rhs.value);
            if order < 0 {
                let value = sub_magnitudes(&rhs.value, &self.value);
                BigNumber::from_sign_magnitude(!self.sign.is_negative(), value)
            } else if order > 0 {
                let value = sub_magnitudes(&self.value, &rhs.value);
                BigNumber::from_sign_magnitude(self.sign.is_negative(), value)
            } else {
                BigNumber::zero()
            }
        }
    }

    /// The product.
    pub fn mul(&self, rhs: &Self) -> (r: Self)
        requires
            bits_of(self@) + bits_of(rhs@) <= max_bits(),
        ensures
            r@ == self@ * rhs@,
    {
        proof {
            use_type_invariant(self);
            use_type_invariant(rhs);
            self.lemma_parts();
            rhs.lemma_parts();
        }
        let sign = self.sign * rhs.sign;
        if sign == Sign::NoSign {
            proof {
                assert(self@ * rhs@ == 0) by (nonlinear_arith)
                    requires
                        self@ == 0 || rhs@ == 0,
                ;
            }
            return BigNumber::zero();
        }
        let value = words_mul(&self.value, &rhs.value);
        proof {
            lemma_bit_length_mul(self.magnitude(), rhs.magnitude());
            assert(self@ * rhs@ == (if sign == Sign::Minus { -(self.magnitude() * rhs.magnitude()) } else {
                (self.magnitude() * rhs.magnitude()) as int
            })) by (nonlinear_arith)
                requires
                    self@ == (if self.sign == Sign::Minus { -self.magnitude() } else { self.magnitude() as int }),
                    rhs@ == (if rhs.sign == Sign::Minus { -rhs.magnitude() } else { rhs.magnitude() as int }),
                    (sign == Sign::Minus) == ((self.sign == Sign::Minus) != (rhs.sign == Sign::Minus)),
            ;
        }
        BigNumber::from_sign_magnitude(sign == Sign::Minus, value)
    }

    /// Simultaneous integer division and modulus: the quotient rounds toward zero and the
    /// remainder has the dividend's sign. Division by zero gives zero and the dividend.
    pub fn div_rem(&self, other: &Self) -> (r: (Self, Self))
        ensures
            other@ == 0 ==> r.0@ == 0 && r.1@ == self@,
            other@ != 0 ==> r.0@ == trunc_div(self@, other@) && r.1@ == trunc_rem(self@, other@),
    {
        proof {
            use_type_invariant(self);
            use_type_invariant(other);
            self.lemma_parts();
            other.lemma_parts();
        }
        if words_is_zero(&other.value) {
            return (BigNumber::zero(), self.clone());
        }
        let (d, r) = words_div_rem(&self.value, &other.value);
        proof {
            vstd::arithmetic::div_mod::lemma_div_is_ordered_by_denominator(
                self.magnitude() as int, 1, other.magnitude() as int);
            lemma_bit_length_monotonic(self.magnitude() / other.magnitude(), self.magnitude());
            vstd::arithmetic::div_mod::lemma_mod_pos_bound(self.magnitude() as int, other.magnitude() as int);
            lemma_bit_length_monotonic(self.magnitude() % other.magnitude(), other.magnitude());
        }
        let quotient_negative = self.sign.is_negative() != other.sign.is_negative();
        let q = BigNumber::from_sign_magnitude(quotient_negative, d);
        let r = BigNumber::from_sign_magnitude(self.sign.is_negative(), r);
        (q, r)
    }

    /// The quotient, rounded toward zero; zero for a zero divisor.
    pub fn div(&self, other: &Self) -> (r: Self)
        ensures
            other@ == 0 ==> r@ == 0,
            other@ != 0 ==> r@ == trunc_div(self@, other@),
    {
        let (q, _) = self.div_rem(other);
        q
    }

    /// The remainder of truncated division; the dividend for a zero divisor.
    pub fn rem(&self, other: &Self) -> (r: Self)
        ensures
            other@ == 0 ==> r@ == self@,
            other@ != 0 ==> r@ == trunc_rem(self@, other@),
    {
        let (_, r) = self.div_rem(other);
        r
    }
}


/// Whether a power of two divides a nonzero value is told by its trailing zeros.
proof fn lemma_trailing_zeros(w: nat, s: nat, tz: nat)
    requires
        w > 0,
        w % pow2(tz) == 0,
        (w / pow2(tz)) % 2 == 1,
    ensures
        (tz < s) == (w % pow2(s) != 0),
{
    lemma_pow2_pos(tz);
    lemma_pow2_pos(s);
    lemma_fundamental_div_mod(w as int, pow2(tz) as int);
    let k = w / pow2(tz);
    assert(w == k * pow2(tz));
    if tz >= s {
        lemma_pow2_adds(s, (tz - s) as nat);
        assert((s + (tz - s)) as nat == tz);
        let e = pow2((tz - s) as nat);
        assert(w == (k * e) * pow2(s)) by (nonlinear_arith)
            requires
                w == k * pow2(tz),
                pow2(tz) == pow2(s) * e,
        ;
        lemma_mod_multiples_basic((k * pow2((tz - s) as nat)) as int, pow2(s) as int);
    } else {
        if w % pow2(s) == 0 {
            lemma_fundamental_div_mod(w as int, pow2(s) as int);
            let j = w / pow2(s);
            lemma_pow2_adds((tz + 1) as nat, (s - tz - 1) as nat);
            lemma_pow2_adds(tz, 1);
            vstd::arithmetic::power2::lemma2_to64();
            let e = pow2((s - tz - 1) as nat);
            assert(w == (2 * (j * e)) * pow2(tz)) by (nonlinear_arith)
                requires
                    w == j * pow2(s),
                    pow2(s) == pow2((tz + 1) as nat) * e,
                    pow2((tz + 1) as nat) == pow2(tz) * 2,
            ;
            vstd::arithmetic::div_mod::lemma_div_multiples_vanish((2 * (j * e)) as int, pow2(tz) as int);
            assert(w / pow2(tz) == 2 * (j * e)) by (nonlinear_arith)
                requires
                    w == (2 * (j * e)) * pow2(tz),
                    (pow2(tz) * (2 * (j * e))) / pow2(tz) == 2 * (j * e),
            ;
            lemma_mod_multiples_basic((j * e) as int, 2);
            assert(false);
        }
    }
}

/// Floor division of a negated value.
proof fn lemma_floor_neg(w: nat, d: nat)
    requires
        d > 0,
    ensures
        (-w) / (d as int) == (if w % d == 0 { -((w / d) as int) } else { -((w / d) as int) - 1 }),
{
    lemma_fundamental_div_mod(w as int, d as int);
    let q = (w / d) as int;
    let r = (w % d) as int;
    assert(w == d * q + r);
    if r == 0 {
        assert(-w == (-q) * d + 0) by (nonlinear_arith)
            requires
                w == d * q + r,
                r == 0,
        ;
        lemma_fundamental_div_mod_converse(-w, d as int, -q, 0);
    } else {
        assert(-w == (-q - 1) * d + (d - r)) by (nonlinear_arith)
            requires
                w == d * q + r,
        ;
        lemma_fundamental_div_mod_converse(-w, d as int, -q - 1, d - r);
    }
}

/// Shifting right by at least one halves the bound of the words.
proof fn lemma_shift_room(w: nat, s: nat, n: nat)
    requires
        1 <= s,
        w < pow2(n),
        1 <= n,
    ensures
        w / pow2(s) + 1 < pow2(n),
        w / pow2(s) < w || w == 0,
{
    lemma_pow2_pos(s);
    lemma_pow2_pos(n);
    vstd::arithmetic::power2::lemma_pow2_strictly_increases(0, s);
    vstd::arithmetic::power2::lemma2_to64();
    vstd::arithmetic::div_mod::lemma_div_is_ordered_by_denominator(w as int, 2, pow2(s) as int);
    vstd::arithmetic::power2::lemma_pow2_unfold(n);
    lemma_div_is_ordered(w as int, (pow2(n) - 1) as int, 2);
    if w > 0 {
        vstd::arithmetic::div_mod::lemma_div_decreases(w as int, 2);
    }
}

impl BigNumber {
    /// The value times `2^shift`.
    pub fn shl(&self, shift: u32) -> (r: Self)
        requires
            bits_of(self@) + shift <= max_bits(),
        ensures
            r@ == self@ * pow2(shift as nat),
    {
        proof {
            use_type_invariant(self);
            self.lemma_parts();
            lemma_pow2_pos(shift as nat);
        }
        if self.is_zero() {
            proof {
                assert(self@ * pow2(shift as nat) == 0) by (nonlinear_arith) requires self@ == 0;
            }
            return self.clone();
        }
        let bits = words_bits(&self.value);
        let precision = crate::crypto::bn::precision_for_bits(bits + shift);
        proof {
            lemma_limbs_for_bits((bits + shift) as nat);
            lemma_words_bits(self.value@);
        }
        let value = words_resize(self.value.clone(), precision);
        let value = words_shl(value, shift);
        proof {
            let m = self.magnitude();
            lemma_bit_length_bound(m, bits as nat);
            lemma_pow2_adds(bits as nat, shift as nat);
            if ((bits + shift) as nat) < (precision as nat) {
                vstd::arithmetic::power2::lemma_pow2_strictly_increases((bits + shift) as nat, precision as nat);
            }
            assert(m * pow2(shift as nat) < pow2((bits + shift) as nat)) by (nonlinear_arith)
                requires
                    m < pow2(bits as nat),
                    pow2((bits + shift) as nat) == pow2(bits as nat) * pow2(shift as nat),
                    pow2(shift as nat) > 0,
            ;
            assert(m * pow2(shift as nat) < pow2(precision as nat)) by (nonlinear_arith)
                requires
                    m < pow2(bits as nat),
                    pow2((bits + shift) as nat) == pow2(bits as nat) * pow2(shift as nat),
                    pow2((bits + shift) as nat) <= pow2(precision as nat),
                    pow2(shift as nat) > 0,
            ;
            vstd::arithmetic::div_mod::lemma_small_mod(m * pow2(shift as nat), pow2(precision as nat));
            assert((64 * value@.len()) as nat == precision as nat);
            lemma_bit_length_bound(m * pow2(shift as nat), (bits + shift) as nat);
            assert(self@ * pow2(shift as nat) == (if self.sign == Sign::Minus {
                -(m * pow2(shift as nat))
            } else {
                (m * pow2(shift as nat)) as int
            })) by (nonlinear_arith)
                requires
                    self@ == (if self.sign == Sign::Minus { -m } else { m as int }),
            ;
        }
        BigNumber::from_sign_magnitude(self.sign.is_negative(), value)
    }

    /// The value divided by `2^shift`, rounded toward negative infinity. The shift must stay
    /// below the precision of the value's words.
    pub fn shr(&self, shift: u32) -> (r: Self)
        requires
            shift < 64 * limbs_for(bits_of(self@)),
        ensures
            r@ == self@ / (pow2(shift as nat) as int),
    {
        proof {
            use_type_invariant(self);
            self.lemma_parts();
            lemma_pow2_pos(shift as nat);
        }
        let mut round_down = false;
        if self.sign.is_negative() {
            let zeros = words_trailing_zeros(&self.value);
            round_down = shift > 0 && zeros < shift;
            proof {
                lemma_trailing_zeros(self.magnitude(), shift as nat, zeros as nat);
                vstd::arithmetic::power2::lemma2_to64();
            }
        }
        let value = words_shr(self.value.clone(), shift);
        proof {
            lemma_words_value_bound(self.value@);
        }
        let value = if round_down {
            proof {
                lemma_shift_room(self.magnitude(), shift as nat, (64 * self.value@.len()) as nat);
            }
            words_increment(value)
        } else {
            value
        };
        proof {
            let m = self.magnitude();
            let d = pow2(shift as nat);
            vstd::arithmetic::div_mod::lemma_div_is_ordered_by_denominator(m as int, 1, d as int);
            vstd::arithmetic::div_mod::lemma_div_basics(m as int);
            assert(m / d <= m);
            if round_down {
                lemma_shift_room(m, shift as nat, (64 * self.value@.len()) as nat);
                assert(m > 0);
                assert(m / d < m);
                assert(words_value(value@) <= m);
            } else {
                assert(words_value(value@) <= m);
            }
            assert(bit_length(m) <= max_bits());
            lemma_bit_length_monotonic(words_value(value@), m);
            if self.sign == Sign::Minus {
                lemma_floor_neg(m, d);
            }
        }
        BigNumber::from_sign_magnitude(self.sign.is_negative(), value)
    }

    /// Compute the greatest common divisor
    pub fn gcd(&self, other: &Self) -> (r: Self)
        ensures
            r@ == int_gcd(self@, other@),
    {
        proof {
            use_type_invariant(self);
            use_type_invariant(other);
            self.lemma_parts();
            other.lemma_parts();
            lemma_gcd_bound(self.magnitude(), other.magnitude());
            let g = nat_gcd(self.magnitude(), other.magnitude());
            if self.magnitude() <= other.magnitude() {
                lemma_bit_length_monotonic(g, other.magnitude());
            } else {
                lemma_bit_length_monotonic(g, self.magnitude());
            }
        }
        let value = words_gcd(&self.value, &other.value);
        BigNumber::from_sign_magnitude(false, value)
    }

    /// Compute the least common multiple: `|self / gcd * other|`, zero when both are zero.
    pub fn lcm(&self, other: &Self) -> (r: Self)
        requires
            bits_of(self@) + bits_of(other@) <= max_bits(),
        ensures
            self@ == 0 && other@ == 0 ==> r@ == 0,
            !(self@ == 0 && other@ == 0) ==> r@ == (abs(self@) / int_gcd(self@, other@)) * abs(other@),
    {
        if self.is_zero() && other.is_zero() {
            BigNumber::zero()
        } else {
            proof {
                lemma_gcd_positive(abs(self@), abs(other@));
            }
            let g = self.gcd(other);
            let q = self.div(&g);
            proof {
                let a = abs(self@);
                let gg = int_gcd(self@, other@);
                vstd::arithmetic::div_mod::lemma_div_is_ordered_by_denominator(a as int, 1, gg as int);
                lemma_bit_length_monotonic(a / gg, a);
                assert(abs(q@) == a / gg);
            }
            let value = q.mul(other);
            proof {
                let a = abs(self@);
                let gg = int_gcd(self@, other@);
                assert(abs(value@) == (a / gg) * abs(other@)) by (nonlinear_arith)
                    requires
                        value@ == q@ * other@,
                        abs(q@) == a / gg,
                ;
            }
            if value.is_negative() {
                value.neg()
            } else {
                value
            }
        }
    }
}

/// The greatest common divisor is at most the larger argument.
pub proof fn lemma_gcd_bound(a: nat, b: nat)
    ensures
        nat_gcd(a, b) <= (if a < b { b } else { a }),
    decreases b,
{
    if b > 0 {
        vstd::arithmetic::div_mod::lemma_mod_pos_bound(a as int, b as int);
        lemma_gcd_bound(b, a % b);
    }
}

/// The greatest common divisor of values not both zero divides both of them.
pub proof fn lemma_gcd_divides(a: nat, b: nat)
    requires
        a > 0 || b > 0,
    ensures
        a % nat_gcd(a, b) == 0,
        b % nat_gcd(a, b) == 0,
    decreases b,
{
    lemma_gcd_positive(a, b);
    if b == 0 {
        vstd::arithmetic::div_mod::lemma_mod_self_0(a as int);
    } else {
        let r = a % b;
        lemma_gcd_divides(b, r);
        let g = nat_gcd(a, b) as int;
        assert(g == nat_gcd(b, r));
        lemma_fundamental_div_mod(a as int, b as int);
        lemma_fundamental_div_mod(b as int, g);
        lemma_fundamental_div_mod(r as int, g);
        let q = (a / b) as int;
        let k = (b as int / g) * q + r as int / g;
        assert(a == k * g) by (nonlinear_arith)
            requires
                a == b * q + r,
                b == g * (b as int / g) + 0,
                r == g * (r as int / g) + 0,
                k == (b as int / g) * q + r as int / g,
        ;
        lemma_mod_multiples_basic(k, g);
    }
}

/// The greatest common divisor times the least common multiple that [`BigNumber::lcm`]
/// computes is the magnitude of the product.
pub proof fn lemma_gcd_times_lcm(a: int, b: int)
    requires
        !(a == 0 && b == 0),
    ensures
        int_gcd(a, b) * ((abs(a) / int_gcd(a, b)) * abs(b)) == abs(a * b),
{
    let g = int_gcd(a, b) as int;
    lemma_gcd_positive(abs(a), abs(b));
    lemma_gcd_divides(abs(a), abs(b));
    lemma_fundamental_div_mod(abs(a) as int, g);
    assert(abs(a * b) == abs(a) * abs(b)) by (nonlinear_arith)
        requires
            abs(a) == (if a < 0 { -a } else { a }),
            abs(b) == (if b < 0 { -b } else { b }),
            abs(a * b) == (if a * b < 0 { -(a * b) } else { a * b }),
    ;
    assert(g * ((abs(a) as int / g) * abs(b)) == abs(a) * abs(b)) by (nonlinear_arith)
        requires
            abs(a) == g * (abs(a) as int / g) + 0,
    ;
}

/// Shifting left and then right by the same amount gives the value back.
pub proof fn lemma_shift_round_trip(x: int, shift: nat)
    ensures
        (x * pow2(shift)) / (pow2(shift) as int) == x,
{
    lemma_pow2_pos(shift);
    vstd::arithmetic::div_mod::lemma_div_multiples_vanish(x, pow2(shift) as int);
    assert(x * pow2(shift) == pow2(shift) * x) by (nonlinear_arith);
}

/// The greatest common divisor of values not both zero is positive.
pub proof fn lemma_gcd_positive(a: nat, b: nat)
    requires
        a > 0 || b > 0,
    ensures
        nat_gcd(a, b) > 0,
    decreases b,
{
    if b > 0 {
        lemma_gcd_positive(b, a % b);
    }
}

impl BigNumber {
    /// The sum of the numbers. Every partial sum, from the left, must fit the backend.
    pub fn sum(nums: &[BigNumber]) -> (r: BigNumber)
        requires
            forall|k: int| 0 <= k <= nums@.len() ==> fits(#[trigger] sum_of(nums@.take(k))),
        ensures
            r@ == sum_of(nums@),
    {
        let mut total = BigNumber::zero();
        proof {
            assert(nums@.take(0) =~= Seq::<BigNumber>::empty());
        }
        let mut i: usize = 0;
        while i < nums.len()
            invariant
                0 <= i <= nums@.len(),
                total@ == sum_of(nums@.take(i as int)),
                forall|k: int| 0 <= k <= nums@.len() ==> fits(#[trigger] sum_of(nums@.take(k))),
            decreases nums@.len() - i,
        {
            proof {
                let prefix = nums@.take(i as int + 1);
                assert(prefix.drop_last() =~= nums@.take(i as int));
                assert(prefix.last() == nums@[i as int]);
                assert(fits(sum_of(prefix)));
            }
            total = total.add(&nums[i]);
            i = i + 1;
        }
        proof {
            assert(nums@.take(nums@.len() as int) =~= nums@);
        }
        total
    }

    /// The product of the numbers. Each partial product, from the left, and the next factor
    /// must fit the backend's product bound.
    pub fn product(nums: &[BigNumber]) -> (r: BigNumber)
        requires
            forall|k: int| 0 <= k < nums@.len() ==> bits_of(#[trigger] product_of(nums@.take(k))) + bits_of(
                nums@[k]@,
            ) <= max_bits(),
        ensures
            r@ == product_of(nums@),
    {
        let mut total = BigNumber::one();
        proof {
            assert(nums@.take(0) =~= Seq::<BigNumber>::empty());
        }
        let mut i: usize = 0;
        while i < nums.len()
            invariant
                0 <= i <= nums@.len(),
                total@ == product_of(nums@.take(i as int)),
                forall|k: int| 0 <= k < nums@.len() ==> bits_of(#[trigger] product_of(nums@.take(k))) + bits_of(
                    nums@[k]@,
                ) <= max_bits(),
            decreases nums@.len() - i,
        {
            proof {
                let prefix = nums@.take(i as int + 1);
                assert(prefix.drop_last() =~= nums@.take(i as int));
                assert(prefix.last() == nums@[i as int]);
                assert(bits_of(product_of(nums@.take(i as int))) + bits_of(nums@[i as int]@) <= max_bits());
            }
            total = total.mul(&nums[i]);
            i = i + 1;
        }
        proof {
            assert(nums@.take(nums@.len() as int) =~= nums@);
        }
        total
    }
}

} // verus!
