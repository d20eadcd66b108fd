//! The mathematical reading of a magnitude held as little-endian 32-bit digits, the form that
//! `num-bigint` hands its digits out in.
use vstd::prelude::*;
use vstd::arithmetic::power2::{pow2, lemma_pow2_pos, lemma_pow2_adds};
use vstd::arithmetic::mul::{lemma_mul_inequality, lemma_mul_is_distributive_add};

verus! {

/// The value of little-endian digits: digit `i` weighs `2^(32 i)`.
pub open spec fn digits_value(s: Seq<u32>) -> nat
    decreases s.len(),
{
    if s.len() == 0 {
        0
    } else {
        digits_value(s.drop_last()) + (s.last() as nat) * pow2((32 * (s.len() - 1)) as nat)
    }
}

/// Digits without a zero at the top: zero has none at all.
pub open spec fn canonical(s: Seq<u32>) -> bool {
    s.len() == 0 || s.last() != 0
}

/// Digit `i`, or zero beyond the digits.
pub open spec fn digit_at(s: Seq<u32>, i: int) -> u32 {
    if 0 <= i < s.len() {
        s[i]
    } else {
        0
    }
}

/// Digits hold less than `2^(32 len)`.
pub proof fn lemma_digits_value_bound(s: Seq<u32>)
    ensures
        digits_value(s) < pow2((32 * s.len()) as nat),
    decreases s.len(),
{
    if s.len() == 0 {
        vstd::arithmetic::power2::lemma2_to64();
    } else {
        let n = (s.len() - 1) as nat;
        lemma_digits_value_bound(s.drop_last());
        let p = pow2((32 * n) as nat);
        lemma_pow2_adds((32 * n) as nat, 32);
        vstd::arithmetic::power2::lemma2_to64();
        assert(pow2((32 * s.len()) as nat) == p * 0x1_0000_0000) by {
            assert((32 * n + 32) as nat == (32 * s.len()) as nat);
        }
        lemma_mul_inequality(s.last() as int, 0xffff_ffff, p as int);
        lemma_mul_is_distributive_add(p as int, 0xffff_ffff, 1);
    }
}

/// Canonical digits hold zero exactly when there are none.
pub proof fn lemma_canonical_zero(s: Seq<u32>)
    requires
        canonical(s),
    ensures
        digits_value(s) == 0 <==> s.len() == 0,
{
    if s.len() > 0 {
        lemma_pow2_pos((32 * (s.len() - 1)) as nat);
        assert((s.last() as nat) * pow2((32 * (s.len() - 1)) as nat) > 0) by (nonlinear_arith)
            requires
                s.last() > 0,
                pow2((32 * (s.len() - 1)) as nat) > 0,
        ;
    }
}

/// The value splits into its lowest digit and the value of the others.
pub proof fn lemma_digits_value_low(s: Seq<u32>)
    requires
        s.len() > 0,
    ensures
        digits_value(s) == s[0] + pow2(32) * digits_value(s.drop_first()),
    decreases s.len(),
{
    vstd::arithmetic::power2::lemma2_to64();
    if s.len() == 1 {
        assert(s.drop_last().len() == 0);
        assert(s.drop_first().len() == 0);
        assert(digits_value(s.drop_first()) == 0);
        assert(digits_value(s.drop_last()) == 0);
        assert(s.last() == s[0]);
        assert((s.last() as nat) * pow2(0) == s[0]);
        assert(pow2(32) * digits_value(s.drop_first()) == 0);
    } else {
        let dl = s.drop_last();
        let df = s.drop_first();
        lemma_digits_value_low(dl);
        assert(dl.drop_first() =~= df.drop_last());
        assert(df.last() == s.last());
        let n = (s.len() - 1) as nat;
        lemma_pow2_adds(32, (32 * (n - 1)) as nat);
        assert((32 + 32 * (n - 1)) as nat == (32 * n) as nat);
        let p = pow2((32 * (n - 1)) as nat);
        assert(pow2(32) * digits_value(df) == pow2(32) * digits_value(df.drop_last())
            + (s.last() as nat) * pow2((32 * n) as nat)) by (nonlinear_arith)
            requires
                digits_value(df) == digits_value(df.drop_last()) + (s.last() as nat) * p,
                pow2((32 * n) as nat) == pow2(32) * p,
        ;
    }
}

/// Two digit sequences have the same value exactly when they agree digit by digit, the shorter
/// one read as padded with zeros.
pub proof fn lemma_digits_value_eq(a: Seq<u32>, b: Seq<u32>)
    ensures
        digits_value(a) == digits_value(b) <==> forall|i: int|
            0 <= i ==> #[trigger] digit_at(a, i) == digit_at(b, i),
    decreases a.len() + b.len(),
{
    vstd::arithmetic::power2::lemma2_to64();
    if a.len() == 0 && b.len() == 0 {
    } else {
        let ta = if a.len() == 0 { a } else { a.drop_first() };
        let tb = if b.len() == 0 { b } else { b.drop_first() };
        if a.len() > 0 {
            lemma_digits_value_low(a);
        }
        if b.len() > 0 {
            lemma_digits_value_low(b);
        }
        assert(digits_value(a) == digit_at(a, 0) + pow2(32) * digits_value(ta));
        assert(digits_value(b) == digit_at(b, 0) + pow2(32) * digits_value(tb));
        lemma_digits_value_eq(ta, tb);
        assert forall|i: int| 0 <= i implies #[trigger] digit_at(ta, i) == digit_at(a, i + 1)
            && digit_at(tb, i) == digit_at(b, i + 1) by {
        }
        let p = pow2(32) as int;
        if digits_value(a) == digits_value(b) {
            vstd::arithmetic::div_mod::lemma_fundamental_div_mod_converse(
                digits_value(a) as int, p, digits_value(ta) as int, digit_at(a, 0) as int);
            vstd::arithmetic::div_mod::lemma_fundamental_div_mod_converse(
                digits_value(b) as int, p, digits_value(tb) as int, digit_at(b, 0) as int);
            assert forall|i: int| 0 <= i implies #[trigger] digit_at(a, i) == digit_at(b, i) by {
                if i > 0 {
                    assert(digit_at(ta, i - 1) == digit_at(tb, i - 1));
                }
            }
        }
        if forall|i: int| 0 <= i ==> #[trigger] digit_at(a, i) == digit_at(b, i) {
            assert forall|i: int| 0 <= i implies #[trigger] digit_at(ta, i) == digit_at(tb, i) by {
                assert(digit_at(a, i + 1) == digit_at(b, i + 1));
            }
            assert(digit_at(a, 0) == digit_at(b, 0));
        }
    }
}

/// Canonical digits of the same value are the same digits.
pub proof fn lemma_canonical_unique(a: Seq<u32>, b: Seq<u32>)
    requires
        canonical(a),
        canonical(b),
        digits_value(a) == digits_value(b),
    ensures
        a == b,
{
    lemma_digits_value_eq(a, b);
    if a.len() < b.len() {
        assert(digit_at(a, b.len() - 1) == digit_at(b, b.len() - 1));
    } else if b.len() < a.len() {
        assert(digit_at(a, a.len() - 1) == digit_at(b, a.len() - 1));
    }
    assert forall|i: int| 0 <= i < a.len() implies a[i] == b[i] by {
        assert(digit_at(a, i) == digit_at(b, i));
    }
    assert(a =~= b);
}

/// Appending a digit at the top adds its weight.
pub proof fn lemma_digits_push(s: Seq<u32>, x: u32)
    ensures
        digits_value(s.push(x)) == digits_value(s) + (x as nat) * pow2((32 * s.len()) as nat),
{
    assert(s.push(x).drop_last() =~= s);
}

} // verus!
