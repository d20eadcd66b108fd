//! The mathematical reading of a magnitude held as little-endian 64-bit words.
use vstd::prelude::*;
pub use crate::modspec::{abs, inverts};
use vstd::arithmetic::power2::{pow2, lemma_pow2_pos, lemma_pow2_adds, lemma_pow2_unfold};
use vstd::arithmetic::mul::{lemma_mul_inequality, lemma_mul_is_distributive_add};

verus! {

/// The value of little-endian words: word `i` weighs `2^(64 i)`.
pub open spec fn words_value(s: Seq<u64>) -> nat
    decreases s.len(),
{
    if s.len() == 0 {
        0
    } else {
        words_value(s.drop_last()) + (s.last() as nat) * pow2((64 * (s.len() - 1)) as nat)
    }
}

/// The number of binary digits of `n`; zero has none.
pub open spec fn bit_length(n: nat) -> nat
    decreases n,
{
    if n == 0 {
        0
    } else {
        1 + bit_length(n / 2)
    }
}

/// The number of words that the shortest representation of a value of `bits` bits holds: at
/// least one.
pub open spec fn limbs_for(bits: nat) -> nat {
    if bits == 0 {
        1
    } else {
        ((bits + 63) / 64) as nat
    }
}

/// The largest bit length that the backend stores: its precision is counted in a `u32`, with
/// room left to round a bit count up to whole words and to carry out of a sum.
pub const MAX_BITS: u32 = 0x7fff_0000;

/// The largest bit length that the backend stores, as a number.
pub open spec fn max_bits() -> nat {
    MAX_BITS as nat
}

/// `n` has at most `k` bits exactly when it is below `2^k`.
pub proof fn lemma_bit_length_bound(n: nat, k: nat)
    ensures
        n < pow2(k) <==> bit_length(n) <= k,
    decreases n,
{
    lemma_pow2_pos(k);
    if n == 0 {
    } else if k == 0 {
        vstd::arithmetic::power2::lemma2_to64();
    } else {
        lemma_bit_length_bound(n / 2, (k - 1) as nat);
        lemma_pow2_unfold(k);
    }
}

/// A nonzero value is at least `2^(bits - 1)`.
pub proof fn lemma_bit_length_lower(n: nat)
    requires
        n > 0,
    ensures
        pow2((bit_length(n) - 1) as nat) <= n,
    decreases n,
{
    if n / 2 == 0 {
        vstd::arithmetic::power2::lemma2_to64();
        assert(bit_length(0) == 0);
        assert(bit_length(n) == 1);
    } else {
        lemma_bit_length_lower(n / 2);
        assert(bit_length(n / 2) == 1 + bit_length(n / 4));
        lemma_pow2_unfold((bit_length(n) - 1) as nat);
    }
}

/// Words hold less than `2^(64 len)`.
pub proof fn lemma_words_value_bound(s: Seq<u64>)
    ensures
        words_value(s) < pow2((64 * s.len()) as nat),
    decreases s.len(),
{
    if s.len() == 0 {
        vstd::arithmetic::power2::lemma2_to64();
    } else {
        let n = (s.len() - 1) as nat;
        lemma_words_value_bound(s.drop_last());
        let p = pow2((64 * n) as nat);
        lemma_pow2_adds((64 * n) as nat, 64);
        vstd::arithmetic::power2::lemma2_to64_rest();
        assert(pow2((64 * s.len()) as nat) == p * 0x1_0000_0000_0000_0000) by {
            assert((64 * n + 64) as nat == (64 * s.len()) as nat);
        }
        lemma_mul_inequality(s.last() as int, 0xffff_ffff_ffff_ffff, p as int);
        lemma_mul_is_distributive_add(p as int, 0xffff_ffff_ffff_ffff, 1);
    }
}

/// A value's bit length fits the shortest representation of it.
pub proof fn lemma_limbs_for_bits(bits: nat)
    ensures
        bits <= 64 * limbs_for(bits),
        limbs_for(bits) >= 1,
        bits > 0 ==> 64 * (limbs_for(bits) - 1) < bits,
{
}

/// Words whose value fits their length in bits.
pub proof fn lemma_words_bits(s: Seq<u64>)
    ensures
        bit_length(words_value(s)) <= 64 * s.len(),
{
    lemma_words_value_bound(s);
    lemma_bit_length_bound(words_value(s), (64 * s.len()) as nat);
}

/// Word `i` of a magnitude, or zero beyond its words.
pub open spec fn word_at(s: Seq<u64>, i: int) -> u64 {
    if 0 <= i < s.len() {
        s[i]
    } else {
        0
    }
}

/// All words but the lowest; nothing for no words.
pub open spec fn drop_low_word(s: Seq<u64>) -> Seq<u64> {
    if s.len() == 0 {
        s
    } else {
        s.drop_first()
    }
}

/// The value splits into its lowest word and the value of the others.
pub proof fn lemma_words_value_low(s: Seq<u64>)
    ensures
        words_value(s) == word_at(s, 0) + pow2(64) * words_value(drop_low_word(s)),
    decreases s.len(),
{
    vstd::arithmetic::power2::lemma2_to64();
    if s.len() == 1 {
        assert(s.drop_last().len() == 0);
        assert(drop_low_word(s).len() == 0);
    } else if s.len() > 1 {
        let dl = s.drop_last();
        let df = s.drop_first();
        lemma_words_value_low(dl);
        assert(drop_low_word(dl) =~= df.drop_last());
        assert(df.last() == s.last());
        let n = (s.len() - 1) as nat;
        lemma_pow2_adds(64, (64 * (n - 1)) as nat);
        assert((64 + 64 * (n - 1)) as nat == (64 * n) as nat);
        let p = pow2((64 * (n - 1)) as nat);
        assert(pow2(64) * words_value(df) == pow2(64) * words_value(df.drop_last())
            + (s.last() as nat) * pow2((64 * n) as nat)) by (nonlinear_arith)
            requires
                words_value(df) == words_value(df.drop_last()) + (s.last() as nat) * p,
                pow2((64 * n) as nat) == pow2(64) * p,
        ;
    }
}

/// Two magnitudes have the same value exactly when they agree word by word, the shorter one
/// read as padded with zeros.
pub proof fn lemma_words_value_eq(a: Seq<u64>, b: Seq<u64>)
    ensures
        words_value(a) == words_value(b) <==> forall|i: int|
            0 <= i ==> #[trigger] word_at(a, i) == word_at(b, i),
    decreases a.len() + b.len(),
{
    lemma_words_value_low(a);
    lemma_words_value_low(b);
    if a.len() == 0 && b.len() == 0 {
    } else {
        let ta = drop_low_word(a);
        let tb = drop_low_word(b);
        lemma_words_value_eq(ta, tb);
        assert forall|i: int| 0 <= i implies #[trigger] word_at(ta, i) == word_at(a, i + 1)
            && word_at(tb, i) == word_at(b, i + 1) by {
        }
        vstd::arithmetic::power2::lemma2_to64_rest();
        let p = pow2(64) as int;
        if words_value(a) == words_value(b) {
            vstd::arithmetic::div_mod::lemma_fundamental_div_mod_converse(
                words_value(a) as int, p, words_value(ta) as int, word_at(a, 0) as int);
            vstd::arithmetic::div_mod::lemma_fundamental_div_mod_converse(
                words_value(b) as int, p, words_value(tb) as int, word_at(b, 0) as int);
            assert forall|i: int| 0 <= i implies #[trigger] word_at(a, i) == word_at(b, i) by {
                if i > 0 {
                    assert(word_at(ta, i - 1) == word_at(tb, i - 1));
                }
            }
        }
        if forall|i: int| 0 <= i ==> #[trigger] word_at(a, i) == word_at(b, i) {
            assert forall|i: int| 0 <= i implies #[trigger] word_at(ta, i) == word_at(tb, i) by {
                assert(word_at(a, i + 1) == word_at(b, i + 1));
            }
            assert(word_at(a, 0) == word_at(b, 0));
        }
    }
}

} // verus!
