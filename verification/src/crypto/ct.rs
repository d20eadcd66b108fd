//! Comparison of big numbers that does not branch on their words.
use vstd::prelude::*;
use subtle::ConstantTimeEq;
use crate::crypto::bn::BigNumber;
use crate::crypto::words::{word_at, lemma_words_value_eq};

verus! {

/// `subtle::ConstantTimeEq::ct_eq` on words, read back as a `bool`.
#[verifier::external_body]
fn ct_eq_u64(a: u64, b: u64) -> (r: bool)
    ensures
        r == (a == b),
{
    bool::from(a.ct_eq(&b))
}

impl BigNumber {
    /// Compares two numbers without branching on the contents of their words: equal signs and
    /// equal magnitudes, the shorter magnitude read as padded with zero words.
    pub fn ct_eq(&self, other: &Self) -> (r: bool)
        ensures
            r == (self@ == other@),
    {
        proof {
            use_type_invariant(self);
            use_type_invariant(other);
            self.lemma_parts();
            other.lemma_parts();
        }
        let lhs = &self.value;
        let rhs = &other.value;
        let len = if lhs.len() < rhs.len() { rhs.len() } else { lhs.len() };
        let mut difference: u64 = 0;
        let mut index: usize = 0;
        while index < len
            invariant
                len == (if lhs@.len() < rhs@.len() { rhs@.len() } else { lhs@.len() }),
                0 <= index <= len,
                (difference == 0) <==> forall|j: int| 0 <= j < index ==> #[trigger] word_at(lhs@, j)
                    == word_at(rhs@, j),
            decreases len - index,
        {
            let lhs_word = if index < lhs.len() { lhs[index] } else { 0 };
            let rhs_word = if index < rhs.len() { rhs[index] } else { 0 };
            let ghost before = difference;
            difference = difference | (lhs_word ^ rhs_word);
            proof {
                assert((before | (lhs_word ^ rhs_word)) == 0 <==> (before == 0 && lhs_word == rhs_word))
                    by (bit_vector);
                assert(lhs_word == word_at(lhs@, index as int));
                assert(rhs_word == word_at(rhs@, index as int));
                if difference == 0 {
                    assert forall|j: int| 0 <= j < index + 1 implies #[trigger] word_at(lhs@, j)
                        == word_at(rhs@, j) by {
                        if j < index {
                            assert(word_at(lhs@, j) == word_at(rhs@, j));
                        }
                    }
                } else if before == 0 {
                    assert(word_at(lhs@, index as int) != word_at(rhs@, index as int));
                } else {
                    let j = choose|j: int| 0 <= j < index && #[trigger] word_at(lhs@, j)
                        != word_at(rhs@, j);
                    assert(word_at(lhs@, j) != word_at(rhs@, j));
                }
            }
            index = index + 1;
        }
        proof {
            lemma_words_value_eq(lhs@, rhs@);
            if difference == 0 {
                assert forall|i: int| 0 <= i implies #[trigger] word_at(lhs@, i) == word_at(rhs@, i) by {
                    if i >= len {
                        assert(word_at(lhs@, i) == 0 && word_at(rhs@, i) == 0);
                    }
                }
            }
        }
        let same_sign = self.sign.ct_eq(&other.sign);
        let same_magnitude = ct_eq_u64(difference, 0);
        same_sign && same_magnitude
    }
}

} // verus!
