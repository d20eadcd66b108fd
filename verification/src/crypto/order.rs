//! The order of big numbers: by sign first, then by magnitude.
use vstd::prelude::*;
use core::cmp::Ordering;
use vstd::std_specs::cmp::PartialOrdSpecImpl;
use crate::crypto::sign::Sign;
use crate::crypto::bn::BigNumber;
use crate::crypto::limbs::words_compare;

verus! {

/// How `a` compares with `b` as integers.
pub open spec fn int_order(a: int, b: int) -> Ordering {
    if a < b {
        Ordering::Less
    } else if a == b {
        Ordering::Equal
    } else {
        Ordering::Greater
    }
}

/// The ordering that a three-way comparison result of -1, 0 or 1 stands for.
fn ordering_of(c: i8) -> (r: Ordering)
    requires
        -1 <= c <= 1,
    ensures
        c < 0 ==> r == Ordering::Less,
        c == 0 ==> r == Ordering::Equal,
        c > 0 ==> r == Ordering::Greater,
{
    if c < 0 {
        Ordering::Less
    } else if c == 0 {
        Ordering::Equal
    } else {
        Ordering::Greater
    }
}

impl PartialOrd for BigNumber {
    fn partial_cmp(&self, other: &Self) -> (r: Option<Ordering>) {
        proof {
            use_type_invariant(self);
            use_type_invariant(other);
            self.lemma_parts();
            other.lemma_parts();
        }
        let a = self.sign.to_i8();
        let b = other.sign.to_i8();
        if a < b {
            Some(Ordering::Less)
        } else if a > b {
            Some(Ordering::Greater)
        } else {
            match self.sign {
                Sign::NoSign => Some(Ordering::Equal),
                Sign::Plus => Some(ordering_of(words_compare(&self.value, &other.value))),
                Sign::Minus => Some(ordering_of(words_compare(&other.value, &self.value))),
            }
        }
    }
}

impl PartialOrdSpecImpl for BigNumber {
    open spec fn obeys_partial_cmp_spec() -> bool {
        true
    }

    open spec fn partial_cmp_spec(&self, other: &BigNumber) -> Option<Ordering> {
        Some(int_order(self@, other@))
    }
}

} // verus!
