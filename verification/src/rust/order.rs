//! The order of numbers of the `num-bigint` backend, as `BigInt` compares them.
use vstd::prelude::*;
use core::cmp::Ordering;
use vstd::std_specs::cmp::PartialOrdSpecImpl;
use crate::crypto::int_order;
use crate::rust::bn::BigNumber;
use crate::rust::big::big_compare;

verus! {

impl PartialOrd for BigNumber {
    fn partial_cmp(&self, other: &Self) -> (r: Option<Ordering>) {
        let c = big_compare(self, other);
        if c < 0 {
            Some(Ordering::Less)
        } else if c == 0 {
            Some(Ordering::Equal)
        } else {
            Some(Ordering::Greater)
        }
    }
}

impl PartialOrdSpecImpl for BigNumber {
    open spec fn obeys_partial_cmp_spec() -> bool {
        true
    }

    open spec fn partial_cmp_spec(&self, other: &BigNumber) -> Option<Ordering> {
        Some(int_order(self@, other@))
    }
}

} // verus!
