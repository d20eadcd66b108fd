//! Numbers of the OpenSSL backend from machine integers, and sums and products of many.
use vstd::prelude::*;
use vstd::std_specs::convert::FromSpecImpl;
use crate::bytes::{min_bytes, lemma_min_bytes};
use crate::crypto::words::lemma_bit_length_bound;
use crate::group::{sum_of, product_of};
use crate::openssl_backend::bn::{BigNumber, fits};

verus! {

/// The shortest big-endian bytes of a `u128`.
fn bytes_of(n: u128) -> (r: Vec<u8>)
    ensures
        r@ == min_bytes(n as nat),
    decreases n,
{
    if n == 0 {
        Vec::new()
    } else {
        let mut bytes = bytes_of(n / 256);
        bytes.push((n % 256) as u8);
        bytes
    }
}

impl BigNumber {
    /// The number of a `u128`.
    pub fn from_u128(value: u128) -> (r: Self)
        ensures
            r@ == value,
    {
        let magnitude = bytes_of(value);
        proof {
            lemma_min_bytes(value as nat);
            vstd::arithmetic::power2::lemma2_to64();
            vstd::arithmetic::power2::lemma_pow2_adds(64, 64);
            lemma_bit_length_bound(value as nat, 128);
        }
        let r = BigNumber { negative: false, magnitude };
        proof {
            use_type_invariant(&r);
            r.lemma_parts();
        }
        r
    }

    /// The number of an `i128`.
    pub fn from_i128(value: i128) -> (r: Self)
        ensures
            r@ == value,
    {
        let magnitude: u128 = if value < 0 { ((-(value + 1)) as u128) + 1 } else { value as u128 };
        let positive = BigNumber::from_u128(magnitude);
        if value < 0 {
            positive.neg()
        } else {
            positive
        }
    }
}


impl From<u128> for BigNumber {
    fn from(value: u128) -> (r: Self)
        ensures
            r@ == value,
    {
        BigNumber::from_u128(value)
    }
}

impl FromSpecImpl<u128> for BigNumber {
    open spec fn obeys_from_spec() -> bool {
        false
    }

    open spec fn from_spec(v: u128) -> BigNumber {
        arbitrary()
    }
}

impl From<u64> for BigNumber {
    fn from(value: u64) -> (r: Self)
        ensures
            r@ == value,
    {
        BigNumber::from_u128(value as u128)
    }
}

impl FromSpecImpl<u64> for BigNumber {
    open spec fn obeys_from_spec() -> bool {
        false
    }

    open spec fn from_spec(v: u64) -> BigNumber {
        arbitrary()
    }
}

impl From<u32> for BigNumber {
    fn from(value: u32) -> (r: Self)
        ensures
            r@ == value,
    {
        BigNumber::from_u128(value as u128)
    }
}

impl FromSpecImpl<u32> for BigNumber {
    open spec fn obeys_from_spec() -> bool {
        false
    }

    open spec fn from_spec(v: u32) -> BigNumber {
        arbitrary()
    }
}

impl From<u16> for BigNumber {
    fn from(value: u16) -> (r: Self)
        ensures
            r@ == value,
    {
        BigNumber::from_u128(value as u128)
    }
}

impl FromSpecImpl<u16> for BigNumber {
    open spec fn obeys_from_spec() -> bool {
        false
    }

    open spec fn from_spec(v: u16) -> BigNumber {
        arbitrary()
    }
}

impl From<u8> for BigNumber {
    fn from(value: u8) -> (r: Self)
        ensures
            r@ == value,
    {
        BigNumber::from_u128(value as u128)
    }
}

impl FromSpecImpl<u8> for BigNumber {
    open spec fn obeys_from_spec() -> bool {
        false
    }

    open spec fn from_spec(v: u8) -> BigNumber {
        arbitrary()
    }
}

impl From<usize> for BigNumber {
    fn from(value: usize) -> (r: Self)
        ensures
            r@ == value,
    {
        BigNumber::from_u128(value as u128)
    }
}

impl FromSpecImpl<usize> for BigNumber {
    open spec fn obeys_from_spec() -> bool {
        false
    }

    open spec fn from_spec(v: usize) -> BigNumber {
        arbitrary()
    }
}

impl From<i128> for BigNumber {
    fn from(value: i128) -> (r: Self)
        ensures
            r@ == value,
    {
        BigNumber::from_i128(value)
    }
}

impl FromSpecImpl<i128> for BigNumber {
    open spec fn obeys_from_spec() -> bool {
        false
    }

    open spec fn from_spec(v: i128) -> BigNumber {
        arbitrary()
    }
}

impl From<i64> for BigNumber {
    fn from(value: i64) -> (r: Self)
        ensures
            r@ == value,
    {
        BigNumber::from_i128(value as i128)
    }
}

impl FromSpecImpl<i64> for BigNumber {
    open spec fn obeys_from_spec() -> bool {
        false
    }

    open spec fn from_spec(v: i64) -> BigNumber {
        arbitrary()
    }
}

impl From<i32> for BigNumber {
    fn from(value: i32) -> (r: Self)
        ensures
            r@ == value,
    {
        BigNumber::from_i128(value as i128)
    }
}

impl FromSpecImpl<i32> for BigNumber {
    open spec fn obeys_from_spec() -> bool {
        false
    }

    open spec fn from_spec(v: i32) -> BigNumber {
        arbitrary()
    }
}

impl From<i16> for BigNumber {
    fn from(value: i16) -> (r: Self)
        ensures
            r@ == value,
    {
        BigNumber::from_i128(value as i128)
    }
}

impl FromSpecImpl<i16> for BigNumber {
    open spec fn obeys_from_spec() -> bool {
        false
    }

    open spec fn from_spec(v: i16) -> BigNumber {
        arbitrary()
    }
}

impl From<i8> for BigNumber {
    fn from(value: i8) -> (r: Self)
        ensures
            r@ == value,
    {
        BigNumber::from_i128(value as i128)
    }
}

impl FromSpecImpl<i8> for BigNumber {
    open spec fn obeys_from_spec() -> bool {
        false
    }

    open spec fn from_spec(v: i8) -> BigNumber {
        arbitrary()
    }
}

impl From<isize> for BigNumber {
    fn from(value: isize) -> (r: Self)
        ensures
            r@ == value,
    {
        BigNumber::from_i128(value as i128)
    }
}

impl FromSpecImpl<isize> for BigNumber {
    open spec fn obeys_from_spec() -> bool {
        false
    }

    open spec fn from_spec(v: isize) -> BigNumber {
        arbitrary()
    }
}

impl BigNumber {
    /// The sum of the numbers. Every partial sum, from the left, must fit the backend.
    pub fn sum(nums: &[BigNumber]) -> (r: BigNumber)
        requires
            forall|k: int| 0 <= k <= nums@.len() ==> fits(#[trigger] sum_of(nums@.take(k))),
        ensures
            r@ == sum_of(nums@),
    {
        let mut total = BigNumber::zero();
        proof {
            assert(nums@.take(0) =~= Seq::<BigNumber>::empty());
        }
        let mut i: usize = 0;
        while i < nums.len()
            invariant
                0 <= i <= nums@.len(),
                total@ == sum_of(nums@.take(i as int)),
                forall|k: int| 0 <= k <= nums@.len() ==> fits(#[trigger] sum_of(nums@.take(k))),
            decreases nums@.len() - i,
        {
            proof {
                let prefix = nums@.take(i as int + 1);
                assert(prefix.drop_last() =~= nums@.take(i as int));
                assert(prefix.last() == nums@[i as int]);
                assert(fits(sum_of(prefix)));
            }
            total = total.add(&nums[i]);
            i = i + 1;
        }
        proof {
            assert(nums@.take(nums@.len() as int) =~= nums@);
        }
        total
    }

    /// The product of the numbers. Every partial product, from the left, must fit the backend.
    pub fn product(nums: &[BigNumber]) -> (r: BigNumber)
        requires
            forall|k: int| 0 <= k <= nums@.len() ==> fits(#[trigger] product_of(nums@.take(k))),
        ensures
            r@ == product_of(nums@),
    {
        let mut total = BigNumber::one();
        proof {
            assert(nums@.take(0) =~= Seq::<BigNumber>::empty());
        }
        let mut i: usize = 0;
        while i < nums.len()
            invariant
                0 <= i <= nums@.len(),
                total@ == product_of(nums@.take(i as int)),
                forall|k: int| 0 <= k <= nums@.len() ==> fits(#[trigger] product_of(nums@.take(k))),
            decreases nums@.len() - i,
        {
            proof {
                let prefix = nums@.take(i as int + 1);
                assert(prefix.drop_last() =~= nums@.take(i as int));
                assert(prefix.last() == nums@[i as int]);
                assert(fits(product_of(prefix)));
            }
            total = total.mul(&nums[i]);
            i = i + 1;
        }
        proof {
            assert(nums@.take(nums@.len() as int) =~= nums@);
        }
        total
    }
}

} // verus!
