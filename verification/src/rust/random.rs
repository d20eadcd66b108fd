//! Random numbers and random primes of the `num-bigint` backend: bytes drawn from a
//! `rand::rngs::StdRng`, primes searched for by `glass_pumpkin`.
use vstd::prelude::*;
use vstd::arithmetic::power2::{pow2, lemma_pow2_pos, lemma_pow2_adds};
use vstd::bits::lemma_u8_shr_is_div;
use crate::bytes::lemma_be_value_head_bound;
use crate::error::{Error, Result, validate_bit_length};
use crate::crypto::bn::bits_of;
use crate::crypto::words::{abs, bit_length, lemma_bit_length_bound};
use crate::crypto::random::{default_rng, lemma_top_bit};
use crate::rust::bn::BigNumber;
use crate::rust::big::{
    glass_pumpkin_strong_check, big_strong_check, big_random_prime, big_random_safe_prime,
    big_set_bit, fill_random,
};

verus! {

/// Masking a byte with `0xff >> e` leaves a value below `2^(8 - e)`.
pub(crate) proof fn lemma_masked_byte(b: u8, e: u8)
    requires
        e < 8,
    ensures
        (b & (0xffu8 >> e)) < pow2((8 - e) as nat),
{
    let m = b & (0xffu8 >> e);
    assert(b & (0xffu8 >> e) <= (0xffu8 >> e)) by (bit_vector);
    lemma_u8_shr_is_div(0xffu8, e);
    lemma_pow2_pos(e as nat);
    lemma_pow2_adds(e as nat, (8 - e) as nat);
    vstd::arithmetic::power2::lemma2_to64();
    assert(((8 - e) + e) as nat == 8);
    let p = pow2(e as nat);
    let q = pow2((8 - e) as nat);
    vstd::arithmetic::div_mod::lemma_fundamental_div_mod(255int, p as int);
    vstd::arithmetic::div_mod::lemma_mod_pos_bound(255int, p as int);
    let d: int = 255int / (p as int);
    let md: int = 255int % (p as int);
    assert(m < q) by (nonlinear_arith)
        requires
            m <= d,
            p * d + md == 255,
            md >= 0,
            p * q == 256,
            p > 0,
    ;
}

impl BigNumber {
    /// Generate a random value less than `n` using the specific random number generator.
    ///
    /// Draws as many bytes as `n` takes, clears the bits above the bit length of `n`, and
    /// accepts the first draw below `n`; zero should `u64::MAX` draws in a row all miss.
    pub fn from_rng(n: &Self, rng: &mut rand::rngs::StdRng) -> (r: Self)
        requires
            n@ > 0,
            bits_of(n@) + 8 <= usize::MAX,
        ensures
            0 <= r@ < n@,
    {
        let bits = n.bit_length();
        proof {
            assert(bits >= 1) by {
                assert(bit_length(0) == 0);
                lemma_bit_length_bound(abs(n@), 0);
                vstd::arithmetic::power2::lemma2_to64();
            }
        }
        let len_bytes = (bits - 1) / 8 + 1;
        let high_bits = len_bytes * 8 - bits;
        let mut t: Vec<u8> = vec![0u8; len_bytes];
        let mut attempts: u64 = u64::MAX;
        while attempts > 0
            invariant
                t@.len() == len_bytes,
                len_bytes >= 1,
                high_bits < 8,
                n@ > 0,
            decreases attempts,
        {
            fill_random(rng, t.as_mut_slice());
            if high_bits > 0 {
                let first = t[0] & (u8::MAX >> (high_bits as u8));
                t.set(0, first);
            }
            let b = BigNumber::from_slice(t.as_slice());
            if b < *n {
                return b;
            }
            attempts = attempts - 1;
        }
        BigNumber::zero()
    }

    /// Generate a random value less than `n`
    pub fn random(n: &Self) -> (r: Result<Self>)
        requires
            n@ > 0,
            bits_of(n@) + 8 <= usize::MAX,
        ensures
            r matches Ok(v) ==> 0 <= v@ < n@,
            r matches Err(e) ==> e is Random,
    {
        let mut rng = default_rng()?;
        Ok(BigNumber::from_rng(n, &mut rng))
    }

    /// Generate a random value between [lower, upper) using the specific random number generator
    pub fn random_range_with_rng(lower: &Self, upper: &Self, rng: &mut rand::rngs::StdRng) -> (r: Result<Self>)
        requires
            bits_of(upper@ - lower@) + 8 <= usize::MAX,
        ensures
            lower@ >= upper@ ==> (r matches Err(e) && e is InvalidRange),
            lower@ < upper@ ==> (r matches Ok(v) && lower@ <= v@ < upper@),
    {
        if lower >= upper {
            return Err(Error::InvalidRange);
        }
        let range = upper.sub(lower);
        let offset = BigNumber::from_rng(&range, rng);
        Ok(lower.add(&offset))
    }

    /// Generate a random value between [lower, upper)
    pub fn random_range(lower: &Self, upper: &Self) -> (r: Result<Self>)
        requires
            bits_of(upper@ - lower@) + 8 <= usize::MAX,
        ensures
            r matches Ok(v) ==> lower@ <= v@ < upper@,
            r matches Err(e) ==> e is Random || (e is InvalidRange && lower@ >= upper@),
            lower@ < upper@ ==> (r matches Err(e) ==> e is Random),
    {
        let mut rng = default_rng()?;
        BigNumber::random_range_with_rng(lower, upper, &mut rng)
    }

    /// Generate a random value with `n` bits using the specific random number generator
    pub fn from_rng_bits(n: u32, rng: &mut rand::rngs::StdRng) -> (r: Self)
        ensures
            n == 0 ==> r@ == 0,
            n > 0 ==> r@ > 0 && bits_of(r@) == n,
    {
        let n = n as usize;
        if n == 0 {
            return BigNumber::zero();
        }
        let mut t: Vec<u8> = vec![0u8; (n - 1) / 8 + 1];
        fill_random(rng, t.as_mut_slice());
        let excess_bits = (t.len() as u64) * 8 - (n as u64);
        if excess_bits > 0 {
            let first = t[0] & (u8::MAX >> (excess_bits as u8));
            proof {
                lemma_masked_byte(t[0], excess_bits as u8);
            }
            t.set(0, first);
        }
        proof {
            if excess_bits == 0 {
                vstd::arithmetic::power2::lemma2_to64();
            }
            lemma_be_value_head_bound(t@, (8 - excess_bits) as nat);
            assert((8 * (t@.len() - 1) + (8 - excess_bits)) as nat == n as nat);
        }
        let b = BigNumber::from_slice(t.as_slice());
        let r = big_set_bit(&b, (n - 1) as u64);
        proof {
            lemma_top_bit(b@ as nat, n as nat, r@ as nat);
            assert(abs(r@) == r@);
        }
        r
    }

    /// Generate a random value with `n` bits
    pub fn random_bits(n: u32) -> (r: Result<Self>)
        ensures
            r matches Ok(v) ==> (n == 0 ==> v@ == 0) && (n > 0 ==> v@ > 0 && bits_of(v@) == n),
            r matches Err(e) ==> e is Random,
    {
        let mut rng = default_rng()?;
        Ok(BigNumber::from_rng_bits(n, &mut rng))
    }
}

impl BigNumber {
    /// Whether the value is non-negative and `glass_pumpkin`'s Baillie-PSW test accepts it.
    pub open spec fn prime_test(&self) -> bool {
        self@ >= 0 && glass_pumpkin_strong_check(self@)
    }

    /// True if a prime number
    pub fn is_prime(&self) -> (r: Result<bool>)
        ensures
            r matches Ok(b) ==> b == self.prime_test(),
            self@ < 0 ==> (r matches Ok(b) && !b),
            r matches Err(e) ==> e is Random,
    {
        if self.is_negative() {
            return Ok(false);
        }
        let mut rng = default_rng()?;
        Ok(big_strong_check(self, &mut rng))
    }

    /// Generate a prime with `size` bits with a user-provided rng
    pub fn prime_from_rng(size: usize, rng: &mut rand::rngs::StdRng) -> (r: Result<Self>)
        ensures
            size < 128 ==> (r matches Err(Error::BitLengthTooSmall { actual, minimum })
                && actual == size && minimum == 128),
            size >= 128 ==> (r matches Ok(p) && p@ > 0 && bits_of(p@) == size && p@ % 2 == 1 && p.prime_test()),
    {
        validate_bit_length(size, 128, usize::MAX)?;
        match big_random_prime(size, rng) {
            Ok(p) => Ok(p),
            Err(e) => Err(Error::PrimeGeneration(e)),
        }
    }

    /// Generate a safe prime with `size` bits with a user-provided rng
    pub fn safe_prime_from_rng(size: usize, rng: &mut rand::rngs::StdRng) -> (r: Result<Self>)
        ensures
            size < 128 ==> (r matches Err(Error::BitLengthTooSmall { actual, minimum })
                && actual == size && minimum == 128),
            size >= 128 ==> (r matches Ok(p) && p@ > 0 && bits_of(p@) == size && p@ % 2 == 1 && p.prime_test()),
    {
        validate_bit_length(size, 128, usize::MAX)?;
        match big_random_safe_prime(size, rng) {
            Ok(p) => Ok(p),
            Err(e) => Err(Error::PrimeGeneration(e)),
        }
    }

    /// Generate a prime with `size` bits
    pub fn prime(size: usize) -> (r: Result<Self>)
        ensures
            size < 128 ==> (r matches Err(e) && (e is Random
                || (e matches Error::BitLengthTooSmall { actual, minimum } && actual == size && minimum == 128))),
            size >= 128 ==> (r matches Ok(p) ==> p@ > 0 && bits_of(p@) == size && p@ % 2 == 1 && p.prime_test()),
            size >= 128 ==> (r matches Err(e) ==> e is Random),
    {
        let mut rng = default_rng()?;
        BigNumber::prime_from_rng(size, &mut rng)
    }

    /// Generate a safe prime with `size` bits
    pub fn safe_prime(size: usize) -> (r: Result<Self>)
        ensures
            size < 128 ==> (r matches Err(e) && (e is Random
                || (e matches Error::BitLengthTooSmall { actual, minimum } && actual == size && minimum == 128))),
            size >= 128 ==> (r matches Ok(p) ==> p@ > 0 && bits_of(p@) == size && p@ % 2 == 1 && p.prime_test()),
            size >= 128 ==> (r matches Err(e) ==> e is Random),
    {
        let mut rng = default_rng()?;
        BigNumber::safe_prime_from_rng(size, &mut rng)
    }
}

/// Every number that the prime generators return is accepted by the primality test: given a
/// number `p` as [`BigNumber::prime_from_rng`] or [`BigNumber::safe_prime_from_rng`] returns it
/// and an answer of [`BigNumber::is_prime`] on `p`, a definite answer is `true`.
pub proof fn lemma_generated_primes_are_accepted(p: BigNumber, answer: Result<bool>)
    requires
        p@ > 0,
        p@ % 2 == 1,
        p.prime_test(),
        answer matches Ok(b) ==> b == p.prime_test(),
    ensures
        answer matches Ok(b) ==> b,
{
}

} // verus!
