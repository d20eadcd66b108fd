//! Random numbers and random primes: `crypto-bigint` draws them from a `rand::rngs::StdRng`,
//! and `crypto-primes` searches for primes.
use vstd::prelude::*;
use vstd::arithmetic::power2::{pow2, lemma_pow2_pos, lemma_pow2_unfold};
use vstd::arithmetic::div_mod::lemma_fundamental_div_mod;
use crate::error::{Error, Result, validate_bit_length};
use crate::crypto::sign::Sign;
use crate::crypto::bn::{BigNumber, bits_of, fits};
use crate::crypto::arith::lemma_bit_length_monotonic;
use crate::crypto::words::{words_value, bit_length, max_bits, MAX_BITS, abs, lemma_bit_length_bound};
use crypto_bigint::{BitOps, BoxedUint, RandomBits, RandomMod};
use rand::SeedableRng;

verus! {

/// The generator that random values are drawn from.
#[verifier::external_type_specification]
#[verifier::external_body]
pub struct ExStdRng(rand::rngs::StdRng);

/// `StdRng::try_from_rng(&mut SysRng)`: a generator seeded from operating-system entropy, or
/// the error of the entropy source. Nothing is stated of the outcome: it depends on the machine.
#[verifier::external_body]
pub(crate) fn seeded_rng() -> (r: core::result::Result<rand::rngs::StdRng, rand::rngs::SysError>) {
    rand::rngs::StdRng::try_from_rng(&mut rand::rngs::SysRng)
}

/// Get a default OS-level cryptographic RNG
pub fn default_rng() -> (r: Result<rand::rngs::StdRng>)
    ensures
        r matches Err(e) ==> e is Random,
{
    match seeded_rng() {
        Ok(rng) => Ok(rng),
        Err(e) => Err(Error::Random(e)),
    }
}

/// `RandomMod::random_mod_vartime`: a value below the modulus, in the modulus's words.
#[verifier::external_body]
pub(crate) fn words_random_mod(rng: &mut rand::rngs::StdRng, m: &Vec<u64>) -> (r: Vec<u64>)
    requires
        words_value(m@) != 0,
        64 * m@.len() <= u32::MAX,
    ensures
        r@.len() == m@.len(),
        words_value(r@) < words_value(m@),
{
    let m = BoxedUint::from_words(m.iter().copied());
    BoxedUint::random_mod_vartime(rng, m.as_nz_vartime().unwrap()).to_words().into_vec()
}

/// `RandomBits::random_bits`: a value below `2^bits`, in `ceil(bits / 64)` words.
#[verifier::external_body]
pub(crate) fn words_random_bits(rng: &mut rand::rngs::StdRng, bits: u32) -> (r: Vec<u64>)
    requires
        1 <= bits,
    ensures
        r@.len() == (bits + 63) / 64,
        words_value(r@) < pow2(bits as nat),
{
    let v: BoxedUint = RandomBits::random_bits(rng, bits);
    v.to_words().into_vec()
}

/// `BitOps::set_bit_vartime` with a set bit: the value with bit `index` set.
#[verifier::external_body]
pub(crate) fn words_set_bit(a: Vec<u64>, index: u32) -> (r: Vec<u64>)
    requires
        index < 64 * a@.len() <= u32::MAX,
    ensures
        r@.len() == a@.len(),
        words_value(r@) == (if (words_value(a@) / pow2(index as nat)) % 2 == 1 {
            words_value(a@)
        } else {
            words_value(a@) + pow2(index as nat)
        }),
{
    let mut v = BoxedUint::from_words(a);
    v.set_bit_vartime(index, true);
    v.to_words().into_vec()
}

/// The answer of `crypto_primes::is_prime` for the value held by these words, with
/// `Flavor::Safe` when `safe` holds and `Flavor::Any` otherwise: a Miller-Rabin test to base two
/// and a strengthened Lucas test. A function of its arguments alone.
pub uninterp spec fn crypto_primes_is_prime(safe: bool, words: Seq<u64>) -> bool;

/// `crypto_primes::is_prime` with `Flavor::Any`.
#[verifier::external_body]
pub(crate) fn words_is_prime(a: &Vec<u64>) -> (r: bool)
    ensures
        r == crypto_primes_is_prime(false, a@),
{
    crypto_primes::is_prime(crypto_primes::Flavor::Any, &BoxedUint::from_words(a.iter().copied()))
}

/// `crypto_primes::random_prime`: a random value of exactly `bits` bits that
/// `crypto_primes::is_prime` accepts, with `Flavor::Safe` when `safe` holds. It panics below the
/// smallest bit length of such a prime; `requires` leaves that out.
#[verifier::external_body]
pub(crate) fn words_random_prime(rng: &mut rand::rngs::StdRng, safe: bool, bits: u32) -> (r: Vec<u64>)
    requires
        bits >= (if safe { 3u32 } else { 2u32 }),
    ensures
        r@.len() == (bits + 63) / 64,
        bit_length(words_value(r@)) == bits,
        crypto_primes_is_prime(safe, r@),
{
    let flavor = if safe { crypto_primes::Flavor::Safe } else { crypto_primes::Flavor::Any };
    let p: BoxedUint = crypto_primes::random_prime(rng, flavor, bits);
    p.to_words().into_vec()
}

/// Setting the top bit of a value below `2^bits` gives a value of exactly `bits` bits.
pub(crate) proof fn lemma_top_bit(w: nat, bits: nat, r: nat)
    requires
        bits >= 1,
        w < pow2(bits),
        r == (if (w / pow2((bits - 1) as nat)) % 2 == 1 { w } else { w + pow2((bits - 1) as nat) }),
    ensures
        bit_length(r) == bits,
{
    let h = pow2((bits - 1) as nat);
    lemma_pow2_pos((bits - 1) as nat);
    lemma_pow2_unfold(bits);
    lemma_fundamental_div_mod(w as int, h as int);
    let q = w / h;
    vstd::arithmetic::div_mod::lemma_div_by_multiple_is_strongly_ordered(w as int, pow2(bits) as int, 2, h as int);
    assert(pow2(bits) == 2 * h);
    vstd::arithmetic::div_mod::lemma_div_by_multiple(2, h as int);
    assert(q < 2);
    vstd::arithmetic::div_mod::lemma_mod_pos_bound(w as int, h as int);
    assert(w == h * q + w % h);
    if q % 2 == 1 {
        assert(q == 1);
        assert(w >= h) by (nonlinear_arith)
            requires
                w == h * q + w % h,
                q == 1,
                w % h >= 0,
        ;
        assert(r >= h);
        assert(r < pow2(bits));
    } else {
        assert(q == 0);
        assert(h * q == 0) by (nonlinear_arith)
            requires
                q == 0,
        ;
        assert(w < h);
        assert(r < pow2(bits));
    }
    lemma_bit_length_bound(r, bits);
    lemma_bit_length_bound(r, (bits - 1) as nat);
}

impl BigNumber {
    /// Generate a random value less than `n` using the specific random number generator
    pub fn from_rng(n: &Self, rng: &mut rand::rngs::StdRng) -> (r: Self)
        ensures
            n@ == 0 ==> r@ == 0,
            n@ != 0 ==> 0 <= r@ < abs(n@),
    {
        proof {
            use_type_invariant(n);
            n.lemma_parts();
        }
        if n.is_zero() {
            return BigNumber::zero();
        }
        let value = words_random_mod(rng, &n.value);
        proof {
            lemma_bit_length_monotonic(words_value(value@), n.magnitude());
        }
        BigNumber::from_sign_magnitude(false, value)
    }

    /// Generate a random value less than `n`
    pub fn random(n: &Self) -> (r: Result<Self>)
        ensures
            r matches Ok(v) ==> (n@ == 0 ==> v@ == 0) && (n@ != 0 ==> 0 <= v@ < abs(n@)),
            r matches Err(e) ==> e is Random,
    {
        let mut rng = default_rng()?;
        Ok(BigNumber::from_rng(n, &mut rng))
    }

    /// Generate a random value with `n` bits using the specific random number generator
    pub fn from_rng_bits(n: u32, rng: &mut rand::rngs::StdRng) -> (r: Self)
        requires
            n <= max_bits(),
        ensures
            n == 0 ==> r@ == 0,
            n > 0 ==> r@ > 0 && bits_of(r@) == n,
    {
        if n < 1 {
            return BigNumber::zero();
        }
        let drawn = words_random_bits(rng, n);
        let ghost w = words_value(drawn@);
        proof {
            assert(64 * drawn@.len() <= u32::MAX);
        }
        let m = words_set_bit(drawn, n - 1);
        proof {
            lemma_top_bit(w, n as nat, words_value(m@));
        }
        let r = BigNumber::from_sign_magnitude(false, m);
        proof {
            assert(bit_length(0) == 0);
        }
        r
    }

    /// Generate a random value with `n` bits
    pub fn random_bits(n: u32) -> (r: Result<Self>)
        requires
            n <= max_bits(),
        ensures
            r matches Ok(v) ==> (n == 0 ==> v@ == 0) && (n > 0 ==> v@ > 0 && bits_of(v@) == n),
            r matches Err(e) ==> e is Random,
    {
        let mut rng = default_rng()?;
        Ok(BigNumber::from_rng_bits(n, &mut rng))
    }
}

impl BigNumber {
    /// Whether `crypto_primes::is_prime` with `Flavor::Any` accepts the magnitude.
    pub open spec fn prime_test(&self) -> bool {
        crypto_primes_is_prime(false, self.limb_words())
    }

    /// Whether `crypto_primes::is_prime` with `Flavor::Safe` accepts the magnitude.
    pub open spec fn safe_prime_test(&self) -> bool {
        crypto_primes_is_prime(true, self.limb_words())
    }

    /// True if a prime number
    pub fn is_prime(&self) -> (r: Result<bool>)
        ensures
            r matches Ok(b) && b == self.prime_test(),
    {
        proof {
            use_type_invariant(self);
            self.lemma_parts();
        }
        Ok(words_is_prime(&self.value))
    }

    /// A random prime of `size` bits; `safe` asks for a safe prime. The bit length is checked
    /// against the smallest such prime and against the `u32` that counts bits.
    fn random_prime_of(size: usize, safe: bool, rng: &mut rand::rngs::StdRng) -> (r: Result<Self>)
        ensures
            size < (if safe { 3usize } else { 2usize }) ==> (r matches Err(Error::BitLengthTooSmall { actual, minimum })
                && actual == size && minimum == (if safe { 3usize } else { 2usize })),
            size > u32::MAX ==> (r matches Err(Error::BitLengthTooLarge { actual, maximum })
                && actual == size && maximum == u32::MAX),
            max_bits() < size <= u32::MAX ==> (r matches Err(Error::BitLengthTooLarge { actual, maximum })
                && actual == size && maximum == MAX_BITS),
            (if safe { 3usize } else { 2usize }) <= size <= max_bits() ==> (r matches Ok(p)
                && p@ > 0 && bits_of(p@) == size
                && (if safe { p.safe_prime_test() } else { p.prime_test() })),
    {
        let minimum: usize = if safe { 3 } else { 2 };
        validate_bit_length(size, minimum, u32::MAX as usize)?;
        if size > MAX_BITS as usize {
            return Err(Error::BitLengthTooLarge { actual: size, maximum: MAX_BITS as usize });
        }
        let bits = size as u32;
        let value = words_random_prime(rng, safe, bits);
        proof {
            lemma_bit_length_bound(words_value(value@), bits as nat);
            assert(words_value(value@) > 0) by {
                assert(bit_length(0) == 0);
            }
        }
        let p = BigNumber { sign: Sign::Plus, value };
        proof {
            use_type_invariant(&p);
            p.lemma_parts();
        }
        Ok(p)
    }

    /// Generate a prime with `size` bits with a user-provided rng
    pub fn prime_from_rng(size: usize, rng: &mut rand::rngs::StdRng) -> (r: Result<Self>)
        ensures
            size < 2 ==> (r matches Err(Error::BitLengthTooSmall { actual, minimum }) && actual == size && minimum == 2),
            size > u32::MAX ==> (r matches Err(Error::BitLengthTooLarge { actual, maximum })
                && actual == size && maximum == u32::MAX),
            max_bits() < size <= u32::MAX ==> (r matches Err(Error::BitLengthTooLarge { actual, maximum })
                && actual == size && maximum == MAX_BITS),
            2 <= size <= max_bits() ==> (r matches Ok(p) && p@ > 0 && bits_of(p@) == size && p.prime_test()),
    {
        BigNumber::random_prime_of(size, false, rng)
    }

    /// Generate a safe prime with `size` bits with a user-provided rng
    pub fn safe_prime_from_rng(size: usize, rng: &mut rand::rngs::StdRng) -> (r: Result<Self>)
        ensures
            size < 3 ==> (r matches Err(Error::BitLengthTooSmall { actual, minimum }) && actual == size && minimum == 3),
            size > u32::MAX ==> (r matches Err(Error::BitLengthTooLarge { actual, maximum })
                && actual == size && maximum == u32::MAX),
            max_bits() < size <= u32::MAX ==> (r matches Err(Error::BitLengthTooLarge { actual, maximum })
                && actual == size && maximum == MAX_BITS),
            3 <= size <= max_bits() ==> (r matches Ok(p) && p@ > 0 && bits_of(p@) == size && p.safe_prime_test()),
    {
        BigNumber::random_prime_of(size, true, rng)
    }

    /// Generate a prime with `size` bits
    pub fn prime(size: usize) -> (r: Result<Self>)
        ensures
            size < 2 ==> (r matches Err(e) && (e is Random
                || (e matches Error::BitLengthTooSmall { actual, minimum } && actual == size && minimum == 2))),
            size > u32::MAX ==> (r matches Err(e) && (e is Random
                || (e matches Error::BitLengthTooLarge { actual, maximum } && actual == size && maximum == u32::MAX))),
            max_bits() < size <= u32::MAX ==> (r matches Err(e) && (e is Random
                || (e matches Error::BitLengthTooLarge { actual, maximum } && actual == size && maximum == MAX_BITS))),
            2 <= size <= u32::MAX ==> (r matches Ok(p) ==> p@ > 0 && bits_of(p@) == size && p.prime_test()),
            2 <= size <= max_bits() ==> (r matches Err(e) ==> e is Random),
    {
        let mut rng = default_rng()?;
        BigNumber::prime_from_rng(size, &mut rng)
    }

    /// Generate a safe prime with `size` bits
    pub fn safe_prime(size: usize) -> (r: Result<Self>)
        ensures
            size < 3 ==> (r matches Err(e) && (e is Random
                || (e matches Error::BitLengthTooSmall { actual, minimum } && actual == size && minimum == 3))),
            size > u32::MAX ==> (r matches Err(e) && (e is Random
                || (e matches Error::BitLengthTooLarge { actual, maximum } && actual == size && maximum == u32::MAX))),
            max_bits() < size <= u32::MAX ==> (r matches Err(e) && (e is Random
                || (e matches Error::BitLengthTooLarge { actual, maximum } && actual == size && maximum == MAX_BITS))),
            3 <= size <= u32::MAX ==> (r matches Ok(p) ==> p@ > 0 && bits_of(p@) == size && p.safe_prime_test()),
            3 <= size <= max_bits() ==> (r matches Err(e) ==> e is Random),
    {
        let mut rng = default_rng()?;
        BigNumber::safe_prime_from_rng(size, &mut rng)
    }
}

impl BigNumber {
    /// Generate a random value between [lower, upper) using the specific random number generator
    pub fn random_range_with_rng(lower: &Self, upper: &Self, rng: &mut rand::rngs::StdRng) -> (r: Result<Self>)
        requires
            fits(upper@ - lower@),
        ensures
            lower@ >= upper@ ==> (r matches Err(e) && e is InvalidRange),
            lower@ < upper@ ==> (r matches Ok(v) && lower@ <= v@ < upper@),
    {
        if lower >= upper {
            return Err(Error::InvalidRange);
        }
        let range = upper.sub(lower);
        let offset = BigNumber::from_rng(&range, rng);
        proof {
            use_type_invariant(lower);
            use_type_invariant(upper);
            lower.lemma_parts();
            upper.lemma_parts();
            let s = lower@ + offset@;
            if abs(s) <= abs(lower@) {
                lemma_bit_length_monotonic(abs(s), abs(lower@));
            } else {
                lemma_bit_length_monotonic(abs(s), abs(upper@));
            }
        }
        Ok(lower.add(&offset))
    }

    /// Generate a random value between [lower, upper)
    pub fn random_range(lower: &Self, upper: &Self) -> (r: Result<Self>)
        requires
            fits(upper@ - lower@),
        ensures
            r matches Ok(v) ==> lower@ <= v@ < upper@,
            r matches Err(e) ==> e is Random || (e is InvalidRange && lower@ >= upper@),
            lower@ < upper@ ==> (r matches Err(e) ==> e is Random),
    {
        let mut rng = default_rng()?;
        BigNumber::random_range_with_rng(lower, upper, &mut rng)
    }
}

} // verus!
