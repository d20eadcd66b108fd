//! Random numbers and random primes of the OpenSSL backend: bytes drawn from a
//! `rand::rngs::StdRng`, primality judged and primes generated by OpenSSL.
use vstd::prelude::*;
use vstd::arithmetic::power2::{pow2, lemma_pow2_pos, lemma_pow2_unfold};
use crate::bytes::{be_value, lemma_be_value_head_bound, lemma_be_value_bound, lemma_min_bytes};
use crate::error::{Error, Result, validate_bit_length};
use crate::modspec::is_prime_int;
use crate::crypto::bn::bits_of;
use crate::crypto::words::{abs, bit_length, lemma_bit_length_bound};
use crate::crypto::arith::lemma_bit_length_monotonic;
use crate::crypto::random::{default_rng, lemma_top_bit};
use crate::rust::big::fill_random;
use crate::rust::random::lemma_masked_byte;
use crate::openssl_backend::bn::{BigNumber, MAX_BITS, max_bits, fits};
use crate::openssl_backend::ssl::{ssl_is_prime, ssl_generate_prime, ssl_set_bit};

verus! {

/// Bytes whose first byte is masked down to the low `8 - excess` bits hold less than
/// `2^(8 len - excess)`.
proof fn lemma_masked_bytes(s: Seq<u8>, excess: nat)
    requires
        s.len() > 0,
        excess < 8,
        excess > 0 ==> s[0] < pow2((8 - excess) as nat),
    ensures
        be_value(s) < pow2((8 * s.len() - excess) as nat),
{
    if excess == 0 {
        lemma_be_value_bound(s);
    } else {
        lemma_be_value_head_bound(s, (8 - excess) as nat);
        assert((8 * (s.len() - 1) + (8 - excess)) as nat == (8 * s.len() - excess) as nat);
    }
}

impl BigNumber {
    /// Generate a random value less than `n` using the specific random number generator.
    ///
    /// Draws as many bytes as `n` takes, clears the bits above the bit length of `n`, and
    /// accepts the first draw below `n`; zero for a zero `n`, and zero should `u64::MAX` draws
    /// in a row all miss.
    pub fn from_rng(n: &Self, rng: &mut rand::rngs::StdRng) -> (r: Self)
        requires
            n@ >= 0,
        ensures
            n@ == 0 ==> r@ == 0,
            n@ > 0 ==> 0 <= r@ < n@,
    {
        if n.is_zero() {
            return BigNumber::zero();
        }
        proof {
            use_type_invariant(n);
            n.lemma_parts();
        }
        let bits = n.bit_length();
        proof {
            assert(bits >= 1) by {
                assert(bit_length(0) == 0);
            }
        }
        let count = (bits - 1) / 8 + 1;
        let excess_bits = count * 8 - bits;
        let mut bytes: Vec<u8> = vec![0u8; count];
        let mut attempts: u64 = u64::MAX;
        while attempts > 0
            invariant
                bytes@.len() == count,
                count >= 1,
                excess_bits < 8,
                8 * count - excess_bits == bits,
                bits == bits_of(n@),
                bits <= max_bits(),
                n@ > 0,
            decreases attempts,
        {
            fill_random(rng, bytes.as_mut_slice());
            if excess_bits > 0 {
                let first = bytes[0] & (u8::MAX >> (excess_bits as u8));
                proof {
                    lemma_masked_byte(bytes[0], excess_bits as u8);
                }
                bytes.set(0, first);
            }
            proof {
                lemma_masked_bytes(bytes@, excess_bits as nat);
                lemma_bit_length_bound(be_value(bytes@), bits as nat);
            }
            let value = BigNumber::from_slice(bytes.as_slice());
            if value < *n {
                return value;
            }
            attempts = attempts - 1;
        }
        BigNumber::zero()
    }

    /// Generate a random value less than `n`
    pub fn random(n: &Self) -> (r: Result<Self>)
        requires
            n@ >= 0,
        ensures
            r matches Ok(v) ==> (n@ == 0 ==> v@ == 0) && (n@ > 0 ==> 0 <= v@ < n@),
            r matches Err(e) ==> e is Random,
    {
        let mut rng = default_rng()?;
        Ok(BigNumber::from_rng(n, &mut rng))
    }

    /// Generate a random value between [lower, upper) using the specific random number generator
    pub fn random_range_with_rng(lower: &Self, upper: &Self, rng: &mut rand::rngs::StdRng) -> (r: Result<Self>)
        requires
            fits(upper@ - lower@),
        ensures
            lower@ >= upper@ ==> (r matches Err(e) && e is InvalidRange),
            lower@ < upper@ ==> (r matches Ok(v) && lower@ <= v@ < upper@),
    {
        if lower >= upper {
            return Err(Error::InvalidRange);
        }
        let range = upper.sub(lower);
        let offset = BigNumber::from_rng(&range, rng);
        proof {
            use_type_invariant(lower);
            use_type_invariant(upper);
            lower.lemma_parts();
            upper.lemma_parts();
            let s = lower@ + offset@;
            if abs(s) <= abs(lower@) {
                lemma_bit_length_monotonic(abs(s), abs(lower@));
            } else {
                lemma_bit_length_monotonic(abs(s), abs(upper@));
            }
        }
        Ok(lower.add(&offset))
    }

    /// Generate a random value between [lower, upper)
    pub fn random_range(lower: &Self, upper: &Self) -> (r: Result<Self>)
        requires
            fits(upper@ - lower@),
        ensures
            r matches Ok(v) ==> lower@ <= v@ < upper@,
            r matches Err(e) ==> e is Random || (e is InvalidRange && lower@ >= upper@),
            lower@ < upper@ ==> (r matches Err(e) ==> e is Random),
    {
        if lower >= upper {
            return Err(Error::InvalidRange);
        }
        let mut rng = default_rng()?;
        BigNumber::random_range_with_rng(lower, upper, &mut rng)
    }

    /// Random bytes for a value of `n` bits: `ceil(n / 8)` bytes with the bits above `n`
    /// cleared.
    fn random_bytes_of_bits(n: usize, rng: &mut rand::rngs::StdRng) -> (r: Vec<u8>)
        requires
            1 <= n <= max_bits(),
        ensures
            r@.len() == (n - 1) / 8 + 1,
            be_value(r@) < pow2(n as nat),
    {
        let mut t: Vec<u8> = vec![0u8; (n - 1) / 8 + 1];
        fill_random(rng, t.as_mut_slice());
        let excess_bits = t.len() * 8 - n;
        if excess_bits > 0 {
            let first = t[0] & (u8::MAX >> (excess_bits as u8));
            proof {
                lemma_masked_byte(t[0], excess_bits as u8);
            }
            t.set(0, first);
        }
        proof {
            lemma_masked_bytes(t@, excess_bits as nat);
        }
        t
    }

    /// Generate a random value with `n` bits using the specific random number generator
    pub fn from_rng_bits(n: u32, rng: &mut rand::rngs::StdRng) -> (r: Self)
        requires
            n <= max_bits(),
        ensures
            n == 0 ==> r@ == 0,
            n > 0 ==> r@ > 0 && bits_of(r@) == n,
    {
        if n == 0 {
            return BigNumber::zero();
        }
        let t = BigNumber::random_bytes_of_bits(n as usize, rng);
        proof {
            lemma_bit_length_bound(be_value(t@), n as nat);
        }
        let b = BigNumber::from_slice(t.as_slice());
        let r = ssl_set_bit(&b, (n - 1) as i32);
        proof {
            lemma_top_bit(b@ as nat, n as nat, r@ as nat);
            assert(abs(r@) == r@);
        }
        r
    }

    /// Generate a random value with `n` bits
    pub fn random_bits(n: u32) -> (r: Result<Self>)
        requires
            n <= max_bits(),
        ensures
            r matches Ok(v) ==> (n == 0 ==> v@ == 0) && (n > 0 ==> v@ > 0 && bits_of(v@) == n),
            r matches Err(e) ==> e is Random,
    {
        let mut rng = default_rng()?;
        Ok(BigNumber::from_rng_bits(n, &mut rng))
    }
}

impl BigNumber {
    /// True if a prime number: OpenSSL's Miller-Rabin test with 15 rounds. A prime is always
    /// answered `true`; the answer for a composite rests on the bases that OpenSSL draws.
    pub fn is_prime(&self) -> (r: Result<bool>)
        ensures
            r matches Ok(b) ==> (is_prime_int(self@) ==> b),
            r matches Err(e) ==> e is OpenSsl,
    {
        match ssl_is_prime(self, 15) {
            Ok(b) => Ok(b),
            Err(e) => Err(Error::OpenSsl(e)),
        }
    }

    /// A prime of at least `size` bits from OpenSSL's generator, a safe one when `safe` holds.
    fn generated_prime(size: usize, safe: bool) -> (r: Result<Self>)
        requires
            2 <= size <= i32::MAX,
        ensures
            r matches Ok(p) ==> p@ > 0 && bits_of(p@) >= size,
            r matches Err(e) ==> e is OpenSsl
                || (e matches Error::BitLengthTooLarge { actual, maximum } && actual == size && maximum == MAX_BITS),
    {
        match ssl_generate_prime(size as i32, safe) {
            Ok(magnitude) => {
                if magnitude.len() > (MAX_BITS / 8) as usize {
                    return Err(Error::BitLengthTooLarge { actual: size, maximum: MAX_BITS as usize });
                }
                proof {
                    lemma_min_bytes(be_value(magnitude@));
                    lemma_be_value_bound(magnitude@);
                    lemma_bit_length_bound(be_value(magnitude@), (8 * magnitude@.len()) as nat);
                    assert(bit_length(0) == 0);
                }
                let p = BigNumber { negative: false, magnitude };
                proof {
                    use_type_invariant(&p);
                    p.lemma_parts();
                }
                Ok(p)
            },
            Err(e) => Err(Error::OpenSsl(e)),
        }
    }

    /// Generate a prime with `size` bits
    pub fn prime(size: usize) -> (r: Result<Self>)
        ensures
            size < 2 ==> (r matches Err(Error::BitLengthTooSmall { actual, minimum }) && actual == size && minimum == 2),
            size > i32::MAX ==> (r matches Err(Error::BitLengthTooLarge { actual, maximum })
                && actual == size && maximum == i32::MAX),
            r matches Ok(p) ==> p@ > 0 && bits_of(p@) >= size,
            2 <= size <= i32::MAX ==> (r matches Err(e) ==> e is OpenSsl
                || (e matches Error::BitLengthTooLarge { actual, maximum } && actual == size && maximum == MAX_BITS)),
    {
        validate_bit_length(size, 2, i32::MAX as usize)?;
        BigNumber::generated_prime(size, false)
    }

    /// Generate a safe prime with `size` bits
    pub fn safe_prime(size: usize) -> (r: Result<Self>)
        ensures
            size < 3 ==> (r matches Err(Error::BitLengthTooSmall { actual, minimum }) && actual == size && minimum == 3),
            size > i32::MAX ==> (r matches Err(Error::BitLengthTooLarge { actual, maximum })
                && actual == size && maximum == i32::MAX),
            r matches Ok(p) ==> p@ > 0 && bits_of(p@) >= size,
            3 <= size <= i32::MAX ==> (r matches Err(e) ==> e is OpenSsl
                || (e matches Error::BitLengthTooLarge { actual, maximum } && actual == size && maximum == MAX_BITS)),
    {
        validate_bit_length(size, 3, i32::MAX as usize)?;
        BigNumber::generated_prime(size, true)
    }

    /// Generate a prime with `size` bits with a user-provided rng: random odd candidates of
    /// exactly `size` bits until OpenSSL's test with 25 rounds accepts one, or the last
    /// candidate should `u64::MAX` of them be refused.
    pub fn prime_from_rng(size: usize, rng: &mut rand::rngs::StdRng) -> (r: Result<Self>)
        ensures
            size < 2 ==> (r matches Err(Error::BitLengthTooSmall { actual, minimum }) && actual == size && minimum == 2),
            size > i32::MAX ==> (r matches Err(Error::BitLengthTooLarge { actual, maximum })
                && actual == size && maximum == i32::MAX),
            r matches Ok(p) ==> p@ > 0 && bits_of(p@) == size && p@ % 2 == 1,
            max_bits() < size <= i32::MAX ==> (r matches Err(Error::BitLengthTooLarge { actual, maximum })
                && actual == size && maximum == MAX_BITS),
            2 <= size <= max_bits() ==> (r matches Err(e) ==> e is OpenSsl),
    {
        validate_bit_length(size, 2, i32::MAX as usize)?;
        if size > MAX_BITS as usize {
            return Err(Error::BitLengthTooLarge { actual: size, maximum: MAX_BITS as usize });
        }
        let mut attempts: u64 = u64::MAX;
        loop
            invariant
                2 <= size <= max_bits(),
            decreases attempts,
        {
            let bytes = BigNumber::random_bytes_of_bits(size, rng);
            proof {
                lemma_bit_length_bound(be_value(bytes@), size as nat);
            }
            let drawn = BigNumber::from_slice(bytes.as_slice());
            let top = ssl_set_bit(&drawn, (size - 1) as i32);
            proof {
                lemma_top_bit(drawn@ as nat, size as nat, top@ as nat);
                lemma_bit_length_bound(top@ as nat, size as nat);
                lemma_pow2_pos((size - 1) as nat);
                assert(top@ > 0);
            }
            let candidate = ssl_set_bit(&top, 0);
            proof {
                vstd::arithmetic::power2::lemma2_to64();
                let t = top@;
                let c = candidate@;
                assert(c % 2 == 1) by {
                    assert(t / 1 == t);
                    if t % 2 == 1 {
                        assert(c == t);
                    } else {
                        assert(c == t + 1);
                    }
                }
                assert(bits_of(c) == size) by {
                    lemma_bit_length_bound(t as nat, size as nat);
                    lemma_bit_length_bound(t as nat, (size - 1) as nat);
                    if t % 2 == 0 {
                        lemma_pow2_unfold(size as nat);
                        vstd::arithmetic::div_mod::lemma_fundamental_div_mod(t, 2);
                        assert(c < pow2(size as nat));
                    }
                    lemma_bit_length_bound(c as nat, size as nat);
                    lemma_bit_length_bound(c as nat, (size - 1) as nat);
                }
            }
            let accepted = match ssl_is_prime(&candidate, 25) {
                Ok(b) => b,
                Err(e) => {
                    return Err(Error::OpenSsl(e));
                },
            };
            if accepted || attempts == 0 {
                return Ok(candidate);
            }
            attempts = attempts - 1;
        }
    }

    /// Generate a safe prime with `size` bits with a user-provided rng: `2q + 1` for random
    /// primes `q` of `size - 1` bits until OpenSSL's test with 25 rounds accepts one, or the
    /// last candidate should `u64::MAX` of them be refused.
    pub fn safe_prime_from_rng(size: usize, rng: &mut rand::rngs::StdRng) -> (r: Result<Self>)
        ensures
            size < 3 ==> (r matches Err(Error::BitLengthTooSmall { actual, minimum }) && actual == size && minimum == 3),
            size > i32::MAX ==> (r matches Err(Error::BitLengthTooLarge { actual, maximum })
                && actual == size && maximum == i32::MAX),
            r matches Ok(p) ==> p@ > 0 && bits_of(p@) == size && p@ % 2 == 1,
            max_bits() < size <= i32::MAX ==> (r matches Err(Error::BitLengthTooLarge { actual, maximum })
                && actual == size && maximum == MAX_BITS),
            3 <= size <= max_bits() ==> (r matches Err(e) ==> e is OpenSsl),
    {
        validate_bit_length(size, 3, i32::MAX as usize)?;
        if size > MAX_BITS as usize {
            return Err(Error::BitLengthTooLarge { actual: size, maximum: MAX_BITS as usize });
        }
        let one = BigNumber::one();
        let mut attempts: u64 = u64::MAX;
        loop
            invariant
                3 <= size <= max_bits(),
                one@ == 1,
            decreases attempts,
        {
            let q = BigNumber::prime_from_rng(size - 1, rng)?;
            proof {
                lemma_bit_length_bound(abs(q@), (size - 1) as nat);
                lemma_bit_length_bound(abs(q@), (size - 2) as nat);
                lemma_pow2_unfold((size - 1) as nat);
                lemma_pow2_unfold(size as nat);
                vstd::arithmetic::power2::lemma2_to64();
                lemma_bit_length_bound(abs(2 * q@), size as nat);
            }
            let two_q = q.shl(1);
            proof {
                lemma_bit_length_bound(abs(2 * q@ + 1), size as nat);
                lemma_bit_length_bound(abs(2 * q@ + 1), (size - 1) as nat);
            }
            let p = two_q.add(&one);
            let accepted = match ssl_is_prime(&p, 25) {
                Ok(b) => b,
                Err(e) => {
                    return Err(Error::OpenSsl(e));
                },
            };
            if accepted || attempts == 0 {
                return Ok(p);
            }
            attempts = attempts - 1;
        }
    }
}

} // verus!
