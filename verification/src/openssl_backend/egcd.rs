//! The extended Euclidean algorithm on numbers of the OpenSSL backend.
use vstd::prelude::*;
use crate::gcd_result::GcdResult;
use crate::openssl_backend::bn::{BigNumber, max_bits};
use crate::crypto::bn::bits_of;
use crate::crypto::arith::{
    int_gcd, lemma_trunc_div_rem, lemma_bit_length_monotonic, lemma_bit_length_mul,
};
use crate::crypto::egcd::{
    coefficient_bound, lemma_abs_mul, lemma_bits_square_bound, lemma_step_bound,
};
use crate::crypto::limbs::nat_gcd;
use crate::crypto::words::{bit_length, abs};

verus! {

impl BigNumber {
    /// Compute the extended euclid algorithm and return the Bézout coefficients and GCD
    pub fn extended_gcd(&self, other: &Self) -> (r: GcdResult<Self>)
        requires
            2 * bits_of(self@) + 1 <= max_bits(),
            2 * bits_of(other@) + 1 <= max_bits(),
        ensures
            r.gcd@ == int_gcd(self@, other@),
            r.x@ * self@ + r.y@ * other@ == r.gcd@,
    {
        let ghost a = self@;
        let ghost b = other@;
        let ghost m = coefficient_bound(a, b);
        let mut s0 = BigNumber::zero();
        let mut s1 = BigNumber::one();
        let mut t0 = BigNumber::one();
        let mut t1 = BigNumber::zero();
        let mut r0 = other.clone();
        let mut r1 = self.clone();
        proof {
            assert(2 * bit_length(m) + 1 <= max_bits()) by {
                assert(bit_length(1) == 1) by {
                    assert(bit_length(0) == 0);
                }
                if abs(a) < abs(b) {
                    assert(bit_length(m) == bits_of(b));
                } else if abs(a) > 0 {
                    assert(bit_length(m) == bits_of(a));
                }
            }
            assert(abs(s0@) * abs(r1@) == 0) by (nonlinear_arith)
                requires
                    abs(s0@) == 0,
            ;
            assert(abs(t1@) * abs(r0@) == 0) by (nonlinear_arith)
                requires
                    abs(t1@) == 0,
            ;
            assert(abs(s1@) * abs(r0@) == abs(b));
            assert(abs(t0@) * abs(r1@) == abs(a));
        }
        while !r0.is_zero()
            invariant
                a == self@,
                b == other@,
                m == coefficient_bound(a, b),
                2 * bit_length(m) + 1 <= max_bits(),
                r0@ == s0@ * a + t0@ * b,
                r1@ == s1@ * a + t1@ * b,
                nat_gcd(abs(r1@), abs(r0@)) == nat_gcd(abs(a), abs(b)),
                abs(r0@) <= m,
                abs(r1@) <= m,
                abs(s0@) <= m,
                abs(s1@) <= m,
                abs(t0@) <= m,
                abs(t1@) <= m,
                abs(s0@) * abs(r1@) + abs(s1@) * abs(r0@) <= abs(b),
                abs(t0@) * abs(r1@) + abs(t1@) * abs(r0@) <= abs(a),
                r1@ == 0 ==> s0@ == 0 && t0@ == 1,
            decreases abs(r0@),
        {
            let ghost (old_r0, old_r1, old_s0, old_s1, old_t0, old_t1) = (r0@, r1@, s0@, s1@, t0@, t1@);
            proof {
                lemma_trunc_div_rem(old_r1, old_r0);
                lemma_bit_length_monotonic(abs(old_r1) / abs(old_r0), m);
                vstd::arithmetic::div_mod::lemma_div_is_ordered_by_denominator(abs(old_r1) as int, 1, abs(old_r0) as int);
                lemma_bit_length_monotonic(abs(old_r0), m);
                lemma_bit_length_monotonic(abs(old_s0), m);
                lemma_bit_length_monotonic(abs(old_t0), m);
            }
            let quotient = r1.div(&r0);
            let ghost q = quotient@;
            proof {
                lemma_step_bound(old_s0, old_s1, old_r0, old_r1, abs(b) as int);
                lemma_step_bound(old_t0, old_t1, old_r0, old_r1, abs(a) as int);
                lemma_abs_mul(q, old_r0);
                lemma_abs_mul(q, old_s0);
                lemma_abs_mul(q, old_t0);
                assert(abs(q) <= m);
                assert(abs(q) * abs(old_s0) <= m * m) by (nonlinear_arith)
                    requires abs(q) <= m, abs(old_s0) <= m;
                assert(abs(q) * abs(old_t0) <= m * m) by (nonlinear_arith)
                    requires abs(q) <= m, abs(old_t0) <= m;
                lemma_bit_length_monotonic(abs(q), m);
                lemma_bit_length_mul(abs(q), abs(old_r0));
                lemma_bit_length_mul(abs(q), abs(old_s0));
                lemma_bit_length_mul(abs(q), abs(old_t0));
                lemma_bits_square_bound(abs(old_s1 - q * old_s0), m);
                lemma_bits_square_bound(abs(old_t1 - q * old_t0), m);
                lemma_bit_length_monotonic(abs(old_r1 - q * old_r0), m);
            }
            core::mem::swap(&mut r0, &mut r1);
            r0 = r0.sub(&quotient.mul(&r1));
            core::mem::swap(&mut s0, &mut s1);
            s0 = s0.sub(&quotient.mul(&s1));
            core::mem::swap(&mut t0, &mut t1);
            t0 = t0.sub(&quotient.mul(&t1));
            proof {
                let new_s0 = old_s1 - q * old_s0;
                let new_t0 = old_t1 - q * old_t0;
                assert(r0@ == new_s0 * a + new_t0 * b) by (nonlinear_arith)
                    requires
                        r0@ == old_r1 - q * old_r0,
                        old_r0 == old_s0 * a + old_t0 * b,
                        old_r1 == old_s1 * a + old_t1 * b,
                        new_s0 == old_s1 - q * old_s0,
                        new_t0 == old_t1 - q * old_t0,
                ;
                assert(abs(s0@) * abs(old_r0) <= abs(b)) by (nonlinear_arith)
                    requires
                        abs(s0@) * abs(old_r0) + abs(old_s0) * abs(r0@) <= abs(b),
                        abs(old_s0) * abs(r0@) >= 0,
                ;
                assert(abs(t0@) * abs(old_r0) <= abs(a)) by (nonlinear_arith)
                    requires
                        abs(t0@) * abs(old_r0) + abs(old_t0) * abs(r0@) <= abs(a),
                        abs(old_t0) * abs(r0@) >= 0,
                ;
                assert(abs(s0@) <= m) by (nonlinear_arith)
                    requires
                        abs(s0@) * abs(old_r0) <= abs(b),
                        abs(old_r0) >= 1,
                        abs(b) <= m,
                ;
                assert(abs(t0@) <= m) by (nonlinear_arith)
                    requires
                        abs(t0@) * abs(old_r0) <= abs(a),
                        abs(old_r0) >= 1,
                        abs(a) <= m,
                ;
            }
        }
        proof {
            assert(nat_gcd(abs(r1@), 0) == abs(r1@));
            lemma_bit_length_monotonic(abs(r1@), m);
            lemma_bit_length_monotonic(abs(s1@), m);
            lemma_bit_length_monotonic(abs(t1@), m);
        }
        if r1 >= BigNumber::zero() {
            GcdResult { gcd: r1, x: s1, y: t1 }
        } else {
            let zero = BigNumber::zero();
            let gcd = zero.sub(&r1);
            let x = zero.sub(&s1);
            let y = zero.sub(&t1);
            proof {
                assert(x@ * a + y@ * b == gcd@) by (nonlinear_arith)
                    requires
                        r1@ == s1@ * a + t1@ * b,
                        gcd@ == -r1@,
                        x@ == -s1@,
                        y@ == -t1@,
                ;
            }
            GcdResult { gcd, x, y }
        }
    }
}

} // verus!
