//! Inverses, powers and quotients modulo a number in the `num-bigint` backend.
use vstd::prelude::*;
use vstd::arithmetic::power::{pow, lemma_pow_mod_noop};
use vstd::arithmetic::div_mod::{
    lemma_fundamental_div_mod, lemma_mod_bound, lemma_small_mod, lemma_mod_multiples_vanish,
    lemma_mul_mod_noop_left,
};
use crate::rust::bn::BigNumber;
use crate::rust::big::{big_modpow, big_mod_floor, big_compare};
use crate::crypto::words::abs;
use crate::crypto::arith::{int_gcd, lemma_trunc_div_rem, lemma_gcd_divides};
use crate::crypto::egcd::lemma_step_bound;
use crate::crypto::limbs::nat_gcd;
use crate::modspec::{
    inverts, invertible, inverse, lemma_inverse_is, lemma_zero_not_invertible, modpow_value, moddiv_value,
};

verus! {

/// A common divisor above one of `a` and `n` leaves `a` without an inverse modulo `n`.
proof fn lemma_common_divisor_not_invertible(a: int, n: int, g: int)
    requires
        n > 1,
        g > 1,
        a % g == 0,
        n % g == 0,
    ensures
        !invertible(a % n, n),
{
    let b = a % n;
    lemma_fundamental_div_mod(a, n);
    lemma_fundamental_div_mod(a, g);
    lemma_fundamental_div_mod(n, g);
    if invertible(b, n) {
        let x = choose|x: int| #[trigger] inverts(b, x, n);
        lemma_fundamental_div_mod(b * x, n);
        let k = (b * x) / n;
        let i = a / g;
        let j = n / g;
        let y = (i - j * (a / n)) * x - j * k;
        assert(g * y == 1) by (nonlinear_arith)
            requires
                a == g * i,
                n == g * j,
                a == n * (a / n) + b,
                b * x == n * k + 1,
                y == (i - j * (a / n)) * x - j * k,
        ;
        assert(false) by (nonlinear_arith)
            requires
                g > 1,
                g * y == 1,
        ;
    }
}

impl BigNumber {
    /// Computes the multiplicative inverse of this element, failing if the element is zero.
    ///
    /// The value is first reduced modulo the magnitude of the modulus; there is no inverse
    /// modulo zero, one or minus one.
    pub fn invert(&self, n: &Self) -> (r: Option<Self>)
        ensures
            abs(n@) <= 1 ==> r is None,
            abs(n@) > 1 ==> (r is Some <==> invertible(self@ % (abs(n@) as int), abs(n@) as int)),
            abs(n@) > 1 ==> (r matches Some(v) ==> v@ == inverse(self@ % (abs(n@) as int), abs(n@) as int)),
    {
        if self.is_zero() || n.is_zero() || n.is_one() {
            proof {
                if abs(n@) > 1 {
                    lemma_zero_not_invertible(abs(n@) as int);
                    lemma_small_mod(0, abs(n@));
                }
            }
            return None;
        }
        let m = BigNumber::get_mod(n);
        let a = big_mod_floor(self, &m);
        if a.is_zero() {
            proof {
                if abs(n@) > 1 {
                    lemma_zero_not_invertible(abs(n@) as int);
                }
            }
            return None;
        }
        proof {
            lemma_mod_bound(self@, m@);
            lemma_small_mod(a@ as nat, m@ as nat);
        }
        a.invert_euclid(&m)
    }

    /// The extended Euclidean algorithm on the modulus and this value; it fails when the last
    /// remainder is above one. For a negative value that last remainder can be the negated
    /// greatest common divisor, and the coefficient returned then stands for it.
    fn invert_euclid(&self, n: &Self) -> (r: Option<Self>)
        ensures
            self@ == 0 || n@ == 0 || n@ == 1 ==> r is None,
            self@ > 0 && n@ > 1 ==> (r is Some <==> invertible(self@ % n@, n@)),
            self@ > 0 && n@ > 1 ==> (r matches Some(v) ==> v@ == inverse(self@ % n@, n@)),
            self@ < 0 && n@ > 1 ==> (r matches Some(v) ==> 0 <= v@ < n@ && ((self@ * v@) % n@ == 1
                || (self@ * v@ + int_gcd(n@, self@)) % n@ == 0)),
            self@ != 0 && n@ > 1 ==> (r is None ==> int_gcd(n@, self@) > 1),
    {
        if self.is_zero() || n.is_zero() || n.is_one() {
            return None;
        }
        let ghost a = self@;
        let ghost m = n@;
        let mut t = BigNumber::zero();
        let mut new_t = BigNumber::one();
        let mut r = n.clone();
        let mut new_r = self.clone();
        let ghost mut s: int = 1;
        let ghost mut new_s: int = 0;
        proof {
            assert(abs(t@) * abs(new_r@) == 0) by (nonlinear_arith)
                requires
                    t@ == 0,
            ;
            assert(abs(new_t@) * abs(r@) == abs(m)) by (nonlinear_arith)
                requires
                    new_t@ == 1,
                    r@ == m,
            ;
        }
        while !new_r.is_zero()
            invariant
                a == self@,
                m == n@,
                m != 0,
                a != 0,
                r@ == t@ * a + s * m,
                new_r@ == new_t@ * a + new_s * m,
                nat_gcd(abs(r@), abs(new_r@)) == nat_gcd(abs(m), abs(a)),
                r@ != 0,
                m > 1 ==> (r@ == m || abs(new_r@) < abs(r@)),
                m > 1 ==> abs(t@) * abs(new_r@) + abs(new_t@) * abs(r@) <= m,
                m > 1 ==> 2 * abs(t@) <= m,
                a > 0 && m > 0 ==> r@ >= 0 && new_r@ >= 0,
            decreases abs(new_r@),
        {
            let ghost (old_t, old_new_t, old_r, old_new_r) = (t@, new_t@, r@, new_r@);
            let quotient = r.div(&new_r);
            let ghost q = quotient@;
            proof {
                lemma_trunc_div_rem(old_r, old_new_r);
                if m > 1 {
                    lemma_step_bound(old_new_t, old_t, old_new_r, old_r, m);
                    assert(abs(old_r) >= 2);
                    assert(2 * abs(old_new_t) <= m) by (nonlinear_arith)
                        requires
                            abs(old_t) * abs(old_new_r) + abs(old_new_t) * abs(old_r) <= m,
                            abs(old_r) >= 2,
                            abs(old_t) * abs(old_new_r) >= 0,
                    ;
                }
            }
            core::mem::swap(&mut t, &mut new_t);
            new_t = new_t.sub(&quotient.mul(&t));
            core::mem::swap(&mut r, &mut new_r);
            new_r = new_r.sub(&quotient.mul(&r));
            proof {
                let next_s = s - q * new_s;
                assert(new_r@ == new_t@ * a + next_s * m) by (nonlinear_arith)
                    requires
                        new_r@ == old_r - q * old_new_r,
                        new_t@ == old_t - q * old_new_t,
                        old_r == old_t * a + s * m,
                        old_new_r == old_new_t * a + new_s * m,
                        next_s == s - q * new_s,
                ;
                s = new_s;
                new_s = next_s;
            }
        }
        proof {
            assert(nat_gcd(abs(r@), 0) == abs(r@));
        }
        let one = BigNumber::one();
        if big_compare(&r, &one) > 0 {
            proof {
                if m > 1 {
                    lemma_gcd_divides(abs(m), abs(a));
                    vstd::arithmetic::div_mod::lemma_mod_bound(a, m);
                    if a > 0 {
                        lemma_common_divisor_not_invertible(a, m, r@);
                    }
                }
            }
            return None;
        }
        let v = if t.is_negative() {
            t.add(n)
        } else {
            t
        };
        proof {
            if m > 1 {
                let k = if t@ < 0 { a - s } else { -s };
                assert(a * v@ == r@ + m * k) by (nonlinear_arith)
                    requires
                        r@ == t@ * a + s * m,
                        v@ == (if t@ < 0 { t@ + m } else { t@ }),
                        k == (if t@ < 0 { a - s } else { -s }),
                ;
                lemma_mod_multiples_vanish(k, r@, m);
                assert((a * v@) % m == r@ % m) by {
                    assert(m * k + r@ == a * v@);
                }
                if r@ == 1 {
                    lemma_small_mod(1, m as nat);
                } else {
                    assert(r@ < 0);
                    let g = int_gcd(m, a) as int;
                    assert(r@ == -g);
                    lemma_mod_multiples_vanish(k, 0, m);
                    assert(a * v@ + g == m * k);
                    lemma_small_mod(0, m as nat);
                }
                if a > 0 {
                    assert(r@ == 1);
                    lemma_mul_mod_noop_left(a, v@, m);
                    lemma_mod_bound(a, m);
                    lemma_inverse_is(a % m, v@, m);
                }
            }
        }
        Some(v)
    }

    /// Returns `(self ^ exponent) mod n`
    /// Note that this rounds down
    /// which makes a difference when given a negative `self` or `n`.
    /// The result will be in the interval `[0, n)` for `n > 0`
    pub fn modpow(&self, exponent: &Self, n: &Self) -> (r: Self)
        ensures
            r@ == modpow_value(self@, exponent@, n@),
            abs(n@) > 1 ==> 0 <= r@ < abs(n@),
            abs(n@) <= 1 ==> r@ == 0,
    {
        if n.is_zero() {
            return BigNumber::zero();
        }
        let nn = BigNumber::get_mod(n);
        let ghost mm = nn@;
        if exponent.is_negative() {
            match self.invert(&nn) {
                None => {
                    proof {
                        if mm > 1 && self@ >= 0 {
                            lemma_mod_bound(self@, mm);
                            if self@ == 0 {
                                lemma_small_mod(0, mm as nat);
                                lemma_zero_not_invertible(mm);
                            }
                        }
                    }
                    BigNumber::zero()
                },
                Some(inverse) => {
                    let e = exponent.neg();
                    proof {
                        lemma_mod_bound(pow(inverse@, e@ as nat), mm);
                    }
                    big_modpow(&inverse, &e, &nn)
                },
            }
        } else {
            proof {
                lemma_pow_mod_noop(self@, exponent@ as nat, mm);
                lemma_mod_bound(pow(self@, exponent@ as nat), mm);
                if mm == 1 {
                    assert(pow(self@, exponent@ as nat) % 1 == 0);
                }
            }
            big_modpow(self, exponent, &nn)
        }
    }

    /// Compute (self * 1/rhs) mod n
    pub fn moddiv(&self, rhs: &Self, n: &Self) -> (r: Self)
        requires
            n@ != 0,
        ensures
            r@ == moddiv_value(self@, rhs@, n@),
    {
        let nn = BigNumber::get_mod(n);
        let ghost mm = nn@;
        match rhs.invert(&nn) {
            None => {
                proof {
                    if mm > 1 && rhs@ == 0 {
                        lemma_small_mod(0, mm as nat);
                        lemma_zero_not_invertible(mm);
                    }
                }
                BigNumber::zero()
            },
            Some(inverse) => {
                proof {
                    if rhs@ >= 0 && mm > 1 {
                        lemma_mul_mod_noop_left(self@, inverse@, mm);
                    }
                }
                big_mod_floor(&self.mul(&inverse), &nn)
            },
        }
    }

    pub(crate) fn moddiv_assign(&mut self, rhs: &Self, n: &Self)
        requires
            n@ != 0,
        ensures
            final(self)@ == moddiv_value(old(self)@, rhs@, n@),
    {
        let modulus = BigNumber::get_mod(n);
        match rhs.invert(&modulus) {
            None => {
                proof {
                    if modulus@ > 1 && rhs@ == 0 {
                        lemma_small_mod(0, modulus@ as nat);
                        lemma_zero_not_invertible(modulus@);
                    }
                }
                *self = BigNumber::zero();
            },
            Some(inverse) => {
                *self = self.mul(&inverse);
                self.reduce_mod_assign(&modulus);
            },
        }
    }
}

} // verus!
