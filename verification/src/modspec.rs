//! The integers that modular arithmetic stands for: residues, inverses and powers.
use vstd::prelude::*;
use vstd::arithmetic::power::pow;
use vstd::arithmetic::div_mod::{lemma_small_mod, lemma_mul_mod_noop_left, lemma_mul_mod_noop_right};
use vstd::arithmetic::mul::{lemma_mul_is_associative, lemma_mul_is_commutative};

verus! {

/// The absolute value.
pub open spec fn abs(x: int) -> nat {
    if x < 0 {
        (-x) as nat
    } else {
        x as nat
    }
}

/// `x` is an inverse of `a` modulo `m`.
pub open spec fn inverts(a: int, x: int, m: int) -> bool {
    (a * x) % m == 1
}

/// `a` reduced modulo the magnitude of `n`, in `0..|n|`; zero for a zero modulus.
pub open spec fn reduce(a: int, n: int) -> int {
    if n == 0 {
        0
    } else {
        a % (abs(n) as int)
    }
}

/// `n` is a prime: above one, with no divisor strictly between one and itself.
pub open spec fn is_prime_int(n: int) -> bool {
    n > 1 && forall|d: int| 1 < d < n ==> #[trigger] (n % d) != 0
}

/// Some integer is an inverse of `a` modulo `m`.
pub open spec fn invertible(a: int, m: int) -> bool {
    exists|x: int| #[trigger] inverts(a, x, m)
}

/// The inverse of `a` modulo `m` in `0..m`, where there is one.
pub open spec fn inverse(a: int, m: int) -> int {
    choose|x: int| 0 <= x < m && #[trigger] inverts(a, x, m)
}

/// `(a ^ e) mod |n|`: a negative exponent raises the inverse, and gives zero where there is
/// none; a modulus of magnitude zero or one gives zero.
pub open spec fn modpow_value(a: int, e: int, n: int) -> int {
    let m = abs(n) as int;
    if m <= 1 {
        0
    } else if e >= 0 {
        pow(a % m, e as nat) % m
    } else if invertible(a % m, m) {
        pow(inverse(a % m, m), (-e) as nat) % m
    } else {
        0
    }
}

/// `(a / b) mod |n|`: `a` times the inverse of `b`; zero where `b` has no inverse or the
/// modulus's magnitude is zero or one.
pub open spec fn moddiv_value(a: int, b: int, n: int) -> int {
    let m = abs(n) as int;
    if m <= 1 {
        0
    } else if invertible(b % m, m) {
        (a * inverse(b % m, m)) % m
    } else {
        0
    }
}

/// Where there is an inverse, [`inverse`] picks one in `0..m`.
pub proof fn lemma_inverse_bound(a: int, m: int)
    requires
        m > 1,
        invertible(a, m),
    ensures
        0 <= inverse(a, m) < m,
        inverts(a, inverse(a, m), m),
{
    let x = choose|x: int| inverts(a, x, m);
    lemma_mul_mod_noop_right(a, x, m);
    vstd::arithmetic::div_mod::lemma_mod_bound(x, m);
    assert(inverts(a, x % m, m));
}

/// An inverse below the modulus is the only one.
pub proof fn lemma_inverse_unique(a: int, x: int, y: int, m: int)
    requires
        m > 1,
        0 <= x < m,
        0 <= y < m,
        inverts(a, x, m),
        inverts(a, y, m),
    ensures
        x == y,
{
    lemma_mul_mod_noop_right(x, a * y, m);
    lemma_mul_is_associative(x, a, y);
    lemma_mul_is_commutative(x, a);
    lemma_mul_mod_noop_left(a * x, y, m);
    lemma_small_mod(x as nat, m as nat);
    lemma_small_mod(y as nat, m as nat);
    assert(x * 1 == x);
    assert(1 * y == y);
}

/// An inverse that lies below the modulus is the one that [`inverse`] names.
pub proof fn lemma_inverse_is(a: int, x: int, m: int)
    requires
        m > 1,
        0 <= x < m,
        inverts(a, x, m),
    ensures
        invertible(a, m),
        inverse(a, m) == x,
{
    assert(invertible(a, m));
    let y = inverse(a, m);
    assert(0 <= y < m && inverts(a, y, m));
    lemma_inverse_unique(a, x, y, m);
}

/// A power modulo a magnitude above one lies below it.
pub proof fn lemma_modpow_value_bound(a: int, e: int, n: int)
    requires
        abs(n) > 1,
    ensures
        0 <= modpow_value(a, e, n) < abs(n),
{
    let m = abs(n) as int;
    vstd::arithmetic::div_mod::lemma_mod_bound(a, m);
    if e >= 0 {
        vstd::arithmetic::div_mod::lemma_mod_bound(pow(a % m, e as nat), m);
    } else if invertible(a % m, m) {
        vstd::arithmetic::div_mod::lemma_mod_bound(pow(inverse(a % m, m), (-e) as nat), m);
    }
}

/// The remainder of a negated value: zero, or the modulus minus the remainder of the value.
pub proof fn lemma_mod_negate(x: int, m: int)
    requires
        m > 0,
    ensures
        (-x) % m == (if x % m == 0 { 0 } else { m - x % m }),
{
    vstd::arithmetic::div_mod::lemma_fundamental_div_mod(x, m);
    vstd::arithmetic::div_mod::lemma_mod_bound(x, m);
    let q = x / m;
    let r = x % m;
    if r == 0 {
        assert(-x == m * (-q) + 0) by (nonlinear_arith)
            requires
                x == m * q + r,
                r == 0,
        ;
        vstd::arithmetic::div_mod::lemma_fundamental_div_mod_converse(-x, m, -q, 0);
    } else {
        assert(-x == m * (-q - 1) + (m - r)) by (nonlinear_arith)
            requires
                x == m * q + r,
        ;
        vstd::arithmetic::div_mod::lemma_fundamental_div_mod_converse(-x, m, -q - 1, m - r);
    }
}

/// Zero has no inverse modulo a modulus above one.
pub proof fn lemma_zero_not_invertible(m: int)
    requires
        m > 1,
    ensures
        !invertible(0, m),
{
    assert forall|x: int| !#[trigger] inverts(0, x, m) by {
        assert(0 * x == 0);
        vstd::arithmetic::div_mod::lemma_small_mod(0, m as nat);
    }
}

} // verus!
