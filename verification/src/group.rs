//! Groups of integers modulo a runtime modulus, and values bound to them that stay reduced.
use vstd::prelude::*;
use vstd::std_specs::cmp::{PartialEqSpec, PartialEqSpecImpl};
use vstd::arithmetic::div_mod::{
    lemma_add_mod_noop, lemma_mul_mod_noop, lemma_mod_bound, lemma_small_mod,
};
use crate::error::{Error, Result};
use crate::crypto::BigNumber;
use crate::modspec::{reduce, invertible, inverse, modpow_value, moddiv_value};

verus! {

/// Arithmetic required by [`Group`] and [`GroupValue`].
pub trait GroupElement: Sized + PartialEq {
    /// The integer this value stands for.
    spec fn as_int(&self) -> int;

    /// Whether the backend's primality test can accept this value.
    spec fn passes_prime_test(&self) -> bool;

    /// `==` on values compares the integers they stand for.
    proof fn lemma_eq_compares_integers()
        ensures
            Self::obeys_eq_spec(),
            forall|a: &Self, b: &Self| #[trigger] a.eq_spec(b) <==> a.as_int() == b.as_int(),
    ;

    /// Return zero.
    fn zero() -> (r: Self)
        ensures
            r.as_int() == 0,
    ;

    /// Return one.
    fn one() -> (r: Self)
        ensures
            r.as_int() == 1,
    ;

    /// Return whether this value is zero.
    fn is_zero(&self) -> (r: bool)
        ensures
            r == (self.as_int() == 0),
    ;

    /// Return whether this value is one.
    fn is_one(&self) -> (r: bool)
        ensures
            r == (self.as_int() == 1),
    ;

    /// Return whether this value is negative.
    fn is_negative(&self) -> (r: bool)
        ensures
            r == (self.as_int() < 0),
    ;

    /// Return whether this value is prime.
    ///
    /// A failure of the test itself is reported as an error other than the group's own
    /// [`Error::InvalidModulus`] and [`Error::ModulusNotPrime`].
    fn is_prime(&self) -> (r: Result<bool>)
        ensures
            r matches Ok(b) && b ==> self.passes_prime_test(),
            r matches Err(e) ==> !(e is InvalidModulus) && !(e is ModulusNotPrime),
    ;

    /// Compute the multiplicative inverse modulo `modulus`.
    fn invert(&self, modulus: &Self) -> (r: Option<Self>)
        ensures
            modulus.as_int() > 1 && self.as_int() >= 0 ==> (r is Some <==> invertible(
                self.as_int() % modulus.as_int(),
                modulus.as_int(),
            )),
            modulus.as_int() > 1 && self.as_int() >= 0 ==> (r matches Some(v) ==> v.as_int() == inverse(
                self.as_int() % modulus.as_int(),
                modulus.as_int(),
            )),
    ;

    /// Compute `(self ^ exponent) mod modulus`.
    fn modpow(&self, exponent: &Self, modulus: &Self) -> (r: Self)
        ensures
            self.as_int() >= 0 ==> r.as_int() == modpow_value(self.as_int(), exponent.as_int(), modulus.as_int()),
    ;

    /// Compute `(self + rhs) mod modulus`.
    fn modadd(&self, rhs: &Self, modulus: &Self) -> (r: Self)
        requires
            modulus.as_int() != 0,
        ensures
            r.as_int() == reduce(self.as_int() + rhs.as_int(), modulus.as_int()),
    ;

    /// Replace this value with `(self + rhs) mod modulus`.
    fn modadd_assign(&mut self, rhs: &Self, modulus: &Self)
        requires
            modulus.as_int() != 0,
        ensures
            final(self).as_int() == reduce(old(self).as_int() + rhs.as_int(), modulus.as_int()),
    {
        *self = self.modadd(rhs, modulus);
    }

    /// Compute `(self - rhs) mod modulus`.
    fn modsub(&self, rhs: &Self, modulus: &Self) -> (r: Self)
        requires
            modulus.as_int() != 0,
        ensures
            r.as_int() == reduce(self.as_int() - rhs.as_int(), modulus.as_int()),
    ;

    /// Replace this value with `(self - rhs) mod modulus`.
    fn modsub_assign(&mut self, rhs: &Self, modulus: &Self)
        requires
            modulus.as_int() != 0,
        ensures
            final(self).as_int() == reduce(old(self).as_int() - rhs.as_int(), modulus.as_int()),
    {
        *self = self.modsub(rhs, modulus);
    }

    /// Compute `(self * rhs) mod modulus`.
    fn modmul(&self, rhs: &Self, modulus: &Self) -> (r: Self)
        requires
            modulus.as_int() != 0,
        ensures
            r.as_int() == reduce(self.as_int() * rhs.as_int(), modulus.as_int()),
    ;

    /// Replace this value with `(self * rhs) mod modulus`.
    fn modmul_assign(&mut self, rhs: &Self, modulus: &Self)
        requires
            modulus.as_int() != 0,
        ensures
            final(self).as_int() == reduce(old(self).as_int() * rhs.as_int(), modulus.as_int()),
    {
        *self = self.modmul(rhs, modulus);
    }

    /// Compute `(self / rhs) mod modulus`.
    fn moddiv(&self, rhs: &Self, modulus: &Self) -> (r: Self)
        requires
            modulus.as_int() != 0,
        ensures
            rhs.as_int() >= 0 ==> r.as_int() == moddiv_value(self.as_int(), rhs.as_int(), modulus.as_int()),
    ;

    /// Replace this value with `(self / rhs) mod modulus`.
    fn moddiv_assign(&mut self, rhs: &Self, modulus: &Self)
        requires
            modulus.as_int() != 0,
        ensures
            rhs.as_int() >= 0 ==> final(self).as_int() == moddiv_value(old(self).as_int(), rhs.as_int(), modulus.as_int()),
    {
        *self = self.moddiv(rhs, modulus);
    }

    /// Compute `-self mod modulus`.
    fn modneg(&self, modulus: &Self) -> (r: Self)
        requires
            modulus.as_int() != 0,
        ensures
            r.as_int() == reduce(-self.as_int(), modulus.as_int()),
    ;

    /// Replace this value with `-self mod modulus`.
    fn modneg_assign(&mut self, modulus: &Self)
        requires
            modulus.as_int() != 0,
        ensures
            final(self).as_int() == reduce(-old(self).as_int(), modulus.as_int()),
    {
        *self = self.modneg(modulus);
    }

    /// Compute `self mod modulus`.
    fn nmod(&self, modulus: &Self) -> (r: Self)
        requires
            modulus.as_int() != 0,
        ensures
            r.as_int() == reduce(self.as_int(), modulus.as_int()),
    ;
}

/// The sum of the integers that a sequence of values stands for.
pub open spec fn sum_of<T: GroupElement>(s: Seq<T>) -> int
    decreases s.len(),
{
    if s.len() == 0 {
        0
    } else {
        sum_of(s.drop_last()) + s.last().as_int()
    }
}

/// The product of the integers that a sequence of values stands for.
pub open spec fn product_of<T: GroupElement>(s: Seq<T>) -> int
    decreases s.len(),
{
    if s.len() == 0 {
        1
    } else {
        product_of(s.drop_last()) * s.last().as_int()
    }
}

/// Parameters for arithmetic modulo a positive integer greater than one.
///
/// Use [`Group::element`] to bind reduced values to these parameters. Values bound to a group
/// automatically reduce the result of every arithmetic operation.
#[derive(Debug)]
pub struct Group<T: GroupElement> {
    modulus: T,
    prime: bool,
}

impl<T: GroupElement> Group<T> {
    /// The modulus is above one, and a group marked prime has a modulus that passed the
    /// primality test.
    #[verifier::type_invariant]
    spec fn well_formed(&self) -> bool {
        &&& self.modulus.as_int() > 1
        &&& self.prime ==> self.modulus.passes_prime_test()
    }

    /// The modulus.
    pub closed spec fn modulus_elem(&self) -> T {
        self.modulus
    }

    /// The integer of the modulus.
    pub open spec fn modulus_int(&self) -> int {
        self.modulus_elem().as_int()
    }

    /// Whether the modulus was verified as prime at construction.
    pub closed spec fn prime_flag(&self) -> bool {
        self.prime
    }

    /// Create modular arithmetic parameters.
    ///
    /// # Errors
    ///
    /// Returns [`crate::Error::InvalidModulus`] when `modulus` is negative, zero, or one.
    pub fn new(modulus: T) -> (r: Result<Self>)
        ensures
            modulus.as_int() <= 1 ==> (r matches Err(e) && e is InvalidModulus),
            modulus.as_int() > 1 ==> (r matches Ok(g) && g.modulus_elem() == modulus && !g.prime_flag()),
    {
        if modulus.is_negative() || modulus.is_zero() || modulus.is_one() {
            return Err(Error::InvalidModulus);
        }
        Ok(Group { modulus, prime: false })
    }

    /// Create modular arithmetic parameters after verifying that the modulus is prime.
    ///
    /// # Errors
    ///
    /// Returns an error for an invalid modulus, unavailable randomness, a backend failure, or a
    /// composite modulus.
    pub fn prime_field(modulus: T) -> (r: Result<Self>)
        ensures
            modulus.as_int() <= 1 ==> (r matches Err(e) && e is InvalidModulus),
            modulus.as_int() > 1 ==> !(r matches Err(e) && e is InvalidModulus),
            r matches Ok(g) ==> g.modulus_elem() == modulus && g.prime_flag() && modulus.passes_prime_test(),
            modulus.as_int() > 1 && !modulus.passes_prime_test() ==> r is Err,
    {
        if modulus.is_negative() || modulus.is_zero() || modulus.is_one() {
            return Err(Error::InvalidModulus);
        }
        let test = modulus.is_prime();
        Self::from_prime_test(modulus, test)
    }

    /// Builds the prime-field parameters for a modulus above one from the answer of its
    /// primality test: a passing test gives a group marked prime, a failing one
    /// [`Error::ModulusNotPrime`], and an error of the test is passed on.
    pub fn from_prime_test(modulus: T, test: Result<bool>) -> (r: Result<Self>)
        requires
            modulus.as_int() > 1,
            test matches Ok(b) && b ==> modulus.passes_prime_test(),
        ensures
            test matches Ok(b) && b ==> (r matches Ok(g) && g.modulus_elem() == modulus && g.prime_flag()),
            test matches Ok(b) && !b ==> (r matches Err(e) && e is ModulusNotPrime),
            test matches Err(e) ==> (r matches Err(e2) && e2 == e),
    {
        match test {
            Ok(true) => Ok(Group { modulus, prime: true }),
            Ok(false) => Err(Error::ModulusNotPrime),
            Err(e) => Err(e),
        }
    }

    /// Return the modulus used by this group.
    pub fn modulus(&self) -> (r: &T)
        ensures
            *r == self.modulus_elem(),
            r.as_int() > 1,
    {
        proof {
            use_type_invariant(self);
        }
        &self.modulus
    }

    /// Return whether the modulus was verified as prime at construction.
    pub fn is_prime_field(&self) -> (r: bool)
        ensures
            r == self.prime_flag(),
            r ==> self.modulus_elem().passes_prime_test(),
    {
        proof {
            use_type_invariant(self);
        }
        self.prime
    }

    /// Compute `-rhs mod self`.
    pub fn neg(&self, rhs: &T) -> (r: T)
        ensures
            r.as_int() == (-rhs.as_int()) % self.modulus_int(),
            0 <= r.as_int() < self.modulus_int(),
    {
        proof {
            use_type_invariant(self);
            lemma_mod_bound(-rhs.as_int(), self.modulus_int());
        }
        rhs.modneg(&self.modulus)
    }

    /// Compute the sum of the big numbers in the group.
    pub fn sum(&self, nums: &[T]) -> (r: T)
        ensures
            r.as_int() == sum_of(nums@) % self.modulus_int(),
    {
        proof {
            use_type_invariant(self);
        }
        let ghost m = self.modulus_int();
        let mut result = T::zero();
        proof {
            assert(nums@.take(0) =~= Seq::<T>::empty());
            lemma_small_mod(0, m as nat);
        }
        let mut i: usize = 0;
        while i < nums.len()
            invariant
                m == self.modulus_int(),
                m > 1,
                0 <= i <= nums.len(),
                result.as_int() == sum_of(nums@.take(i as int)) % m,
            decreases nums.len() - i,
        {
            let ghost before = result.as_int();
            result.modadd_assign(&nums[i], &self.modulus);
            proof {
                let prefix = nums@.take(i as int + 1);
                assert(prefix.drop_last() =~= nums@.take(i as int));
                assert(prefix.last() == nums@[i as int]);
                lemma_add_mod_noop(sum_of(nums@.take(i as int)), nums@[i as int].as_int(), m);
                lemma_mod_bound(nums@[i as int].as_int(), m);
                lemma_add_mod_noop(before, nums@[i as int].as_int(), m);
                lemma_mod_bound(sum_of(nums@.take(i as int)), m);
                lemma_small_mod(before as nat, m as nat);
            }
            i = i + 1;
        }
        proof {
            assert(nums@.take(nums@.len() as int) =~= nums@);
        }
        result
    }

    /// Compute the product of the big numbers in the group.
    pub fn product(&self, nums: &[T]) -> (r: T)
        ensures
            r.as_int() == product_of(nums@) % self.modulus_int(),
    {
        proof {
            use_type_invariant(self);
        }
        let ghost m = self.modulus_int();
        let mut result = T::one();
        proof {
            lemma_small_mod(1, m as nat);
            assert(nums@.take(0) =~= Seq::<T>::empty());
        }
        let mut i: usize = 0;
        while i < nums.len()
            invariant
                m == self.modulus_int(),
                m > 1,
                0 <= i <= nums.len(),
                result.as_int() == product_of(nums@.take(i as int)) % m,
            decreases nums.len() - i,
        {
            let ghost before = result.as_int();
            result.modmul_assign(&nums[i], &self.modulus);
            proof {
                let prefix = nums@.take(i as int + 1);
                assert(prefix.drop_last() =~= nums@.take(i as int));
                assert(prefix.last() == nums@[i as int]);
                let p = product_of(nums@.take(i as int));
                let x = nums@[i as int].as_int();
                lemma_mul_mod_noop(p, x, m);
                lemma_mul_mod_noop(before, x, m);
                lemma_mod_bound(p, m);
                lemma_small_mod(before as nat, m as nat);
            }
            i = i + 1;
        }
        proof {
            assert(nums@.take(nums@.len() as int) =~= nums@);
        }
        result
    }
}

impl<T: GroupElement> PartialEq for Group<T> {
    fn eq(&self, other: &Self) -> (r: bool) {
        proof {
            T::lemma_eq_compares_integers();
        }
        self.modulus == other.modulus && self.prime == other.prime
    }
}

impl<T: GroupElement> PartialEqSpecImpl for Group<T> {
    open spec fn obeys_eq_spec() -> bool {
        true
    }

    open spec fn eq_spec(&self, other: &Group<T>) -> bool {
        self.modulus_int() == other.modulus_int() && self.prime_flag() == other.prime_flag()
    }
}

impl<T: GroupElement> Eq for Group<T> {}

/// A value reduced modulo and bound to a [`Group`].
///
/// Binary operators return [`crate::Result`] because values created by different group parameters
/// cannot be combined and division can fail for a non-invertible divisor.
#[derive(Debug)]
pub struct GroupValue<'group, T: GroupElement> {
    group: &'group Group<T>,
    value: T,
}

impl<'group, T: GroupElement> View for GroupValue<'group, T> {
    type V = int;

    /// The reduced integer.
    open spec fn view(&self) -> int {
        self.value_elem().as_int()
    }
}

impl<T: GroupElement> Group<T> {
    /// Reduce `value` and bind it to this group.
    pub fn element(&self, value: T) -> (r: GroupValue<'_, T>)
        ensures
            r@ == value.as_int() % self.modulus_int(),
            0 <= r@ < self.modulus_int(),
            r.group_of() == *self,
    {
        proof {
            use_type_invariant(self);
            lemma_mod_bound(value.as_int(), self.modulus_int());
        }
        GroupValue { value: value.nmod(&self.modulus), group: self }
    }

    /// Return the additive identity bound to this group.
    pub fn zero(&self) -> (r: GroupValue<'_, T>)
        ensures
            r@ == 0,
            r.group_of() == *self,
    {
        proof {
            use_type_invariant(self);
        }
        GroupValue { value: T::zero(), group: self }
    }

    /// Return the multiplicative identity bound to this group.
    pub fn one(&self) -> (r: GroupValue<'_, T>)
        ensures
            r@ == 1,
            r.group_of() == *self,
    {
        proof {
            use_type_invariant(self);
        }
        GroupValue { value: T::one(), group: self }
    }
}

impl<'group, T: GroupElement> GroupValue<'group, T> {
    /// The value lies in `0..m` for the group's modulus `m`.
    #[verifier::type_invariant]
    spec fn reduced(&self) -> bool {
        0 <= self.value.as_int() < self.group.modulus.as_int()
    }

    /// The value bound to the group.
    pub closed spec fn value_elem(&self) -> T {
        self.value
    }

    /// The group the value is bound to.
    pub closed spec fn group_of(&self) -> Group<T> {
        *self.group
    }

    /// The modulus of the value's group, as an integer.
    pub open spec fn modulus_int(&self) -> int {
        self.group_of().modulus_int()
    }

    /// What the invariants of the value and of its group give.
    proof fn lemma_reduced(&self)
        requires
            self.reduced(),
            self.group.well_formed(),
        ensures
            0 <= self@ < self.modulus_int(),
            self.modulus_int() > 1,
            self@ % self.modulus_int() == self@,
    {
        lemma_small_mod(self@ as nat, self.modulus_int() as nat);
    }

    fn ensure_compatible(&self, other: &Self) -> (r: Result<()>)
        ensures
            r is Ok <==> self.modulus_int() == other.modulus_int(),
            r matches Err(e) ==> e is MismatchedGroups,
    {
        proof {
            T::lemma_eq_compares_integers();
        }
        if self.group.modulus == other.group.modulus {
            Ok(())
        } else {
            Err(Error::MismatchedGroups)
        }
    }

    /// Return this value's group parameters.
    pub fn group(&self) -> (r: &'group Group<T>)
        ensures
            *r == self.group_of(),
    {
        self.group
    }

    /// Return the reduced value.
    pub fn value(&self) -> (r: &T)
        ensures
            *r == self.value_elem(),
            0 <= r.as_int() < self.modulus_int(),
    {
        proof {
            use_type_invariant(self);
        }
        &self.value
    }

    /// Consume this group value and return its reduced integer.
    pub fn into_value(self) -> (r: T)
        ensures
            r == self.value_elem(),
            0 <= r.as_int() < self.modulus_int(),
    {
        proof {
            use_type_invariant(&self);
        }
        self.value
    }

    /// Add another value from compatible group parameters.
    pub fn checked_add(&self, rhs: &Self) -> (r: Result<Self>)
        ensures
            self.modulus_int() != rhs.modulus_int() ==> (r matches Err(e) && e is MismatchedGroups),
            self.modulus_int() == rhs.modulus_int() ==> (r matches Ok(v)
                && v@ == (self@ + rhs@) % self.modulus_int() && v.group_of() == self.group_of()),
    {
        proof {
            use_type_invariant(self);
            use_type_invariant(self.group);
            self.lemma_reduced();
            lemma_mod_bound(self@ + rhs@, self.modulus_int());
        }
        self.ensure_compatible(rhs)?;
        Ok(GroupValue { value: self.value.modadd(&rhs.value, &self.group.modulus), group: self.group })
    }

    /// Add another value in place while reusing this value's storage where supported.
    pub fn checked_add_assign(&mut self, rhs: &Self) -> (r: Result<()>)
        ensures
            old(self).modulus_int() != rhs.modulus_int() ==> (r matches Err(e) && e is MismatchedGroups
                && *final(self) == *old(self)),
            old(self).modulus_int() == rhs.modulus_int() ==> (r is Ok
                && final(self)@ == (old(self)@ + rhs@) % old(self).modulus_int()
                && final(self).group_of() == old(self).group_of()),
    {
        proof {
            use_type_invariant(&*self);
            use_type_invariant(self.group);
            self.lemma_reduced();
            lemma_mod_bound(self@ + rhs@, self.modulus_int());
        }
        self.ensure_compatible(rhs)?;
        self.value = self.value.modadd(&rhs.value, &self.group.modulus);
        Ok(())
    }
}

impl<'group, T: GroupElement> GroupValue<'group, T> {
    /// Subtract another value from compatible group parameters.
    pub fn checked_sub(&self, rhs: &Self) -> (r: Result<Self>)
        ensures
            self.modulus_int() != rhs.modulus_int() ==> (r matches Err(e) && e is MismatchedGroups),
            self.modulus_int() == rhs.modulus_int() ==> (r matches Ok(v)
                && v@ == (self@ - rhs@) % self.modulus_int() && v.group_of() == self.group_of()),
    {
        proof {
            use_type_invariant(self);
            use_type_invariant(self.group);
            self.lemma_reduced();
            lemma_mod_bound(self@ - rhs@, self.modulus_int());
        }
        self.ensure_compatible(rhs)?;
        Ok(GroupValue { value: self.value.modsub(&rhs.value, &self.group.modulus), group: self.group })
    }

    /// Subtract another value in place while reusing this value's storage where supported.
    pub fn checked_sub_assign(&mut self, rhs: &Self) -> (r: Result<()>)
        ensures
            old(self).modulus_int() != rhs.modulus_int() ==> (r matches Err(e) && e is MismatchedGroups
                && *final(self) == *old(self)),
            old(self).modulus_int() == rhs.modulus_int() ==> (r is Ok
                && final(self)@ == (old(self)@ - rhs@) % old(self).modulus_int()
                && final(self).group_of() == old(self).group_of()),
    {
        proof {
            use_type_invariant(&*self);
            use_type_invariant(self.group);
            self.lemma_reduced();
            lemma_mod_bound(self@ - rhs@, self.modulus_int());
        }
        self.ensure_compatible(rhs)?;
        self.value = self.value.modsub(&rhs.value, &self.group.modulus);
        Ok(())
    }

    /// Multiply by another value from compatible group parameters.
    pub fn checked_mul(&self, rhs: &Self) -> (r: Result<Self>)
        ensures
            self.modulus_int() != rhs.modulus_int() ==> (r matches Err(e) && e is MismatchedGroups),
            self.modulus_int() == rhs.modulus_int() ==> (r matches Ok(v)
                && v@ == (self@ * rhs@) % self.modulus_int() && v.group_of() == self.group_of()),
    {
        proof {
            use_type_invariant(self);
            use_type_invariant(self.group);
            self.lemma_reduced();
            lemma_mod_bound(self@ * rhs@, self.modulus_int());
        }
        self.ensure_compatible(rhs)?;
        Ok(GroupValue { value: self.value.modmul(&rhs.value, &self.group.modulus), group: self.group })
    }

    /// Multiply by another value in place while reusing this value's storage where supported.
    pub fn checked_mul_assign(&mut self, rhs: &Self) -> (r: Result<()>)
        ensures
            old(self).modulus_int() != rhs.modulus_int() ==> (r matches Err(e) && e is MismatchedGroups
                && *final(self) == *old(self)),
            old(self).modulus_int() == rhs.modulus_int() ==> (r is Ok
                && final(self)@ == (old(self)@ * rhs@) % old(self).modulus_int()
                && final(self).group_of() == old(self).group_of()),
    {
        proof {
            use_type_invariant(&*self);
            use_type_invariant(self.group);
            self.lemma_reduced();
            lemma_mod_bound(self@ * rhs@, self.modulus_int());
        }
        self.ensure_compatible(rhs)?;
        self.value = self.value.modmul(&rhs.value, &self.group.modulus);
        Ok(())
    }

    /// Divide by another value from compatible group parameters.
    ///
    /// # Errors
    ///
    /// Returns an error when the groups differ or `rhs` has no multiplicative inverse.
    pub fn checked_div(&self, rhs: &Self) -> (r: Result<Self>)
        ensures
            self.modulus_int() != rhs.modulus_int() ==> (r matches Err(e) && e is MismatchedGroups),
            self.modulus_int() == rhs.modulus_int() && !invertible(rhs@, self.modulus_int())
                ==> (r matches Err(e) && e is NonInvertible),
            self.modulus_int() == rhs.modulus_int() && invertible(rhs@, self.modulus_int())
                ==> (r matches Ok(v) && v@ == (self@ * inverse(rhs@, self.modulus_int())) % self.modulus_int()
                && v.group_of() == self.group_of()),
    {
        proof {
            use_type_invariant(self);
            use_type_invariant(rhs);
            use_type_invariant(self.group);
            use_type_invariant(rhs.group);
            self.lemma_reduced();
            rhs.lemma_reduced();
        }
        self.ensure_compatible(rhs)?;
        let inverse = match rhs.value.invert(&self.group.modulus) {
            Some(inverse) => inverse,
            None => {
                return Err(Error::NonInvertible);
            },
        };
        proof {
            lemma_mod_bound(self@ * inverse.as_int(), self.modulus_int());
        }
        Ok(GroupValue { value: self.value.modmul(&inverse, &self.group.modulus), group: self.group })
    }

    /// Divide by another value in place while reusing this value's storage where supported.
    ///
    /// # Errors
    ///
    /// Returns an error when the groups differ or `rhs` has no multiplicative inverse.
    pub fn checked_div_assign(&mut self, rhs: &Self) -> (r: Result<()>)
        ensures
            old(self).modulus_int() != rhs.modulus_int() ==> (r matches Err(e) && e is MismatchedGroups
                && *final(self) == *old(self)),
            old(self).modulus_int() == rhs.modulus_int() && !invertible(rhs@, old(self).modulus_int())
                ==> (r matches Err(e) && e is NonInvertible && *final(self) == *old(self)),
            old(self).modulus_int() == rhs.modulus_int() && invertible(rhs@, old(self).modulus_int())
                ==> (r is Ok
                && final(self)@ == (old(self)@ * inverse(rhs@, old(self).modulus_int())) % old(self).modulus_int()
                && final(self).group_of() == old(self).group_of()),
    {
        proof {
            use_type_invariant(&*self);
            use_type_invariant(rhs);
            use_type_invariant(self.group);
            use_type_invariant(rhs.group);
            self.lemma_reduced();
            rhs.lemma_reduced();
        }
        self.ensure_compatible(rhs)?;
        let inverse = match rhs.value.invert(&self.group.modulus) {
            Some(inverse) => inverse,
            None => {
                return Err(Error::NonInvertible);
            },
        };
        proof {
            lemma_mod_bound(self@ * inverse.as_int(), self.modulus_int());
        }
        self.value = self.value.modmul(&inverse, &self.group.modulus);
        Ok(())
    }

    /// Return the additive inverse of this value.
    pub fn negated(&self) -> (r: Self)
        ensures
            r@ == (-self@) % self.modulus_int(),
            r.group_of() == self.group_of(),
    {
        proof {
            use_type_invariant(self);
            use_type_invariant(self.group);
            self.lemma_reduced();
            lemma_mod_bound(-self@, self.modulus_int());
        }
        GroupValue { value: self.value.modneg(&self.group.modulus), group: self.group }
    }

    /// Replace this value with its additive inverse while reusing its storage where supported.
    pub fn negate(&mut self)
        ensures
            final(self)@ == (-old(self)@) % old(self).modulus_int(),
            final(self).group_of() == old(self).group_of(),
    {
        proof {
            use_type_invariant(&*self);
            use_type_invariant(self.group);
            self.lemma_reduced();
            lemma_mod_bound(-self@, self.modulus_int());
        }
        self.value = self.value.modneg(&self.group.modulus);
    }

    /// Raise this value to `exponent` within the group.
    pub fn pow(&self, exponent: &T) -> (r: Self)
        ensures
            r@ == modpow_value(self@, exponent.as_int(), self.modulus_int()),
            r.group_of() == self.group_of(),
    {
        proof {
            use_type_invariant(self);
            use_type_invariant(self.group);
            self.lemma_reduced();
            crate::modspec::lemma_modpow_value_bound(self@, exponent.as_int(), self.modulus_int());
        }
        GroupValue { value: self.value.modpow(exponent, &self.group.modulus), group: self.group }
    }

    /// Raise this value to `exponent` in place.
    pub fn pow_assign(&mut self, exponent: &T)
        ensures
            final(self)@ == modpow_value(old(self)@, exponent.as_int(), old(self).modulus_int()),
            final(self).group_of() == old(self).group_of(),
    {
        proof {
            use_type_invariant(&*self);
            use_type_invariant(self.group);
            self.lemma_reduced();
            crate::modspec::lemma_modpow_value_bound(self@, exponent.as_int(), self.modulus_int());
        }
        self.value = self.value.modpow(exponent, &self.group.modulus);
    }
}

impl<'group, T: GroupElement> PartialEq for GroupValue<'group, T> {
    fn eq(&self, other: &Self) -> (r: bool) {
        proof {
            T::lemma_eq_compares_integers();
        }
        self.value == other.value && self.group.modulus == other.group.modulus
    }
}

impl<'group, T: GroupElement> PartialEqSpecImpl for GroupValue<'group, T> {
    open spec fn obeys_eq_spec() -> bool {
        true
    }

    open spec fn eq_spec(&self, other: &GroupValue<'group, T>) -> bool {
        self@ == other@ && self.modulus_int() == other.modulus_int()
    }
}

impl<'group, T: GroupElement> Eq for GroupValue<'group, T> {}

impl Clone for Group<BigNumber> {
    fn clone(&self) -> (r: Self)
        ensures
            r.modulus_int() == self.modulus_int(),
            r.prime_flag() == self.prime_flag(),
    {
        proof {
            use_type_invariant(self);
        }
        Group { modulus: self.modulus.clone(), prime: self.prime }
    }
}

impl<'group> Clone for GroupValue<'group, BigNumber> {
    fn clone(&self) -> (r: Self)
        ensures
            r@ == self@,
            r.group_of() == self.group_of(),
    {
        proof {
            use_type_invariant(self);
        }
        GroupValue { group: self.group, value: self.value.clone() }
    }
}

impl Clone for Group<crate::rust::BigNumber> {
    fn clone(&self) -> (r: Self)
        ensures
            r.modulus_int() == self.modulus_int(),
            r.prime_flag() == self.prime_flag(),
    {
        proof {
            use_type_invariant(self);
        }
        Group { modulus: self.modulus.clone(), prime: self.prime }
    }
}

impl<'group> Clone for GroupValue<'group, crate::rust::BigNumber> {
    fn clone(&self) -> (r: Self)
        ensures
            r@ == self@,
            r.group_of() == self.group_of(),
    {
        proof {
            use_type_invariant(self);
        }
        GroupValue { group: self.group, value: self.value.clone() }
    }
}

impl Clone for Group<crate::openssl_backend::BigNumber> {
    fn clone(&self) -> (r: Self)
        ensures
            r.modulus_int() == self.modulus_int(),
            r.prime_flag() == self.prime_flag(),
    {
        proof {
            use_type_invariant(self);
        }
        Group { modulus: self.modulus.clone(), prime: self.prime }
    }
}

impl<'group> Clone for GroupValue<'group, crate::openssl_backend::BigNumber> {
    fn clone(&self) -> (r: Self)
        ensures
            r@ == self@,
            r.group_of() == self.group_of(),
    {
        proof {
            use_type_invariant(self);
        }
        GroupValue { group: self.group, value: self.value.clone() }
    }
}

/// Adding reduced values groups either way: what [`GroupValue::checked_add`] computes is
/// associative.
pub proof fn lemma_add_associative(a: int, b: int, c: int, m: int)
    requires
        m > 1,
    ensures
        (((a + b) % m) + c) % m == (a + ((b + c) % m)) % m,
{
    vstd::arithmetic::div_mod::lemma_add_mod_noop_right(a, b + c, m);
    vstd::arithmetic::div_mod::lemma_add_mod_noop(a + b, c, m);
    vstd::arithmetic::div_mod::lemma_mod_twice(a + b, m);
    vstd::arithmetic::div_mod::lemma_mod_twice(c, m);
    vstd::arithmetic::div_mod::lemma_add_mod_noop((a + b) % m, c, m);
    assert(a + b + c == a + (b + c));
}

/// Multiplying reduced values groups either way: what [`GroupValue::checked_mul`] computes is
/// associative.
pub proof fn lemma_mul_associative(a: int, b: int, c: int, m: int)
    requires
        m > 1,
    ensures
        (((a * b) % m) * c) % m == (a * ((b * c) % m)) % m,
{
    vstd::arithmetic::div_mod::lemma_mul_mod_noop_left(a * b, c, m);
    vstd::arithmetic::div_mod::lemma_mul_mod_noop_right(a, b * c, m);
    vstd::arithmetic::mul::lemma_mul_is_associative(a, b, c);
}

/// Multiplication distributes over addition of reduced values: what
/// [`GroupValue::checked_mul`] and [`GroupValue::checked_add`] compute.
pub proof fn lemma_mul_distributes(a: int, b: int, c: int, m: int)
    requires
        m > 1,
    ensures
        (a * ((b + c) % m)) % m == (((a * b) % m) + ((a * c) % m)) % m,
{
    vstd::arithmetic::div_mod::lemma_mul_mod_noop_right(a, b + c, m);
    vstd::arithmetic::mul::lemma_mul_is_distributive_add(a, b, c);
    vstd::arithmetic::div_mod::lemma_add_mod_noop(a * b, a * c, m);
}

/// Dividing a reduced value by an invertible one and multiplying the quotient back by it gives
/// the value again: what [`GroupValue::checked_div`] and [`GroupValue::checked_mul`] compute
/// undo each other.
pub proof fn lemma_div_then_mul(a: int, b: int, m: int)
    requires
        m > 1,
        0 <= a < m,
        invertible(b, m),
    ensures
        ((a * inverse(b, m)) % m * b) % m == a,
{
    let x = inverse(b, m);
    assert(0 <= x < m && crate::modspec::inverts(b, x, m)) by {
        let w = choose|w: int| #[trigger] crate::modspec::inverts(b, w, m);
        let y = w % m;
        lemma_mod_bound(w, m);
        vstd::arithmetic::div_mod::lemma_mul_mod_noop_right(b, w, m);
        assert(crate::modspec::inverts(b, y, m));
    }
    vstd::arithmetic::div_mod::lemma_mul_mod_noop_left(a * x, b, m);
    vstd::arithmetic::mul::lemma_mul_is_associative(a, x, b);
    vstd::arithmetic::mul::lemma_mul_is_commutative(x, b);
    vstd::arithmetic::div_mod::lemma_mul_mod_noop_right(a, x * b, m);
    assert(a * 1 == a);
    lemma_small_mod(a as nat, m as nat);
}

/// A reduced value plus its negation is zero: what [`GroupValue::negated`] and
/// [`GroupValue::checked_add`] give.
pub proof fn lemma_negation_cancels(a: int, m: int)
    requires
        m > 1,
    ensures
        ((-a) % m + a) % m == 0,
{
    lemma_add_mod_noop(-a, a, m);
    vstd::arithmetic::div_mod::lemma_add_mod_noop_right(-a % m, a, m);
    lemma_small_mod(0, m as nat);
}

/// Subtracting a value and adding it back gives the reduced value again: what
/// [`GroupValue::checked_sub`] and [`GroupValue::checked_add`] compute undo each other.
pub proof fn lemma_sub_then_add(a: int, b: int, m: int)
    requires
        m > 1,
        0 <= a < m,
    ensures
        ((a - b) % m + b) % m == a,
{
    vstd::arithmetic::div_mod::lemma_add_mod_noop_right((a - b) % m, b, m);
    lemma_add_mod_noop(a - b, b, m);
    assert(a - b + b == a);
    lemma_small_mod(a as nat, m as nat);
}

/// Powers with non-negative exponents multiply by adding the exponents: the product of
/// [`GroupValue::pow`] for `e1` and for `e2` is the power for `e1 + e2`.
pub proof fn lemma_pow_exponents_add(a: int, e1: int, e2: int, m: int)
    requires
        m > 1,
        e1 >= 0,
        e2 >= 0,
    ensures
        (modpow_value(a, e1, m) * modpow_value(a, e2, m)) % m == modpow_value(a, e1 + e2, m),
{
    let b = a % m;
    vstd::arithmetic::power::lemma_pow_adds(b, e1 as nat, e2 as nat);
    lemma_mul_mod_noop(vstd::arithmetic::power::pow(b, e1 as nat), vstd::arithmetic::power::pow(b, e2 as nat), m);
    assert((e1 + e2) as nat == e1 as nat + e2 as nat);
    assert(crate::modspec::abs(m) == m);
}

} // verus!
