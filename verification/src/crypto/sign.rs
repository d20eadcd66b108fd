//! The sign of a big number of the `crypto-bigint` backend.
use vstd::prelude::*;
use crate::text::string_push;
use vstd::string::StringSliceAdditionalSpecFns;
use vstd::std_specs::ops::{MulSpecImpl, NegSpecImpl};
use vstd::std_specs::convert::{FromSpecImpl, TryFromSpecImpl};
use subtle::ConstantTimeEq;

verus! {

/// The sign of a [`BigNumber`](crate::crypto::BigNumber).
#[derive(Copy, Clone, Debug, PartialEq, Eq, PartialOrd, Ord, Hash, Structural)]
pub enum Sign {
    /// A negative value.
    Minus,
    /// Zero, which has no sign.
    NoSign,
    /// A positive value.
    Plus,
}

impl Sign {
    /// The factor (-1, 0 or 1) that this sign stands for.
    pub open spec fn factor(self) -> int {
        match self {
            Sign::Minus => -1,
            Sign::NoSign => 0,
            Sign::Plus => 1,
        }
    }

    /// The opposite sign.
    pub open spec fn opposite(self) -> Sign {
        match self {
            Sign::Minus => Sign::Plus,
            Sign::NoSign => Sign::NoSign,
            Sign::Plus => Sign::Minus,
        }
    }

    /// The sign of a product.
    pub open spec fn times(self, rhs: Sign) -> Sign {
        match (self, rhs) {
            (Sign::NoSign, _) | (_, Sign::NoSign) => Sign::NoSign,
            (Sign::Plus, Sign::Plus) | (Sign::Minus, Sign::Minus) => Sign::Plus,
            _ => Sign::Minus,
        }
    }

    /// The opposite sign; zero has none.
    pub fn negate(&self) -> (r: Sign)
        ensures
            r == self.opposite(),
    {
        match self {
            Sign::Minus => Sign::Plus,
            Sign::NoSign => Sign::NoSign,
            Sign::Plus => Sign::Minus,
        }
    }

    /// [`true`] if == Minus
    pub fn is_negative(&self) -> (r: bool)
        ensures
            r == (*self == Sign::Minus),
    {
        matches!(self, Sign::Minus)
    }

    /// [`true`] if == NoSign
    pub fn is_zero(&self) -> (r: bool)
        ensures
            r == (*self == Sign::NoSign),
    {
        matches!(self, Sign::NoSign)
    }

    /// [`true`] if == Plus
    pub fn is_positive(&self) -> (r: bool)
        ensures
            r == (*self == Sign::Plus),
    {
        matches!(self, Sign::Plus)
    }

    /// The text a sign is written with before the digits of a number: `-` or nothing.
    pub fn display_text(&self) -> (s: String)
        ensures
            s@ == (if *self == Sign::Minus { seq!['-'] } else { Seq::<char>::empty() }),
    {
        let mut s = String::new();
        if self.is_negative() {
            string_push(&mut s, '-');
        }
        s
    }

    /// Reads a sign from text: `-` is negative, anything else positive.
    pub fn parse(s: &str) -> (sign: Sign)
        ensures
            sign == (if s.spec_bytes() == seq![45u8] { Sign::Minus } else { Sign::Plus }),
    {
        let bytes = s.as_bytes();
        if bytes.len() == 1 && bytes[0] == 45 {
            assert(bytes@ =~= seq![45u8]);
            Sign::Minus
        } else {
            Sign::Plus
        }
    }

    /// The readable serialized form: `-` for negative, `00` for zero, and no text (a unit
    /// value) for positive.
    pub fn readable_text(&self) -> (s: Option<String>)
        ensures
            *self == Sign::Minus ==> (s matches Some(t) && t@ == seq!['-']),
            *self == Sign::NoSign ==> (s matches Some(t) && t@ == seq!['0', '0']),
            *self == Sign::Plus ==> s is None,
    {
        match self {
            Sign::Minus => {
                let mut s = String::new();
                string_push(&mut s, '-');
                Some(s)
            },
            Sign::NoSign => {
                let mut s = String::new();
                string_push(&mut s, '0');
                string_push(&mut s, '0');
                Some(s)
            },
            Sign::Plus => None,
        }
    }

    /// Reads the readable serialized form: empty text is positive, `00` zero, `-` negative;
    /// any other text is rejected.
    pub fn from_readable_text(s: &str) -> (sign: Option<Sign>)
        ensures
            sign == readable_sign(s.spec_bytes()),
    {
        let b = s.as_bytes();
        if b.len() == 0 {
            Some(Sign::Plus)
        } else if b.len() == 2 && b[0] == 48 && b[1] == 48 {
            assert(b@ =~= seq![48u8, 48u8]);
            Some(Sign::NoSign)
        } else if b.len() == 1 && b[0] == 45 {
            assert(b@ =~= seq![45u8]);
            Some(Sign::Minus)
        } else {
            assert(b@ != seq![48u8, 48u8] && b@ != seq![45u8]) by {
                if b@ == seq![48u8, 48u8] {
                    assert(b@[0] == 48 && b@[1] == 48);
                }
                if b@ == seq![45u8] {
                    assert(b@[0] == 45);
                }
            }
            None
        }
    }

    /// The compact serialized form: -1, 0 or 1.
    pub fn to_i8(&self) -> (r: i8)
        ensures
            r == self.factor(),
    {
        match self {
            Sign::Minus => -1,
            Sign::NoSign => 0,
            Sign::Plus => 1,
        }
    }

    /// Compares two signs without branching on them (through their compact forms).
    pub fn ct_eq(&self, other: &Sign) -> (r: bool)
        ensures
            r == (*self == *other),
    {
        ct_eq_i8(self.to_i8(), other.to_i8())
    }

    /// Reads the compact serialized form; values other than -1, 0 and 1 are rejected.
    pub fn from_i8(v: i8) -> (r: Option<Sign>)
        ensures
            r matches Some(s) ==> s.factor() == v,
            r is None <==> !(-1 <= v <= 1),
    {
        match v {
            -1 => Some(Sign::Minus),
            0 => Some(Sign::NoSign),
            1 => Some(Sign::Plus),
            _ => None,
        }
    }
}

/// The factor of a product of signs is the product of their factors, and negating a sign twice
/// gives it back.
pub proof fn lemma_sign_algebra(a: Sign, b: Sign)
    ensures
        a.times(b).factor() == a.factor() * b.factor(),
        a.opposite().factor() == -a.factor(),
        a.opposite().opposite() == a,
        a.times(b) == b.times(a),
{
}

/// `subtle::ConstantTimeEq::ct_eq` on `i8`, read back as a `bool`.
#[verifier::external_body]
fn ct_eq_i8(a: i8, b: i8) -> (r: bool)
    ensures
        r == (a == b),
{
    bool::from(a.ct_eq(&b))
}

/// The sign that the readable text of a sign stands for, if any.
pub open spec fn readable_sign(b: Seq<u8>) -> Option<Sign> {
    if b.len() == 0 {
        Some(Sign::Plus)
    } else if b == seq![48u8, 48u8] {
        Some(Sign::NoSign)
    } else if b == seq![45u8] {
        Some(Sign::Minus)
    } else {
        None
    }
}

impl core::ops::Neg for Sign {
    type Output = Self;

    fn neg(self) -> (r: Self)
        ensures
            r == self.opposite(),
    {
        match self {
            Sign::Minus => Sign::Plus,
            Sign::NoSign => Sign::NoSign,
            Sign::Plus => Sign::Minus,
        }
    }
}

impl NegSpecImpl for Sign {
    open spec fn obeys_neg_spec() -> bool {
        true
    }

    open spec fn neg_req(self) -> bool {
        true
    }

    open spec fn neg_spec(self) -> Self {
        self.opposite()
    }
}

impl core::ops::Mul for Sign {
    type Output = Self;

    fn mul(self, rhs: Self) -> (r: Self)
        ensures
            r == self.times(rhs),
    {
        match (self, rhs) {
            (Sign::NoSign, _) | (_, Sign::NoSign) => Sign::NoSign,
            (Sign::Plus, Sign::Plus) | (Sign::Minus, Sign::Minus) => Sign::Plus,
            (Sign::Plus, Sign::Minus) | (Sign::Minus, Sign::Plus) => Sign::Minus,
        }
    }
}

impl MulSpecImpl for Sign {
    open spec fn obeys_mul_spec() -> bool {
        true
    }

    open spec fn mul_req(self, rhs: Sign) -> bool {
        true
    }

    open spec fn mul_spec(self, rhs: Sign) -> Self {
        self.times(rhs)
    }
}

impl From<Sign> for i8 {
    fn from(sign: Sign) -> (r: i8) {
        sign.to_i8()
    }
}

impl FromSpecImpl<Sign> for i8 {
    open spec fn obeys_from_spec() -> bool {
        true
    }

    open spec fn from_spec(v: Sign) -> i8 {
        v.factor() as i8
    }
}

impl TryFrom<i8> for Sign {
    type Error = ();

    fn try_from(sign: i8) -> (r: core::result::Result<Self, Self::Error>) {
        match Sign::from_i8(sign) {
            Some(s) => Ok(s),
            None => Err(()),
        }
    }
}

impl TryFromSpecImpl<i8> for Sign {
    open spec fn obeys_try_from_spec() -> bool {
        true
    }

    open spec fn try_from_spec(v: i8) -> core::result::Result<Sign, ()> {
        if v == -1 {
            Ok(Sign::Minus)
        } else if v == 0 {
            Ok(Sign::NoSign)
        } else if v == 1 {
            Ok(Sign::Plus)
        } else {
            Err(())
        }
    }
}

} // verus!
