//! Big-endian byte strings and the natural numbers they stand for.
use vstd::prelude::*;
use vstd::arithmetic::power2::{pow2, lemma_pow2_pos, lemma_pow2_adds};
use vstd::arithmetic::div_mod::{lemma_fundamental_div_mod_converse};
use subtle::ConstantTimeEq;

verus! {

/// The value of big-endian bytes: the last byte weighs one.
pub open spec fn be_value(s: Seq<u8>) -> nat
    decreases s.len(),
{
    if s.len() == 0 {
        0
    } else {
        be_value(s.drop_last()) * 256 + s.last() as nat
    }
}

/// The shortest big-endian bytes of `n`: no leading zero byte, and none at all for zero.
pub open spec fn min_bytes(n: nat) -> Seq<u8>
    decreases n,
{
    if n == 0 {
        Seq::empty()
    } else {
        min_bytes(n / 256).push((n % 256) as u8)
    }
}

/// Bytes with no leading zero byte.
pub open spec fn is_minimal(s: Seq<u8>) -> bool {
    s.len() == 0 || s[0] != 0
}

/// The byte `i` places from the end, or zero beyond the start.
pub open spec fn byte_from_end(s: Seq<u8>, i: int) -> u8 {
    if 0 <= i < s.len() {
        s[s.len() - 1 - i]
    } else {
        0
    }
}

/// All bytes but the last; nothing for no bytes.
pub open spec fn drop_low_byte(s: Seq<u8>) -> Seq<u8> {
    if s.len() == 0 {
        s
    } else {
        s.drop_last()
    }
}

/// Big-endian bytes hold less than `2^(8 len)`.
pub proof fn lemma_be_value_bound(s: Seq<u8>)
    ensures
        be_value(s) < pow2((8 * s.len()) as nat),
    decreases s.len(),
{
    if s.len() == 0 {
        vstd::arithmetic::power2::lemma2_to64();
    } else {
        let n = (s.len() - 1) as nat;
        lemma_be_value_bound(s.drop_last());
        lemma_pow2_adds((8 * n) as nat, 8);
        vstd::arithmetic::power2::lemma2_to64();
        assert((8 * n + 8) as nat == (8 * s.len()) as nat);
        let p = pow2((8 * n) as nat);
        assert(be_value(s) < p * 256) by (nonlinear_arith)
            requires
                be_value(s) == be_value(s.drop_last()) * 256 + s.last(),
                be_value(s.drop_last()) < p,
                s.last() < 256,
        ;
    }
}

/// Big-endian bytes that start with a nonzero byte hold at least `2^(8 (len - 1))`.
pub proof fn lemma_be_value_lower(s: Seq<u8>)
    requires
        s.len() > 0,
        s[0] != 0,
    ensures
        be_value(s) >= pow2((8 * (s.len() - 1)) as nat),
    decreases s.len(),
{
    vstd::arithmetic::power2::lemma2_to64();
    if s.len() == 1 {
        assert(s.drop_last().len() == 0);
        assert(s.last() == s[0]);
    } else {
        let n = (s.len() - 2) as nat;
        assert(s.drop_last()[0] == s[0]);
        lemma_be_value_lower(s.drop_last());
        lemma_pow2_adds((8 * n) as nat, 8);
        assert((8 * n + 8) as nat == (8 * (s.len() - 1)) as nat);
    }
}

/// Big-endian bytes whose first byte is below `2^k` hold less than `2^(8 (len - 1) + k)`.
pub proof fn lemma_be_value_head_bound(s: Seq<u8>, k: nat)
    requires
        s.len() > 0,
        s[0] < pow2(k),
    ensures
        be_value(s) < pow2((8 * (s.len() - 1) + k) as nat),
    decreases s.len(),
{
    vstd::arithmetic::power2::lemma2_to64();
    if s.len() == 1 {
        assert(s.drop_last().len() == 0);
        assert(s.last() == s[0]);
        assert((8 * (s.len() - 1) + k) as nat == k);
    } else {
        let n = (8 * (s.len() - 2) + k) as nat;
        assert(s.drop_last()[0] == s[0]);
        lemma_be_value_head_bound(s.drop_last(), k);
        lemma_pow2_adds(n, 8);
        assert((n + 8) as nat == (8 * (s.len() - 1) + k) as nat);
        let p = pow2(n);
        assert(be_value(s) < p * 256) by (nonlinear_arith)
            requires
                be_value(s) == be_value(s.drop_last()) * 256 + s.last(),
                be_value(s.drop_last()) < p,
                s.last() < 256,
        ;
    }
}

/// Leading zero bytes do not change the value.
pub proof fn lemma_be_value_skip_zeros(s: Seq<u8>, k: int)
    requires
        0 <= k <= s.len(),
        forall|i: int| 0 <= i < k ==> s[i] == 0,
    ensures
        be_value(s) == be_value(s.subrange(k, s.len() as int)),
    decreases s.len(),
{
    if s.len() == 0 {
    } else if k == s.len() {
        assert(s.subrange(k, s.len() as int).len() == 0);
        lemma_be_value_zeros(s);
    } else {
        lemma_be_value_skip_zeros(s.drop_last(), k);
        let t = s.subrange(k, s.len() as int);
        assert(t.drop_last() =~= s.drop_last().subrange(k, s.len() - 1));
        assert(t.last() == s.last());
    }
}

/// Zero bytes hold zero.
pub proof fn lemma_be_value_zeros(s: Seq<u8>)
    requires
        forall|i: int| 0 <= i < s.len() ==> s[i] == 0,
    ensures
        be_value(s) == 0,
    decreases s.len(),
{
    if s.len() > 0 {
        lemma_be_value_zeros(s.drop_last());
        assert(s.last() == s[s.len() - 1]);
    }
}

/// The value splits into its lowest byte and the value of the others.
pub proof fn lemma_be_value_low_byte(s: Seq<u8>)
    ensures
        be_value(s) == be_value(drop_low_byte(s)) * 256 + byte_from_end(s, 0),
        be_value(s) % 256 == byte_from_end(s, 0),
        be_value(s) / 256 == be_value(drop_low_byte(s)),
        forall|i: int| 0 <= i ==> #[trigger] byte_from_end(drop_low_byte(s), i) == byte_from_end(s, i + 1),
{
    lemma_fundamental_div_mod_converse(
        be_value(s) as int,
        256,
        be_value(drop_low_byte(s)) as int,
        byte_from_end(s, 0) as int,
    );
}

/// Two byte strings have the same value exactly when they agree byte by byte from the end,
/// the shorter one read as padded with zeros.
pub proof fn lemma_be_value_eq(a: Seq<u8>, b: Seq<u8>)
    ensures
        be_value(a) == be_value(b) <==> forall|i: int|
            0 <= i ==> #[trigger] byte_from_end(a, i) == byte_from_end(b, i),
    decreases a.len() + b.len(),
{
    lemma_be_value_low_byte(a);
    lemma_be_value_low_byte(b);
    if a.len() == 0 && b.len() == 0 {
        assert(be_value(a) == 0 && be_value(b) == 0);
    } else {
        lemma_be_value_eq(drop_low_byte(a), drop_low_byte(b));
        let ta = drop_low_byte(a);
        let tb = drop_low_byte(b);
        if forall|i: int| 0 <= i ==> #[trigger] byte_from_end(a, i) == byte_from_end(b, i) {
            assert forall|i: int| 0 <= i implies #[trigger] byte_from_end(ta, i) == byte_from_end(tb, i) by {
                assert(byte_from_end(a, i + 1) == byte_from_end(b, i + 1));
            }
            assert(byte_from_end(a, 0) == byte_from_end(b, 0));
        }
        if be_value(a) == be_value(b) {
            assert forall|i: int| 0 <= i implies #[trigger] byte_from_end(a, i) == byte_from_end(b, i) by {
                if i > 0 {
                    assert(byte_from_end(ta, i - 1) == byte_from_end(tb, i - 1));
                }
            }
        }
    }
}

/// The shortest bytes of `n` hold `n` and start with a nonzero byte.
pub proof fn lemma_min_bytes(n: nat)
    ensures
        be_value(min_bytes(n)) == n,
        is_minimal(min_bytes(n)),
        n == 0 <==> min_bytes(n).len() == 0,
    decreases n,
{
    if n > 0 {
        lemma_min_bytes(n / 256);
        vstd::arithmetic::div_mod::lemma_fundamental_div_mod(n as int, 256);
        let s = min_bytes(n);
        assert(s.drop_last() == min_bytes(n / 256));
        if n / 256 == 0 {
            assert(s[0] == (n % 256) as u8);
        } else {
            assert(s[0] == min_bytes(n / 256)[0]);
        }
    }
}

/// Bytes with no leading zero byte are the shortest bytes of their value.
pub proof fn lemma_minimal_is_min_bytes(s: Seq<u8>)
    requires
        is_minimal(s),
    ensures
        s == min_bytes(be_value(s)),
    decreases s.len(),
{
    if s.len() > 0 {
        lemma_be_value_lower(s);
        vstd::arithmetic::power2::lemma_pow2_pos((8 * (s.len() - 1)) as nat);
        let d = s.drop_last();
        if d.len() > 0 {
            assert(d[0] == s[0]);
        }
        lemma_minimal_is_min_bytes(d);
        let n = be_value(s);
        lemma_fundamental_div_mod_converse(n as int, 256, be_value(d) as int, s.last() as int);
        assert(min_bytes(n) == min_bytes(be_value(d)).push(s.last()));
        assert(s =~= d.push(s.last()));
    }
}

/// `subtle::ConstantTimeEq::ct_eq` on bytes, read back as a `bool`.
#[verifier::external_body]
pub(crate) fn ct_eq_u8(a: u8, b: u8) -> (r: bool)
    ensures
        r == (a == b),
{
    bool::from(a.ct_eq(&b))
}

/// Compares two signed magnitudes given as big-endian bytes without branching on their
/// contents: equal signs and equal values, the shorter magnitude read as padded with zeros.
pub fn ct_eq_bytes(lhs_negative: bool, lhs: &[u8], rhs_negative: bool, rhs: &[u8]) -> (r: bool)
    ensures
        r == (lhs_negative == rhs_negative && be_value(lhs@) == be_value(rhs@)),
{
    let mut difference: u8 = 0;
    let len = if lhs.len() < rhs.len() { rhs.len() } else { lhs.len() };
    let mut index: usize = 0;
    while index < len
        invariant
            len == (if lhs@.len() < rhs@.len() { rhs@.len() } else { lhs@.len() }),
            0 <= index <= len,
            (difference == 0) <==> forall|j: int| 0 <= j < index ==> #[trigger] byte_from_end(lhs@, j)
                == byte_from_end(rhs@, j),
        decreases len - index,
    {
        let lhs_byte = if index < lhs.len() { lhs[lhs.len() - index - 1] } else { 0 };
        let rhs_byte = if index < rhs.len() { rhs[rhs.len() - index - 1] } else { 0 };
        let ghost before = difference;
        difference = difference | (lhs_byte ^ rhs_byte);
        proof {
            assert((before | (lhs_byte ^ rhs_byte)) == 0 <==> (before == 0 && lhs_byte == rhs_byte))
                by (bit_vector);
            assert(lhs_byte == byte_from_end(lhs@, index as int));
            assert(rhs_byte == byte_from_end(rhs@, index as int));
            if difference == 0 {
                assert forall|j: int| 0 <= j < index + 1 implies #[trigger] byte_from_end(lhs@, j)
                    == byte_from_end(rhs@, j) by {
                    if j < index {
                        assert(byte_from_end(lhs@, j) == byte_from_end(rhs@, j));
                    }
                }
            } else if before == 0 {
                assert(byte_from_end(lhs@, index as int) != byte_from_end(rhs@, index as int));
            } else {
                let j = choose|j: int| 0 <= j < index && #[trigger] byte_from_end(lhs@, j)
                    != byte_from_end(rhs@, j);
                assert(byte_from_end(lhs@, j) != byte_from_end(rhs@, j));
            }
        }
        index = index + 1;
    }
    proof {
        lemma_be_value_eq(lhs@, rhs@);
        if difference == 0 {
            assert forall|i: int| 0 <= i implies #[trigger] byte_from_end(lhs@, i) == byte_from_end(rhs@, i) by {
                if i >= len {
                    assert(byte_from_end(lhs@, i) == 0 && byte_from_end(rhs@, i) == 0);
                }
            }
        }
    }
    let lhs_sign: u8 = if lhs_negative { 1 } else { 0 };
    let rhs_sign: u8 = if rhs_negative { 1 } else { 0 };
    let same_sign = ct_eq_u8(lhs_sign, rhs_sign);
    let same_magnitude = ct_eq_u8(difference, 0);
    same_sign && same_magnitude
}

} // verus!
