//! Numbers written as digits in a radix, and the bits of big-endian bytes read from the most
//! significant end.
use vstd::prelude::*;
use vstd::arithmetic::power2::{pow2, lemma_pow2_pos, lemma_pow2_adds, lemma2_to64};
use vstd::arithmetic::div_mod::{
    lemma_fundamental_div_mod, lemma_div_denominator, lemma_div_decreases,
};
use vstd::bits::lemma_u8_shr_is_div;
use crate::bytes::{be_value, lemma_be_value_zeros};
use crate::text::string_push;

verus! {

/// The character of a digit below 36: `0` to `9`, then letters of the chosen case.
pub open spec fn digit_char(d: nat, upper: bool) -> char {
    if d < 10 {
        (48 + d) as char
    } else if upper {
        (55 + d) as char
    } else {
        (87 + d) as char
    }
}

/// The digits of `n` in base `radix`, most significant first and without leading zeros; zero is
/// written `0`.
pub open spec fn radix_text(n: nat, radix: nat, upper: bool) -> Seq<char>
    decreases n,
{
    if radix < 2 || n < radix {
        seq![digit_char(n, upper)]
    } else {
        proof {
            lemma_div_decreases(n as int, radix as int);
        }
        radix_text(n / radix, radix, upper).push(digit_char(n % radix, upper))
    }
}

/// Appending a digit to a positive number appends its character.
pub proof fn lemma_radix_text_step(p: nat, d: nat, radix: nat, upper: bool)
    requires
        p > 0,
        d < radix,
        radix >= 2,
    ensures
        radix_text(p * radix + d, radix, upper) == radix_text(p, radix, upper).push(digit_char(d, upper)),
{
    let n = p * radix + d;
    assert(n >= radix) by (nonlinear_arith)
        requires
            p >= 1,
            n == p * radix + d,
            radix >= 2,
    ;
    vstd::arithmetic::div_mod::lemma_fundamental_div_mod_converse(n as int, radix as int, p as int, d as int);
}

/// Bit `i` of big-endian bytes, counted from the most significant bit of the first byte.
pub open spec fn bit_at(s: Seq<u8>, i: int) -> nat {
    ((s[i / 8] as nat) / pow2((7 - i % 8) as nat)) % 2
}

/// The number that the first `i` bits of big-endian bytes stand for.
pub open spec fn prefix_value(s: Seq<u8>, i: int) -> nat
    decreases i,
{
    if i <= 0 {
        0
    } else {
        2 * prefix_value(s, i - 1) + bit_at(s, i - 1)
    }
}

/// The first `i` bits are the whole bytes before bit `i`, followed by the leading bits of the
/// byte that holds it.
pub proof fn lemma_prefix_value(s: Seq<u8>, i: int)
    requires
        0 <= i <= 8 * s.len(),
    ensures
        prefix_value(s, i) == be_value(s.take(i / 8)) * pow2((i % 8) as nat) + (if i / 8 < s.len() {
            (s[i / 8] as nat) / pow2((8 - i % 8) as nat)
        } else {
            0
        }),
    decreases i,
{
    lemma2_to64();
    if i == 0 {
        assert(s.take(0) =~= Seq::<u8>::empty());
        assert(be_value(s.take(0)) == 0);
        assert(be_value(s.take(i / 8)) * pow2((i % 8) as nat) == 0) by (nonlinear_arith)
            requires
                be_value(s.take(i / 8)) == 0,
        ;
        if s.len() > 0 {
            assert((s[0] as nat) / 256 == 0);
        }
    } else {
        let h = i - 1;
        lemma_prefix_value(s, h);
        let j = h / 8;
        let t = h % 8;
        let b = s[j] as nat;
        let big = be_value(s.take(j));
        lemma_pow2_pos((7 - t) as nat);
        lemma_pow2_pos((8 - t) as nat);
        lemma_pow2_pos(t as nat);
        lemma_pow2_adds((7 - t) as nat, 1);
        lemma_pow2_adds(t as nat, 1);
        let x = b / pow2((7 - t) as nat);
        lemma_div_denominator(b as int, pow2((7 - t) as nat) as int, 2);
        assert(((7 - t) as nat + 1) as nat == (8 - t) as nat);
        lemma_fundamental_div_mod(x as int, 2);
        assert(prefix_value(s, h) == big * pow2(t as nat) + b / pow2((8 - t) as nat));
        assert(bit_at(s, h) == x % 2);
        assert(x / 2 == b / pow2((8 - t) as nat));
        assert(prefix_value(s, i) == big * pow2((t + 1) as nat) + x) by (nonlinear_arith)
            requires
                prefix_value(s, i) == 2 * prefix_value(s, h) + bit_at(s, h),
                prefix_value(s, h) == big * pow2(t as nat) + x / 2,
                bit_at(s, h) == x % 2,
                x == 2 * (x / 2) + x % 2,
                pow2((t + 1) as nat) == pow2(t as nat) * 2,
        ;
        if t < 7 {
            assert(i / 8 == j && i % 8 == t + 1);
            assert(s.take(i / 8) == s.take(j));
            assert(prefix_value(s, i) == be_value(s.take(i / 8)) * pow2((i % 8) as nat)
                + (s[i / 8] as nat) / pow2((8 - i % 8) as nat));
        } else {
            assert(i / 8 == j + 1 && i % 8 == 0);
            assert(s.take(j + 1).drop_last() =~= s.take(j));
            assert(s.take(j + 1).last() == s[j]);
            assert(be_value(s.take(j + 1)) == big * 256 + b);
            assert(t == 7);
            assert(pow2((7 - t) as nat) == 1);
            assert(x == b);
            assert(prefix_value(s, i) == be_value(s.take(j + 1)));
            assert(be_value(s.take(i / 8)) * pow2((i % 8) as nat) == be_value(s.take(j + 1))) by (nonlinear_arith)
                requires
                    i / 8 == j + 1,
                    i % 8 == 0,
                    pow2(0) == 1,
            ;
            if j + 1 < s.len() {
                assert((s[j + 1] as nat) / 256 == 0);
            }
        }
    }
}

/// All the bits of the bytes stand for their value.
pub proof fn lemma_prefix_value_whole(s: Seq<u8>)
    ensures
        prefix_value(s, 8 * s.len() as int) == be_value(s),
{
    lemma_prefix_value(s, 8 * s.len() as int);
    assert(s.take(s.len() as int) =~= s);
    lemma2_to64();
    let i = 8 * s.len() as int;
    assert(i / 8 == s.len() && i % 8 == 0);
    assert(be_value(s.take(i / 8)) * pow2((i % 8) as nat) == be_value(s)) by (nonlinear_arith)
        requires
            s.take(i / 8) == s,
            i % 8 == 0,
            pow2(0) == 1,
    ;
}

/// One more bit doubles the prefix and adds the bit.
proof fn lemma_prefix_next(s: Seq<u8>, i: int)
    requires
        0 <= i,
    ensures
        prefix_value(s, i + 1) == 2 * prefix_value(s, i) + bit_at(s, i),
{
}

/// The bit that `(b >> (7 - i % 8)) & 1` reads is [`bit_at`].
proof fn lemma_read_bit(s: Seq<u8>, i: int, b: u8, r: u8)
    requires
        0 <= i < 8 * s.len(),
        b == s[i / 8],
        r == (b >> ((7 - i % 8) as u8)) & 1,
    ensures
        r == bit_at(s, i),
{
    let sh = (7 - i % 8) as u8;
    lemma_u8_shr_is_div(b, sh);
    let v = b >> sh;
    assert(v & 1 == v % 2) by (bit_vector);
}

/// Where the first set bit of bytes lies: after the zero bytes before it and the leading
/// zero bits of the first nonzero byte.
proof fn lemma_first_bit(s: Seq<u8>, first_nonzero: int, lz: int)
    requires
        0 <= first_nonzero < s.len(),
        forall|i: int| 0 <= i < first_nonzero ==> s[i] == 0,
        0 <= lz < 8,
        (s[first_nonzero] as nat) / pow2((8 - lz) as nat) == 0,
        ((s[first_nonzero] as nat) / pow2((7 - lz) as nat)) % 2 == 1,
    ensures
        prefix_value(s, 8 * first_nonzero + lz) == 0,
        bit_at(s, 8 * first_nonzero + lz) == 1,
{
    let f = 8 * first_nonzero + lz;
    lemma_prefix_value(s, f);
    assert(f / 8 == first_nonzero && f % 8 == lz);
    lemma_be_value_zeros(s.take(first_nonzero));
}

/// Writes a magnitude given as big-endian bytes in base 2, 8 or 16, after `-` when it is
/// negative; `None` for any other radix. Digits are read off the bits directly, from the most
/// significant set bit, and zero is written `0`.
pub fn fmt_bytes_radix(negative: bool, bytes: &[u8], radix: u16, uppercase: bool) -> (r: Option<String>)
    requires
        8 * bytes@.len() <= usize::MAX,
    ensures
        !(radix == 2 || radix == 8 || radix == 16) ==> r is None,
        (radix == 2 || radix == 8 || radix == 16) ==> (r matches Some(s) && s@ == (if negative {
            seq!['-']
        } else {
            Seq::<char>::empty()
        }) + radix_text(be_value(bytes@), radix as nat, uppercase)),
{
    let bits_per_digit: usize = match radix {
        2 => 1,
        8 => 3,
        16 => 4,
        _ => {
            return None;
        },
    };
    let ghost sign_text = if negative { seq!['-'] } else { Seq::<char>::empty() };
    let mut out = String::new();
    if negative {
        string_push(&mut out, '-');
    }
    proof {
        lemma2_to64();
        assert(pow2(bits_per_digit as nat) == radix as nat);
        assert(out@ =~= sign_text);
    }
    let mut first_nonzero: usize = 0;
    while first_nonzero < bytes.len() && bytes[first_nonzero] == 0
        invariant
            0 <= first_nonzero <= bytes@.len(),
            forall|i: int| 0 <= i < first_nonzero ==> bytes@[i] == 0,
        decreases bytes@.len() - first_nonzero,
    {
        first_nonzero = first_nonzero + 1;
    }
    if first_nonzero == bytes.len() {
        string_push(&mut out, '0');
        proof {
            lemma_be_value_zeros(bytes@);
            assert(radix_text(0, radix as nat, uppercase) == seq![digit_char(0, uppercase)]);
            assert(out@ =~= sign_text + radix_text(0, radix as nat, uppercase));
        }
        return Some(out);
    }
    let byte = bytes[first_nonzero];
    let mut lz: usize = 0;
    proof {
        lemma2_to64();
        assert((byte as nat) / pow2(8) == 0);
    }
    while lz < 8 && (byte >> ((7 - lz) as u8)) & 1 == 0
        invariant
            0 <= lz <= 8,
            (byte as nat) / pow2((8 - lz) as nat) == 0,
        decreases 8 - lz,
    {
        proof {
            lemma2_to64();
            let sh = (7 - lz) as u8;
            lemma_u8_shr_is_div(byte, sh);
            let v = byte >> sh;
            assert(v & 1 == v % 2) by (bit_vector);
            lemma_pow2_pos((7 - lz) as nat);
            lemma_pow2_adds((7 - lz) as nat, 1);
            assert(((7 - lz) as nat + 1) as nat == (8 - lz) as nat);
            lemma_div_denominator(byte as int, pow2((7 - lz) as nat) as int, 2);
            lemma_fundamental_div_mod((byte as nat / pow2((7 - lz) as nat)) as int, 2);
        }
        lz = lz + 1;
    }
    proof {
        lemma2_to64();
        if lz == 8 {
            assert((byte as nat) / pow2(0) == byte);
        }
        let sh = (7 - lz) as u8;
        lemma_u8_shr_is_div(byte, sh);
        let v = byte >> sh;
        assert(v & 1 == v % 2) by (bit_vector);
        lemma_first_bit(bytes@, first_nonzero as int, lz as int);
    }
    let first_bit = first_nonzero * 8 + lz as usize;
    let total = bytes.len() * 8;
    let significant_bits = total - first_bit;
    let mut digit_width = (significant_bits - 1) % bits_per_digit + 1;
    let mut bit_index = first_bit;
    let ghost k = bits_per_digit as int;
    let ghost s = bytes@;
    while bit_index < total
        invariant
            s == bytes@,
            total == 8 * s.len(),
            k == bits_per_digit as int,
            1 <= k <= 4,
            pow2(k as nat) == radix as nat,
            first_bit < total,
            prefix_value(s, first_bit as int) == 0,
            bit_at(s, first_bit as int) == 1,
            first_bit <= bit_index <= total,
            1 <= digit_width <= k,
            bit_index > first_bit ==> digit_width == k,
            (total - bit_index - digit_width) % k == 0,
            bit_index > first_bit ==> prefix_value(s, bit_index as int) > 0,
            out@ == sign_text + (if bit_index == first_bit {
                Seq::<char>::empty()
            } else {
                radix_text(prefix_value(s, bit_index as int), radix as nat, uppercase)
            }),
        decreases total - bit_index,
    {
        proof {
            let d = total - bit_index - digit_width;
            lemma_fundamental_div_mod(d, k);
            assert(d >= 0) by (nonlinear_arith)
                requires
                    d == k * (d / k) + d % k,
                    d % k == 0,
                    d > -k,
                    k >= 1,
            ;
        }
        proof {
            lemma2_to64();
        }
        let ghost start = bit_index as int;
        let ghost p = prefix_value(s, start);
        let mut digit: u8 = 0;
        let mut offset: usize = 0;
        while offset < digit_width
            invariant
                s == bytes@,
                total == 8 * s.len(),
                start == bit_index as int,
                p == prefix_value(s, start),
                bit_index + digit_width <= total,
                1 <= digit_width <= 4,
                0 <= offset <= digit_width,
                digit < pow2(offset as nat),
                digit == prefix_value(s, start + offset) - p * pow2(offset as nat),
                bit_at(s, first_bit as int) == 1,
                prefix_value(s, first_bit as int) == 0,
                bit_index == first_bit && offset >= 1 ==> digit >= 1,
            decreases digit_width - offset,
        {
            let index = bit_index + offset;
            let bit = (bytes[index / 8] >> ((7 - index % 8) as u8)) & 1;
            proof {
                lemma_read_bit(s, index as int, bytes@[(index / 8) as int], bit);
                lemma_prefix_next(s, index as int);
                lemma_pow2_adds(offset as nat, 1);
                lemma2_to64();
                vstd::arithmetic::power2::lemma_pow2_strictly_increases(offset as nat, 4);
                if offset < 4 {
                    vstd::arithmetic::power2::lemma_pow2_strictly_increases(offset as nat, 4);
                }
                assert(digit < 16) by {
                    if offset < 4 {
                        vstd::arithmetic::power2::lemma_pow2_strictly_increases(offset as nat, 4);
                    }
                }
                assert(digit < 128 && bit <= 1 ==> ((digit << 1u8) | bit) == digit * 2 + bit) by (bit_vector);
                if bit_index == first_bit && offset == 0 {
                    assert(prefix_value(s, start) == 0);
                }
                let po = pow2(offset as nat);
                assert(digit * 2 + bit == prefix_value(s, start + offset + 1) - p * pow2((offset + 1) as nat))
                    by (nonlinear_arith)
                    requires
                        digit == prefix_value(s, start + offset) - p * po,
                        prefix_value(s, start + offset + 1) == 2 * prefix_value(s, start + offset) + bit,
                        pow2((offset + 1) as nat) == po * 2,
                ;
                assert(digit * 2 + bit < pow2((offset + 1) as nat)) by (nonlinear_arith)
                    requires
                        digit < po,
                        bit <= 1,
                        pow2((offset + 1) as nat) == po * 2,
                ;
            }
            digit = (digit << 1) | bit;
            offset = offset + 1;
        }
        proof {
            lemma_pow2_pos(digit_width as nat);
            let next = prefix_value(s, start + digit_width);
            assert(next == p * pow2(digit_width as nat) + digit);
            if bit_index == first_bit {
                assert(p == 0);
                assert(next == digit);
                assert(digit < radix as nat) by {
                    if (digit_width as int) < k {
                        vstd::arithmetic::power2::lemma_pow2_strictly_increases(digit_width as nat, k as nat);
                    }
                }
                assert(radix_text(next, radix as nat, uppercase) == seq![digit_char(digit as nat, uppercase)]);
            } else {
                lemma_radix_text_step(p, digit as nat, radix as nat, uppercase);
                assert(next > 0) by (nonlinear_arith)
                    requires
                        next == p * pow2(digit_width as nat) + digit,
                        p > 0,
                        pow2(digit_width as nat) > 0,
                ;
            }
        }
        proof {
            lemma2_to64();
            assert(digit < 16) by {
                if digit_width < 4 {
                    vstd::arithmetic::power2::lemma_pow2_strictly_increases(digit_width as nat, 4);
                }
            }
        }
        let encoded: u8 = if digit <= 9 {
            48 + digit
        } else if uppercase {
            55 + digit
        } else {
            87 + digit
        };
        string_push(&mut out, encoded as char);
        proof {
            let next = prefix_value(s, start + digit_width);
            assert((encoded as char) == digit_char(digit as nat, uppercase));
            if bit_index == first_bit {
                assert(out@ =~= sign_text + radix_text(next, radix as nat, uppercase));
            } else {
                assert(out@ =~= sign_text + radix_text(next, radix as nat, uppercase));
            }
            let d = total - bit_index - digit_width;
            vstd::arithmetic::div_mod::lemma_mod_sub_multiples_vanish(d, k);
            assert((d - k) % k == 0);
        }
        bit_index = bit_index + digit_width;
        digit_width = bits_per_digit;
    }
    proof {
        lemma_prefix_value_whole(s);
    }
    Some(out)
}

} // verus!
