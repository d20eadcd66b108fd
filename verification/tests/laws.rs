use unknown_order::crypto::random::default_rng;
use unknown_order::crypto::{BigNumber, Sign};
use unknown_order::{
    ct_eq_bytes, decode_hex, decode_signed_hex, encode_signed_hex, fmt_bytes_radix, validate_bit_length,
    Error, Group,
};

#[test]
fn hex_round_trip() {
    for (negative, bytes) in [(false, vec![]), (true, vec![]), (false, vec![0, 1, 0xab]), (true, vec![0xff])] {
        let text = encode_signed_hex(negative, &bytes);
        assert_eq!(decode_signed_hex(&text), Some((negative, bytes)));
    }
    assert_eq!(encode_signed_hex(true, &[0x0f, 0xa0]), "-0fa0");
    assert_eq!(decode_hex("abc"), Some(vec![0x0a, 0xbc]));
    assert_eq!(decode_hex("ABCD"), Some(vec![0xab, 0xcd]));
    assert_eq!(decode_hex("0g"), None);
    assert_eq!(decode_signed_hex("--1"), None);
}

#[test]
fn readable_and_compact_forms_round_trip() {
    for value in [0i64, 1, -1, 255, 256, -65536, i64::MIN, i64::MAX] {
        let n = BigNumber::from(value);
        assert_eq!(BigNumber::from_readable_hex(&n.to_readable_hex()).unwrap(), n);
        assert_eq!(BigNumber::from_compact_bytes(&n.to_compact_bytes()).unwrap(), n);
    }
    assert_eq!(BigNumber::zero().to_readable_hex(), "00");
    assert_eq!(BigNumber::zero().to_compact_bytes(), vec![0, 0]);
    assert_eq!(BigNumber::from_readable_hex("").unwrap(), BigNumber::zero());
    assert_eq!(BigNumber::from_readable_hex("-00").unwrap(), BigNumber::zero());
    assert!(BigNumber::from_readable_hex("xyz").is_none());
    assert!(BigNumber::from_compact_bytes(&[]).is_none());
    assert_eq!(BigNumber::from_compact_bytes(&[1]).unwrap(), BigNumber::zero());
    assert_eq!(BigNumber::from_compact_bytes(&[7, 2]).unwrap(), BigNumber::from(2));
}

#[test]
fn division_identity() {
    for (a, b) in [(17i64, 5i64), (-17, 5), (17, -5), (-17, -5), (4, 7), (0, 3)] {
        let (q, r) = BigNumber::from(a).div_rem(&BigNumber::from(b));
        assert_eq!(q.mul(&BigNumber::from(b)).add(&r), BigNumber::from(a));
        assert_eq!(q, BigNumber::from(a / b));
        assert_eq!(r, BigNumber::from(a % b));
    }
    let (q, r) = BigNumber::from(9).div_rem(&BigNumber::zero());
    assert_eq!(q, BigNumber::zero());
    assert_eq!(r, BigNumber::from(9));
}

#[test]
fn gcd_lcm_and_bezout() {
    let a = BigNumber::from(-84);
    let b = BigNumber::from(36);
    let g = a.gcd(&b);
    let l = a.lcm(&b);
    assert_eq!(g, BigNumber::from(12));
    assert_eq!(l, BigNumber::from(252));
    assert_eq!(g.mul(&l), BigNumber::from(84 * 36));
    assert_eq!(BigNumber::zero().lcm(&BigNumber::zero()), BigNumber::zero());

    for (x, y) in [(240i64, 46i64), (-240, 46), (0, 5), (5, 0), (7, 7), (0, 0), (-3, -9)] {
        let x = BigNumber::from(x);
        let y = BigNumber::from(y);
        let res = x.extended_gcd(&y);
        assert_eq!(res.gcd, x.gcd(&y));
        assert_eq!(res.x.mul(&x).add(&res.y.mul(&y)), res.gcd);
    }
}

#[test]
fn shifts() {
    let x = BigNumber::from(-12345);
    assert_eq!(x.shl(70).shr(70), x);
    assert_eq!(BigNumber::from(-5).shr(1), BigNumber::from(-3));
    assert_eq!(BigNumber::from(5).shr(1), BigNumber::from(2));
    assert_eq!(BigNumber::from(3).shl(2), BigNumber::from(12));
}

#[test]
fn ordering_and_equality() {
    let values = [-300i64, -2, 0, 1, 299];
    for a in values {
        for b in values {
            let (x, y) = (BigNumber::from(a), BigNumber::from(b));
            assert_eq!(x.partial_cmp(&y), a.partial_cmp(&b));
            assert_eq!(x == y, a == b);
            assert_eq!(x.ct_eq(&y), a == b);
        }
    }
}

#[test]
fn signs() {
    assert_eq!(-Sign::Minus, Sign::Plus);
    assert_eq!(-Sign::NoSign, Sign::NoSign);
    assert_eq!(Sign::Minus * Sign::Minus, Sign::Plus);
    assert_eq!(Sign::Plus * Sign::NoSign, Sign::NoSign);
    assert_eq!(i8::from(Sign::Minus), -1);
    assert_eq!(Sign::try_from(1i8), Ok(Sign::Plus));
    assert_eq!(Sign::try_from(2i8), Err(()));
    assert_eq!(Sign::parse("-"), Sign::Minus);
    assert_eq!(Sign::parse("+"), Sign::Plus);
    assert_eq!(Sign::Minus.display_text(), "-");
    assert_eq!(Sign::from_readable_text("00"), Some(Sign::NoSign));
    assert_eq!(Sign::from_readable_text(""), Some(Sign::Plus));
    assert_eq!(Sign::from_readable_text("+"), None);
    assert!(Sign::Plus.ct_eq(&Sign::Plus));
    assert!(!Sign::Plus.ct_eq(&Sign::Minus));
}

#[test]
fn formats_bytes_in_power_of_two_radixes() {
    assert_eq!(fmt_bytes_radix(false, &[0x01, 0x02], 16, false).unwrap(), "102");
    assert_eq!(fmt_bytes_radix(true, &[0x00, 0xab], 16, true).unwrap(), "-AB");
    assert_eq!(fmt_bytes_radix(false, &[0x05], 2, false).unwrap(), "101");
    assert_eq!(fmt_bytes_radix(false, &[0x01, 0xff], 8, false).unwrap(), "777");
    assert_eq!(fmt_bytes_radix(true, &[0, 0], 8, false).unwrap(), "-0");
    assert_eq!(fmt_bytes_radix(false, &[], 2, false).unwrap(), "0");
    assert!(fmt_bytes_radix(false, &[1], 10, false).is_none());
    assert_eq!(
        fmt_bytes_radix(false, &BigNumber::from(123456789).to_bytes(), 16, false).unwrap(),
        BigNumber::from(123456789).to_string_radix(16)
    );
}

#[test]
fn compares_padded_bytes() {
    assert!(ct_eq_bytes(false, &[0, 0, 1], false, &[1]));
    assert!(!ct_eq_bytes(true, &[1], false, &[1]));
    assert!(!ct_eq_bytes(false, &[2, 1], false, &[1]));
    assert!(ct_eq_bytes(true, &[], true, &[0]));
}

#[test]
fn bit_length_validation() {
    assert!(validate_bit_length(5, 2, 10).is_ok());
    assert!(matches!(validate_bit_length(1, 2, 10), Err(Error::BitLengthTooSmall { actual: 1, minimum: 2 })));
    assert!(matches!(validate_bit_length(11, 2, 10), Err(Error::BitLengthTooLarge { actual: 11, maximum: 10 })));
    assert!(matches!(
        BigNumber::prime(u32::MAX as usize + 1),
        Err(Error::BitLengthTooLarge { maximum, .. }) if maximum == u32::MAX as usize
    ));
}

#[test]
fn radix_strings() {
    assert_eq!(BigNumber::from(-255).to_string_radix(10), "-255");
    assert_eq!(BigNumber::zero().to_string_radix(36), "0");
    assert_eq!(BigNumber::from(35).to_string_radix(36), "z");
    assert_eq!(BigNumber::from(u128::MAX).to_string_radix(10), u128::MAX.to_string());
}

#[test]
fn bytes_round_trip_and_buffers() {
    let n = BigNumber::from(-0x1234_5678_9abci64);
    assert_eq!(n.to_bytes(), vec![0x12, 0x34, 0x56, 0x78, 0x9a, 0xbc]);
    assert_eq!(BigNumber::from_slice(&n.to_bytes()), n.neg());
    assert_eq!(BigNumber::from_slice(&[0, 0, 0]), BigNumber::zero());
    assert_eq!(BigNumber::from_slice(&[0, 1, 0]), BigNumber::from(256));
    let mut long = [0u8; 7];
    assert!(matches!(
        n.copy_bytes_into_buffer(&mut long),
        Err(Error::BufferLength { expected: 6, actual: 7 })
    ));
    let mut empty: [u8; 0] = [];
    assert!(BigNumber::zero().copy_bytes_into_buffer(&mut empty).is_ok());
}

#[test]
fn modular_operations() {
    let n = BigNumber::from(13);
    let a = BigNumber::from(-20);
    let b = BigNumber::from(5);
    assert_eq!(a.nmod(&n), BigNumber::from(6));
    assert_eq!(a.modadd(&b, &n), BigNumber::from(11));
    assert_eq!(a.modsub(&b, &n), BigNumber::from(1));
    assert_eq!(a.modmul(&b, &n), BigNumber::from(4));
    assert_eq!(a.moddiv(&b, &n), BigNumber::from(9));
    assert_eq!(a.moddiv(&b, &n).modmul(&b, &n), a.nmod(&n));
    assert_eq!(a.modneg(&n), BigNumber::from(7));
    assert_eq!(BigNumber::from(3).modpow(&BigNumber::from(5), &BigNumber::from(16)), BigNumber::from(3));
    assert_eq!(BigNumber::from(2).modpow(&BigNumber::from(-1), &BigNumber::from(4)), BigNumber::zero());
    assert_eq!(BigNumber::from(5).moddiv(&BigNumber::from(2), &BigNumber::from(4)), BigNumber::zero());
    assert_eq!(a.modadd(&b, &BigNumber::zero()), BigNumber::zero());
    assert!(BigNumber::zero().invert(&n).is_none());
    assert!(BigNumber::from(3).invert(&BigNumber::one()).is_none());
}

#[test]
fn group_laws_on_values() {
    let group = Group::new(BigNumber::from(11)).unwrap();
    let a = group.element(BigNumber::from(-4));
    let b = group.element(BigNumber::from(3));
    assert_eq!(a.value(), &BigNumber::from(7));
    let quotient = a.checked_div(&b).unwrap();
    assert_eq!(quotient.checked_mul(&b).unwrap(), a);
    let difference = a.checked_sub(&b).unwrap();
    assert_eq!(difference.checked_add(&b).unwrap(), a);
    assert_eq!(a.negated().checked_add(&a).unwrap(), group.zero());
    let squared = a.pow(&BigNumber::from(2));
    let cubed = a.pow(&BigNumber::from(3));
    assert_eq!(squared.checked_mul(&cubed).unwrap(), a.pow(&BigNumber::from(5)));
    assert_eq!(group.sum(&[]), BigNumber::zero());
    assert!(matches!(Group::new(BigNumber::from(-7)), Err(Error::InvalidModulus)));
    assert_eq!(group.clone(), group);
}

#[test]
fn group_operations_associate_and_distribute() {
    let group = Group::new(BigNumber::from(23)).unwrap();
    let a = group.element(BigNumber::from(17));
    let b = group.element(BigNumber::from(-9));
    let c = group.element(BigNumber::from(40));
    let left = a.checked_add(&b).unwrap().checked_add(&c).unwrap();
    let right = a.checked_add(&b.checked_add(&c).unwrap()).unwrap();
    assert_eq!(left, right);
    let left = a.checked_mul(&b).unwrap().checked_mul(&c).unwrap();
    let right = a.checked_mul(&b.checked_mul(&c).unwrap()).unwrap();
    assert_eq!(left, right);
    let spread = a.checked_mul(&b).unwrap().checked_add(&a.checked_mul(&c).unwrap()).unwrap();
    assert_eq!(a.checked_mul(&b.checked_add(&c).unwrap()).unwrap(), spread);
    assert_eq!(spread.value(), &BigNumber::from(21));
}

#[test]
fn readme_example() {
    let field = Group::prime_field(BigNumber::from(17)).unwrap();
    let three = field.element(BigNumber::from(20));
    let eleven = field.element(BigNumber::from(11));

    let product = three.checked_mul(&eleven).unwrap();
    assert_eq!(product.into_value(), BigNumber::from(16));
    assert_eq!(three.pow(&BigNumber::from(4)).into_value(), BigNumber::from(13));
}

#[test]
fn randomness_stays_in_range() {
    let mut rng = default_rng().unwrap();
    let lower = BigNumber::from(-10);
    let upper = BigNumber::from(10);
    for _ in 0..50 {
        let v = BigNumber::random_range_with_rng(&lower, &upper, &mut rng).unwrap();
        assert!(lower <= v && v < upper);
        let w = BigNumber::from_rng(&BigNumber::from(-7), &mut rng);
        assert!(BigNumber::zero() <= w && w < BigNumber::from(7));
    }
    assert_eq!(BigNumber::from_rng(&BigNumber::zero(), &mut rng), BigNumber::zero());
    assert!(matches!(
        BigNumber::random_range_with_rng(&upper, &lower, &mut rng),
        Err(Error::InvalidRange)
    ));
    let p = BigNumber::safe_prime_from_rng(64, &mut rng).unwrap();
    assert_eq!(p.bit_length(), 64);
    assert!(p.shr(1).is_prime().unwrap());
    assert!(!BigNumber::from(91).is_prime().unwrap());
}

#[test]
fn sums_products_and_zeroize() {
    let nums = [BigNumber::from(-3), BigNumber::from(10), BigNumber::from(4)];
    assert_eq!(BigNumber::sum(&nums), BigNumber::from(11));
    assert_eq!(BigNumber::product(&nums), BigNumber::from(-120));
    assert_eq!(BigNumber::product(&[]), BigNumber::one());
    let mut n = BigNumber::from(-99);
    n.zeroize();
    assert!(n.is_zero());
    assert_eq!(BigNumber::default(), BigNumber::zero());
}

#[test]
fn prime_field_outcomes() {
    assert!(matches!(Group::prime_field(BigNumber::from(8)), Err(Error::ModulusNotPrime)));
    assert!(matches!(Group::prime_field(BigNumber::from(1)), Err(Error::InvalidModulus)));
    let field = Group::prime_field(BigNumber::from(17)).unwrap();
    assert!(field.is_prime_field());
    assert_eq!(field.modulus(), &BigNumber::from(17));
    let passed = Group::from_prime_test(BigNumber::from(17), Ok(true)).unwrap();
    assert!(passed.is_prime_field());
    assert!(matches!(
        Group::from_prime_test(BigNumber::from(9), Ok(false)),
        Err(Error::ModulusNotPrime)
    ));
    assert!(matches!(
        Group::from_prime_test(BigNumber::from(9), Err(Error::InvalidRange)),
        Err(Error::InvalidRange)
    ));
}
