use unknown_order::crypto::random::default_rng;
use unknown_order::rust::BigNumber;
use unknown_order::{decode_hex, Error, Group};

fn from_hex(value: &str) -> BigNumber {
    BigNumber::from_slice(&decode_hex(value).unwrap())
}

#[test]
fn rust_backend_safe_prime_of_the_smallest_size() {
    let n = BigNumber::safe_prime(128).unwrap();
    assert_eq!(n.bit_length(), 128);
    assert!(n.is_prime().unwrap());
    let sg = n.shr(1);
    assert!(sg.is_prime().unwrap())
}

#[test]
fn rust_backend_ct_eq() {
    let a = BigNumber::from(8);
    let b = BigNumber::from(8);

    assert!(a.ct_eq(&b));
}

#[test]
fn rust_backend_ct_eq_tells_signs_and_values_apart() {
    let a = BigNumber::from(8);
    assert!(!a.ct_eq(&BigNumber::from(-8)));
    assert!(!a.ct_eq(&BigNumber::from(9)));
    assert!(!a.ct_eq(&BigNumber::from(8u64 << 32)));
    assert!(BigNumber::zero().ct_eq(&BigNumber::from(0)));
}

#[test]
fn rust_backend_basic_ops() {
    let bn1 = from_hex("684982f082a4b2953bd04e1761dea837fec1a725");
    let bn2 = from_hex("400000000000000000000000000000000001a671");
    let bn3 = from_hex("a84982f082a4b2953bd04e1761dea837fec34d96");
    let bn4 = from_hex("284982f082a4b2953bd04e1761dea837fec000b4");
    let bn5 = from_hex(
        "1a1260bc20a92ca54ef41385d877aa0dffb115e0764b43852914d478c7ad03a73c948eaaad01c555",
    );
    assert_eq!(bn1.add(&bn2), bn3);
    assert_eq!(bn1.sub(&bn2), bn4);
    assert_eq!(bn2.sub(&bn1), bn4.neg());
    assert_eq!(bn1.mul(&bn2), bn5);
    assert_eq!(bn1.mul(&bn2.neg()), bn5.neg());
    assert_eq!(bn1.neg().mul(&bn2.neg()), bn5);
}

#[test]
fn rust_backend_div_rem_truncates() {
    let (q, r) = BigNumber::from(-23).div_rem(&BigNumber::from(10));
    assert_eq!(q, BigNumber::from(-2));
    assert_eq!(r, BigNumber::from(-3));
    assert_eq!(BigNumber::from(23).div(&BigNumber::from(-10)), BigNumber::from(-2));
    assert_eq!(BigNumber::from(23).rem(&BigNumber::from(-10)), BigNumber::from(3));
}

#[test]
fn rust_backend_shifts() {
    assert_eq!(BigNumber::from(3).shl(70), from_hex("c00000000000000000"));
    assert_eq!(BigNumber::from(-7).shr(1), BigNumber::from(-4));
    assert_eq!(BigNumber::from(7).shr(1), BigNumber::from(3));
}

#[test]
fn rust_backend_modular_arithmetic() {
    let n = BigNumber::from(11);
    assert_eq!(BigNumber::from(-3).nmod(&n), BigNumber::from(8));
    assert_eq!(BigNumber::from(7).modadd(&BigNumber::from(6), &n), BigNumber::from(2));
    assert_eq!(BigNumber::from(3).modsub(&BigNumber::from(6), &n), BigNumber::from(8));
    assert_eq!(BigNumber::from(7).modmul(&BigNumber::from(6), &n), BigNumber::from(9));
    assert_eq!(BigNumber::from(3).modneg(&n), BigNumber::from(8));
    assert_eq!(BigNumber::from(0).modneg(&n), BigNumber::zero());
    assert_eq!(BigNumber::from(1).moddiv(&BigNumber::from(3), &n), BigNumber::from(4));
    assert_eq!(BigNumber::from(5).moddiv(&BigNumber::from(0), &n), BigNumber::zero());
    assert_eq!(BigNumber::from(5).nmod(&BigNumber::from(-11)), BigNumber::from(5));
}

#[test]
fn rust_backend_invert() {
    let n = BigNumber::from(13);
    assert_eq!(BigNumber::from(2).invert(&n), Some(BigNumber::from(7)));
    assert_eq!(BigNumber::from(15).invert(&n), Some(BigNumber::from(7)));
    assert_eq!(BigNumber::from(0).invert(&n), None);
    assert_eq!(BigNumber::from(2).invert(&BigNumber::from(1)), None);
    assert_eq!(BigNumber::from(4).invert(&BigNumber::from(8)), None);
}

#[test]
fn rust_backend_modpow() {
    let n = BigNumber::from(13);
    assert_eq!(BigNumber::from(2).modpow(&BigNumber::from(5), &n), BigNumber::from(6));
    assert_eq!(BigNumber::from(2).modpow(&BigNumber::from(-1), &n), BigNumber::from(7));
    assert_eq!(BigNumber::from(-2).modpow(&BigNumber::from(3), &n), BigNumber::from(5));
    assert_eq!(BigNumber::from(2).modpow(&BigNumber::from(5), &BigNumber::zero()), BigNumber::zero());
    assert_eq!(BigNumber::from(2).modpow(&BigNumber::from(5), &BigNumber::from(-13)), BigNumber::from(6));
}

#[test]
fn rust_backend_gcd_lcm() {
    let a = BigNumber::from(12);
    let b = BigNumber::from(-18);
    assert_eq!(a.gcd(&b), BigNumber::from(6));
    assert_eq!(a.lcm(&b), BigNumber::from(36));
    let e = BigNumber::from(13).extended_gcd(&BigNumber::from(17));
    assert_eq!(e.gcd, BigNumber::one());
    assert_eq!(
        e.x.mul(&BigNumber::from(13)).add(&e.y.mul(&BigNumber::from(17))),
        BigNumber::one()
    );
}

#[test]
fn rust_backend_bytes_and_text() {
    let v = from_hex("0101");
    assert_eq!(v, BigNumber::from(257));
    assert_eq!(v.to_bytes(), vec![1u8, 1]);
    assert_eq!(BigNumber::zero().to_bytes(), vec![0u8]);
    assert_eq!(BigNumber::from(-255).to_string_radix(16), "-ff");
    assert_eq!(BigNumber::from(255).to_string_radix(2), "11111111");
    let mut buffer = [9u8; 2];
    v.copy_bytes_into_buffer(&mut buffer).unwrap();
    assert_eq!(buffer, [1u8, 1]);
    let mut short = [0u8; 1];
    match v.copy_bytes_into_buffer(&mut short) {
        Err(Error::BufferLength { expected, actual }) => {
            assert_eq!(expected, 2);
            assert_eq!(actual, 1);
        }
        _ => panic!("expected a buffer length error"),
    }
}

#[test]
fn rust_backend_readable_and_compact_round_trip() {
    for v in [BigNumber::from(257), BigNumber::from(-1), BigNumber::zero()] {
        let text = v.to_readable_hex();
        assert_eq!(BigNumber::from_readable_hex(&text), Some(v.clone()));
        let bytes = v.to_compact_bytes();
        assert_eq!(BigNumber::from_compact_bytes(&bytes), Some(v.clone()));
    }
    assert_eq!(BigNumber::from(257).to_readable_hex(), "0101");
    assert_eq!(BigNumber::from(-1).to_readable_hex(), "-01");
}

#[test]
fn rust_backend_order() {
    assert!(BigNumber::from(-5) < BigNumber::from(3));
    assert!(BigNumber::from(1u64 << 40) > BigNumber::from(7));
    assert!(BigNumber::from(4) <= BigNumber::from(4));
}

#[test]
fn rust_backend_random_values_stay_in_range() {
    let mut rng = default_rng().unwrap();
    let n = BigNumber::from(1000);
    for _ in 0..50 {
        let v = BigNumber::from_rng(&n, &mut rng);
        assert!(!v.is_negative());
        assert!(v < n);
    }
    let lower = BigNumber::from(-20);
    let upper = BigNumber::from(-10);
    for _ in 0..50 {
        let v = BigNumber::random_range_with_rng(&lower, &upper, &mut rng).unwrap();
        assert!(lower <= v && v < upper);
    }
    assert!(matches!(
        BigNumber::random_range_with_rng(&upper, &lower, &mut rng),
        Err(Error::InvalidRange)
    ));
}

#[test]
fn rust_backend_random_bits_has_requested_size() {
    let mut rng = default_rng().unwrap();
    for bits in [1u32, 7, 8, 9, 63, 64, 65, 256] {
        let v = BigNumber::from_rng_bits(bits, &mut rng);
        assert_eq!(v.bit_length(), bits as usize);
    }
    assert_eq!(BigNumber::from_rng_bits(0, &mut rng), BigNumber::zero());
    assert_eq!(BigNumber::random_bits(100).unwrap().bit_length(), 100);
}

#[test]
fn rust_backend_primes() {
    let mut rng = default_rng().unwrap();
    let p = BigNumber::prime_from_rng(128, &mut rng).unwrap();
    assert_eq!(p.bit_length(), 128);
    assert!(p.is_prime().unwrap());
    assert!(!BigNumber::from(-7).is_prime().unwrap());
    assert!(!BigNumber::from(15).is_prime().unwrap());
    assert!(BigNumber::from(13).is_prime().unwrap());
    match BigNumber::prime_from_rng(127, &mut rng) {
        Err(Error::BitLengthTooSmall { actual, minimum }) => {
            assert_eq!(actual, 127);
            assert_eq!(minimum, 128);
        }
        _ => panic!("expected a bit length error"),
    }
    assert!(matches!(
        BigNumber::safe_prime_from_rng(16, &mut rng),
        Err(Error::BitLengthTooSmall { actual: 16, minimum: 128 })
    ));
}

#[test]
fn rust_backend_sum_and_product() {
    let values = [BigNumber::from(2), BigNumber::from(-3), BigNumber::from(7)];
    assert_eq!(BigNumber::sum(&values), BigNumber::from(6));
    assert_eq!(BigNumber::product(&values), BigNumber::from(-42));
    assert_eq!(BigNumber::sum(&[]), BigNumber::zero());
    assert_eq!(BigNumber::product(&[]), BigNumber::one());
}

#[test]
fn rust_backend_group_values_stay_reduced() {
    let group = Group::new(BigNumber::from(11)).unwrap();
    let a = group.element(BigNumber::from(10));
    let b = group.element(BigNumber::from(5));
    assert_eq!(a.checked_add(&b).unwrap().value(), &BigNumber::from(4));
    assert_eq!(a.checked_mul(&b).unwrap().value(), &BigNumber::from(6));
    assert_eq!(b.checked_sub(&a).unwrap().value(), &BigNumber::from(6));
    let q = a.checked_div(&b).unwrap();
    assert_eq!(q.value(), &BigNumber::from(2));
    assert_eq!(q.checked_mul(&b).unwrap().value(), a.value());
    let mut c = a.clone();
    c.negate();
    assert_eq!(c.value(), &BigNumber::from(1));
    assert!(matches!(a.checked_div(&group.zero()), Err(Error::NonInvertible)));
    assert!(Group::prime_field(BigNumber::from(11)).unwrap().is_prime_field());
    assert!(matches!(Group::new(BigNumber::from(1)), Err(Error::InvalidModulus)));
}

#[test]
fn rust_backend_zeroize_and_default() {
    let mut v = BigNumber::from(-99);
    v.zeroize();
    assert!(v.is_zero());
    assert_eq!(BigNumber::default(), BigNumber::zero());
}

#[test]
fn rust_backend_negative_values_have_true_inverses() {
    let n = BigNumber::from(13);
    assert_eq!(BigNumber::from(-1).invert(&n), Some(BigNumber::from(12)));
    assert_eq!(BigNumber::from(-1).invert(&BigNumber::from(7)), Some(BigNumber::from(6)));
    assert_eq!(BigNumber::from(-11).invert(&n), Some(BigNumber::from(7)));
    assert_eq!(BigNumber::from(2).invert(&BigNumber::from(-13)), Some(BigNumber::from(7)));
    assert_eq!(BigNumber::from(-13).invert(&n), None);
    assert_eq!(BigNumber::from(3).invert(&BigNumber::from(-1)), None);
    assert_eq!(BigNumber::from(-2).modpow(&BigNumber::from(-1), &n), BigNumber::from(6));
    assert_eq!(BigNumber::from(-2).modpow(&BigNumber::from(-2), &n), BigNumber::from(10));
    assert_eq!(
        BigNumber::from(1).moddiv(&BigNumber::from(-3), &BigNumber::from(11)),
        BigNumber::from(7)
    );
}
