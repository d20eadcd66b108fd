use unknown_order::crypto::random::default_rng;
use unknown_order::crypto::BigNumber;
use unknown_order::decode_hex;

fn from_hex(value: &str) -> BigNumber {
    BigNumber::from_slice(&decode_hex(value).unwrap())
}

#[test]
fn basic_ops() {
    let bn1 = from_hex("684982f082a4b2953bd04e1761dea837fec1a725");
    let bn2 = from_hex("400000000000000000000000000000000001a671");
    let bn3 = from_hex("a84982f082a4b2953bd04e1761dea837fec34d96");
    let bn4 = from_hex("284982f082a4b2953bd04e1761dea837fec000b4");
    let bn5 = from_hex(
        "1a1260bc20a92ca54ef41385d877aa0dffb115e0764b43852914d478c7ad03a73c948eaaad01c555",
    );
    assert_eq!(bn1.add(&bn2), bn3);
    assert_eq!(bn1.sub(&bn2), bn4);
    assert_eq!(bn2.sub(&bn1), bn4.neg());
    assert_eq!(bn1.mul(&bn2), bn5);
    assert_eq!(bn1.mul(&bn2.neg()), bn5.clone().neg());
    assert_eq!(bn1.neg().mul(&bn2.neg()), bn5);
}

#[test]
fn primes() {
    let p1 = BigNumber::prime_from_rng(256, &mut default_rng().unwrap()).unwrap();
    assert!(p1.is_prime().unwrap());
}

#[test]
fn crypto_backend_bytes() {
    let p1 = BigNumber::prime_from_rng(256, &mut default_rng().unwrap()).unwrap();
    let bytes = p1.to_bytes();
    let p2 = BigNumber::from_slice(&bytes);
    assert_eq!(p1, p2);
}

#[test]
fn dynamic_precision() {
    let wide = BigNumber::from(u128::MAX);
    assert_eq!(wide.to_bytes(), u128::MAX.to_be_bytes());

    let carry = BigNumber::from(u64::MAX).add(&BigNumber::one());
    assert_eq!(carry, BigNumber::from(1u128 << 64));

    let product = BigNumber::from(u64::MAX).mul(&BigNumber::from(u64::MAX));
    assert_eq!(product, BigNumber::from((u64::MAX as u128).pow(2)));

    let shifted = BigNumber::one().shl(130);
    assert_eq!(shifted.bit_length(), 131);
    assert_eq!(shifted.to_bytes().len(), 17);

    let minimum = BigNumber::from(i128::MIN);
    assert_eq!(minimum, BigNumber::from(1u128 << 127).neg());

    let modulus = BigNumber::one().shl(127).add(&BigNumber::one());
    let fixed_width = BigNumber::from(5u8).nmod(&modulus);
    assert_eq!(fixed_width, BigNumber::from(5u8));
    assert_eq!(fixed_width.add(&BigNumber::one()), BigNumber::from(6u8));
    assert_eq!(fixed_width.sub(&BigNumber::one()), BigNumber::from(4u8));

    let mut bytes = [0u8; 1];
    BigNumber::one().copy_bytes_into_buffer(&mut bytes).unwrap();
    assert_eq!(bytes, [1]);
}

#[test]
fn modular_arithmetic_with_signed_values_and_even_modulus() {
    let n = BigNumber::from(5);
    assert_eq!(BigNumber::from(3), BigNumber::from(-3).modadd(&BigNumber::from(-4), &n));
    assert_eq!(BigNumber::from(3), BigNumber::from(-3).modmul(&BigNumber::from(4), &n));
    assert_eq!(BigNumber::from(3), BigNumber::from(-3).modneg(&n));
    assert_eq!(BigNumber::from(2), BigNumber::from(-3).nmod(&n.neg()));
    assert_eq!(BigNumber::from(-1), BigNumber::from(-6).rem(&BigNumber::from(5)));

    let even_modulus = BigNumber::from(6);
    assert_eq!(
        BigNumber::from(4),
        BigNumber::from(-2).modpow(&BigNumber::from(3), &even_modulus)
    );
    assert_eq!(BigNumber::from(7), BigNumber::from(-3).invert(&BigNumber::from(11)).unwrap());
}

#[test]
fn crypto_backend_primes_beyond_the_precision_are_refused() {
    let size = unknown_order::crypto::words::MAX_BITS as usize + 1;
    assert!(matches!(
        BigNumber::prime_from_rng(size, &mut default_rng().unwrap()),
        Err(unknown_order::Error::BitLengthTooLarge { actual, maximum })
            if actual == size && maximum == size - 1
    ));
    assert!(matches!(
        BigNumber::safe_prime_from_rng(size, &mut default_rng().unwrap()),
        Err(unknown_order::Error::BitLengthTooLarge { .. })
    ));
}
