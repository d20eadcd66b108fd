//! The OpenSSL backend: signed big integers held as a sign and minimal big-endian magnitude
//! bytes, computed on by OpenSSL's `BIGNUM` functions through the `openssl` crate.

mod bn;
pub use bn::{BigNumber, MAX_BITS};
mod ssl;
mod arith;
mod encoding;
mod egcd;
mod random;
mod convert;
mod element;
