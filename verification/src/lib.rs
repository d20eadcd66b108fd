//! Arithmetic for groups of unknown order: big integers, and values that stay reduced modulo
//! a runtime modulus.
//!
//! Three interchangeable backends hold signed big integers: [`crypto`] (`crypto-bigint` and
//! `crypto-primes`), [`rust`] (`num-bigint` and `glass_pumpkin`) and [`openssl_backend`]
//! (OpenSSL's `BIGNUM`). [`Group`] and [`GroupValue`] work over any of them through
//! [`GroupElement`].

mod text;
pub mod modspec;
pub mod hex;
pub mod bytes;
pub use bytes::ct_eq_bytes;
pub mod digits;
pub use digits::fmt_bytes_radix;

pub use hex::{decode_hex, decode_signed_hex, encode_signed_hex};
mod error;
mod gcd_result;

pub use error::{validate_bit_length, Error, Result};
pub use gcd_result::GcdResult;
pub mod crypto;
pub mod group;
pub mod rust;
pub mod openssl_backend;
pub use group::{Group, GroupElement, GroupValue};
