//! The `crypto-bigint` backend: signed big integers whose magnitudes are held as 64-bit words
//! and computed on by `crypto_bigint::BoxedUint`.

mod sign;
pub mod words;
pub mod limbs;
pub mod bn;
mod convert;
pub mod arith;
pub mod modular;
pub mod random;
mod order;
pub use order::int_order;
mod element;
pub(crate) mod encoding;
mod ct;
pub mod serial;
pub mod egcd;
pub use bn::BigNumber;

pub use sign::{readable_sign, Sign};
