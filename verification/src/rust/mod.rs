//! The `num-bigint` backend: signed big integers held as canonical 32-bit digits, computed on by
//! `num_bigint::BigInt`, with primes from `glass_pumpkin`.

pub mod digits;
mod bn;
pub use bn::BigNumber;
pub mod big;
mod arith;
mod modular;
mod encoding;
mod order;
mod convert;
pub mod random;
mod element;
