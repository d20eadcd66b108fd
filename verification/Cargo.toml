[package]
name = "unknown_order"
version = "0.13.0"
edition = "2021"
publish = false

[dependencies]
crypto-bigint = { version = "=0.7.10", features = ["alloc", "rand_core"] }
crypto-primes = { version = "=0.7.2" }
rand = { version = "=0.10.3" }
rand_core = { version = "=0.10.1" }
digest = { version = "=0.11.3" }
subtle = { version = "=2.6.1" }
zeroize = { version = "=1.9.1" }
serde = { version = "=1.0.229", features = ["derive"] }
thiserror = { version = "=2.0.21" }
num-bigint = { version = "=0.5.1" }
num-integer = { version = "=0.1.47" }
num-traits = { version = "=0.2.19" }
glass_pumpkin = { version = "=2.0.0" }
rug = { version = "=1.30.0", default-features = false, features = ["integer"] }
gmp-mpfr-sys = { version = "=1.7.1", default-features = false, features = ["use-system-libs"] }
openssl = { version = "0.10" }

[dev-dependencies]
serde_json = "=1.0.154"
