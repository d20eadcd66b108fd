# unknown_order

Arithmetic for groups of unknown order (RSA, Paillier, accumulators, class groups): signed big
integers with modular operations, and values bound to a runtime modulus that stay reduced after
every operation. The library is written in Verus: every function carries a contract over the
mathematical integers, and Verus proves that the code meets it.

## Layout

- `src/` is the verified library.
  - `group.rs`: `Group`, `GroupValue` and the `GroupElement` trait that the backends implement,
    with the laws that tie the group operations together.
  - `crypto/`, `rust/`, `openssl_backend/`: the three backends. Each holds its numbers as plain
    values (a sign and magnitude words, digits or bytes) and reaches its outside crate only
    through small trusted functions whose contracts state what the outside code computes.
  - `modspec.rs`, `bytes.rs`, `digits.rs`, `hex.rs`: the specifications shared by the backends
    (reduction, inverses, powers, big-endian bytes, digits in a radix, hexadecimal text) and the
    verified helpers built on them.
- `tests/` runs the library with the real outside crates.
- `app/` gives the library's numbers the traits that a Verus crate cannot carry itself:
  formatting, operators, serde, `subtle` and `zeroize`, and the error type's messages.

## Backends not provided

The GNU MP backend is not part of this crate: its `rug` and `gmp-mpfr-sys` dependencies do not
build in the environment this crate is developed in (building GMP from source fails at its
`configure` step, and linking the system library failed as well), and every one of its operations
is a call into GMP.
