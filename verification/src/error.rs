//! Errors of fallible big-number and group operations.
use vstd::prelude::*;
use glass_pumpkin::error::Error as PrimeGenerationError;
use ::openssl::error::ErrorStack as OpenSslErrorStack;

verus! {

/// The error that seeding a generator from operating-system entropy can report.
#[verifier::external_type_specification]
#[verifier::external_body]
pub struct ExSysError(rand::rngs::SysError);

/// The error that prime generation of `glass_pumpkin` can report.
#[verifier::external_type_specification]
#[verifier::external_body]
pub struct ExPrimeGenerationError(PrimeGenerationError);

/// The error stack that OpenSSL reports.
#[verifier::external_type_specification]
#[verifier::external_body]
pub struct ExErrorStack(OpenSslErrorStack);

/// Errors returned by fallible big-number operations.
#[derive(Debug)]
pub enum Error {
    /// A destination buffer did not match the encoded magnitude length.
    BufferLength {
        /// The required buffer length.
        expected: usize,
        /// The provided buffer length.
        actual: usize,
    },
    /// A requested bit length was too large for the backend.
    BitLengthTooLarge {
        /// The requested bit length.
        actual: usize,
        /// The largest supported bit length.
        maximum: usize,
    },
    /// A requested bit length was too small for the operation.
    BitLengthTooSmall {
        /// The requested bit length.
        actual: usize,
        /// The smallest supported bit length.
        minimum: usize,
    },
    /// The lower bound of a range was not less than its upper bound.
    InvalidRange,
    /// A modulus was negative, zero, or one.
    InvalidModulus,
    /// A prime field was requested with a composite modulus.
    ModulusNotPrime,
    /// Arithmetic operands were bound to groups with different moduli.
    MismatchedGroups,
    /// A value had no multiplicative inverse for the selected modulus.
    NonInvertible,
    /// Operating-system randomness was unavailable while seeding a generator.
    Random(rand::rngs::SysError),
    /// OpenSSL rejected an operation.
    OpenSsl(OpenSslErrorStack),
    /// Pure-Rust prime generation rejected an operation.
    PrimeGeneration(PrimeGenerationError),
}

/// A result returned by a fallible big-number operation.
pub type Result<T> = core::result::Result<T, Error>;

/// Checks that a requested bit length lies in `minimum..=maximum`.
pub fn validate_bit_length(actual: usize, minimum: usize, maximum: usize) -> (r: Result<()>)
    ensures
        actual < minimum ==> (r matches Err(Error::BitLengthTooSmall { actual: a, minimum: m }) && a == actual && m == minimum),
        minimum <= actual && actual > maximum ==> (r matches Err(Error::BitLengthTooLarge { actual: a, maximum: m }) && a == actual && m == maximum),
        minimum <= actual <= maximum ==> r is Ok,
{
    if actual < minimum {
        Err(Error::BitLengthTooSmall { actual, minimum })
    } else if actual > maximum {
        Err(Error::BitLengthTooLarge { actual, maximum })
    } else {
        Ok(())
    }
}

} // verus!
