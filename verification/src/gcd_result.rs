//! The result of the extended Euclidean algorithm.
use vstd::prelude::*;

verus! {

/// GcdResult encapsulates the gcd result and the Bézout coefficients
#[derive(Debug, Clone)]
pub struct GcdResult<T> {
    /// Quotient
    pub gcd: T,
    /// Bézout coefficient
    pub x: T,
    /// Bézout coefficient
    pub y: T,
}

} // verus!
