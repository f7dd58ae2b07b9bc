//! Error taxonomy for field arithmetic, transforms and curve operations.

use vstd::prelude::*;

verus! {

/// Failure of a field operation.
#[derive(Clone, Copy, Debug, PartialEq, Eq, Structural)]
pub enum ArithmeticError {
    /// An inversion or division by the additive identity was requested.
    DivisionByZero,
}

/// Failure of a forward or inverse Fourier transform.
#[derive(Clone, Copy, Debug, PartialEq, Eq, Structural)]
pub enum FFTError {
    /// The input length is not a power of two.
    InvalidInputSize,
    /// The requested transform size exceeds the field's two-adicity.
    RootOfUnityUnavailable,
}

/// Failure of an elliptic-curve point operation.
#[derive(Clone, Copy, Debug, PartialEq, Eq, Structural)]
pub enum CurveError {
    /// The affine coordinates do not satisfy the curve equation.
    InvalidPoint,
    /// The point at infinity has no affine representative.
    UndefinedAffineConversion,
}

} // verus!
