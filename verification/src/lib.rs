//! Algebraic core for finite-field and elliptic-curve computation.
//!
//! The crate provides finite-field arithmetic over two interchangeable
//! backends (plain modular arithmetic and Montgomery-reduced arithmetic),
//! a quadratic extension field, elliptic-curve group operations in
//! projective short Weierstrass and twisted Edwards coordinates with
//! bilinear pairings, and a two-adic fast Fourier transform for
//! polynomial evaluation and interpolation.

pub mod errors;
pub mod fft;
pub mod montgomery;
pub mod pairing;
pub mod polynomial;
pub mod projective_point;
pub mod quadratic_extension;
pub mod test_curve_1;
pub mod twisted_edwards;
pub mod u64_prime_field;
