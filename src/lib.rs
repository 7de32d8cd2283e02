//! Elliptic-curve public-key derivation over short-Weierstrass curves in affine
//! coordinates, with arbitrary-precision field arithmetic.
pub mod arithmetic;
pub mod bignat;
pub mod curve;
pub mod digital_signature;
pub mod number_theory;
pub mod secp256k1;
