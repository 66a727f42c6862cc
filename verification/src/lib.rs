//! A small elliptic-curve arithmetic library over a prime field.
//!
//! The layers, from the bottom up:
//! - [`field::FieldElement`]: an integer modulo a fixed prime, with the four
//!   field operations, negation, inversion and modular exponentiation.
//! - [`point::Point`]: a point on a short-Weierstrass curve
//!   `y^2 = x^3 + a*x + b`, including the point at infinity, with the group
//!   law, negation and scalar multiplication.
//! - [`curve::Curve`]: validates curve parameters and builds points.
//! - [`protocols`]: Diffie-Hellman key exchange and ElGamal encryption built
//!   on top of the group operations.
//!
//! Every operation carries a contract that pins down its result in terms of
//! exact modular arithmetic.

pub mod curve;
pub mod field;
pub mod point;
pub mod protocols;
pub mod numtheory;
