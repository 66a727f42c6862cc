//! Textbook public-key protocols built on the curve group: Diffie-Hellman
//! key exchange and ElGamal encryption. Each participant draws a private
//! scalar at random from `[1, order)` for the order of its generator.

pub mod diffie_hellman;
pub mod elgamal;

use rand::RngExt;
use vstd::prelude::*;

verus! {

/// The failures of the protocol layer.
#[derive(Debug, Clone, Copy, PartialEq, Eq, Structural)]
pub enum ProtocolError {
    /// The generator's order could not be computed.
    InvalidParameters,
    /// A group operation inside the protocol failed.
    OperationFailed,
}

/// Draws a uniformly random private scalar from `[1, order)`.
///
/// Relies on `rand::rng` and `rand::RngExt::random_range` over the range
/// `1..order`: the drawn value lies in that half-open range. `random_range`
/// panics only on an empty range, which the precondition rules out;
/// obtaining the generator can still fail in the environment itself, if the
/// operating system's entropy source is unavailable at (re)seeding. Nothing
/// more is assumed of the value: every caller is verified for every outcome
/// in the range.
#[verifier::external_body]
pub(crate) fn generate_private_key(order: i64) -> (r: i64)
    requires
        order >= 2,
    ensures
        1 <= r < order,
{
    let mut rng = rand::rng();
    rng.random_range(1..order)
}

} // verus!
