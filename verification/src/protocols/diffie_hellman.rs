//! Diffie-Hellman key exchange over the curve group: each party draws a
//! private scalar, publishes `generator * private`, and combines the peer's
//! public point with its own private scalar to reach the shared secret.

use super::{generate_private_key, ProtocolError};
use crate::curve::{spec_order_found, Curve};
use crate::point::{spec_scalar_mul, Point};
use vstd::prelude::*;

verus! {

/// One participant of a Diffie-Hellman exchange: a private scalar and the
/// matching public point.
pub struct DiffieHellman {
    pub private_key: i64,
    pub public_key: Point,
}

impl DiffieHellman {
    /// Creates a participant over `curve` with the given generator: computes
    /// the generator's order, draws a private scalar from `[1, order)`, and
    /// derives the public key as `generator * private`.
    pub fn new(curve: Curve, generator: Point) -> (r: Result<Self, ProtocolError>)
        requires
            curve.wf(),
            generator.wf(),
            curve.prime < i64::MAX,
        ensures
            (forall|m: int|
                !spec_order_found(
                    generator.spec_prime(),
                    generator.a.spec_value(),
                    generator.b.spec_value(),
                    generator.coords(),
                    curve.prime as int,
                    m,
                )) ==> r == Err::<DiffieHellman, ProtocolError>(ProtocolError::InvalidParameters),
            r == Err::<DiffieHellman, ProtocolError>(ProtocolError::InvalidParameters)
                ==> forall|m: int|
                !spec_order_found(
                    generator.spec_prime(),
                    generator.a.spec_value(),
                    generator.b.spec_value(),
                    generator.coords(),
                    curve.prime as int,
                    m,
                ),
            r matches Ok(dh) ==> ((exists|m: int|
                spec_order_found(
                    generator.spec_prime(),
                    generator.a.spec_value(),
                    generator.b.spec_value(),
                    generator.coords(),
                    curve.prime as int,
                    m,
                ) && 1 <= dh.private_key < m) && spec_scalar_mul(
                generator.spec_prime(),
                generator.a.spec_value(),
                generator.b.spec_value(),
                generator.coords(),
                dh.private_key as int,
            ) == Ok::<Option<(int, int)>, crate::point::PointError>(dh.public_key.coords())
                && dh.public_key.wf() && dh.public_key.a == generator.a && dh.public_key.b
                == generator.b),
            r == Err::<DiffieHellman, ProtocolError>(ProtocolError::OperationFailed) ==> (exists|
                m: int,
                k: int,
            |
                spec_order_found(
                    generator.spec_prime(),
                    generator.a.spec_value(),
                    generator.b.spec_value(),
                    generator.coords(),
                    curve.prime as int,
                    m,
                ) && 1 <= k < m && spec_scalar_mul(
                    generator.spec_prime(),
                    generator.a.spec_value(),
                    generator.b.spec_value(),
                    generator.coords(),
                    k,
                ) is Err),
    {
        let order = match curve.point_order(&generator) {
            Ok(o) => o,
            Err(_) => {
                return Err(ProtocolError::InvalidParameters);
            },
        };

        let private_key = generate_private_key(order);
        let public_key = match generator.mul(private_key) {
            Ok(q) => q,
            Err(_) => {
                return Err(ProtocolError::OperationFailed);
            },
        };

        Ok(Self { private_key, public_key })
    }

    /// The participant's public point.
    pub fn public_key(&self) -> (r: &Point)
        ensures
            *r == self.public_key,
    {
        &self.public_key
    }

    /// Combines the peer's public point with this participant's private
    /// scalar: `other_public * private`, the shared secret.
    pub fn compute_shared_secret(&self, other_public: &Point) -> (r: Result<Point, ProtocolError>)
        requires
            other_public.wf(),
        ensures
            (match spec_scalar_mul(
                other_public.spec_prime(),
                other_public.a.spec_value(),
                other_public.b.spec_value(),
                other_public.coords(),
                self.private_key as int,
            ) {
                Ok(c) => r matches Ok(q) && q.wf() && q.a == other_public.a && q.b
                    == other_public.b && q.coords() == c,
                Err(_) => r == Err::<Point, ProtocolError>(ProtocolError::OperationFailed),
            }),
    {
        match other_public.mul(self.private_key) {
            Ok(q) => Ok(q),
            Err(_) => Err(ProtocolError::OperationFailed),
        }
    }
}

} // verus!
