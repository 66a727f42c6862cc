//! ElGamal encryption over the curve group: a message point `M` is
//! encrypted against a public key `B = k*G` as the pair `(r*G, M + r*B)`
//! for an ephemeral scalar `r`, and decrypted as `C2 + (-(k*C1))`.

use super::{generate_private_key, ProtocolError};
use crate::curve::{spec_order_found, Curve};
use crate::point::{spec_neg_coords, spec_point_add, spec_scalar_mul, Point};
use vstd::prelude::*;

verus! {

/// A recipient of ElGamal messages: the curve, a generator, and the key
/// pair derived from them.
pub struct ElGamal {
    curve: Curve,
    generator: Point,
    private_key: i64,
    public_key: Point,
}

/// An ElGamal ciphertext: `c1 = r*G` and `c2 = M + r*B`.
#[derive(Debug, Clone, Copy)]
pub struct Ciphertext {
    pub c1: Point,
    pub c2: Point,
}

/// The outcome of encrypting `message` against `(gen, pk)` with the
/// ephemeral scalar `k`, on the abstract model: the coordinates of the two
/// ciphertext points, or the protocol failure the executable path maps the
/// group-law failure to.
pub open spec fn spec_encrypt_result(gen: Point, pk: Point, message: Point, k: int) -> Result<
    (Option<(int, int)>, Option<(int, int)>),
    ProtocolError,
> {
    match spec_scalar_mul(
        gen.spec_prime(),
        gen.a.spec_value(),
        gen.b.spec_value(),
        gen.coords(),
        k,
    ) {
        Err(_) => Err(ProtocolError::OperationFailed),
        Ok(c1) => match spec_scalar_mul(
            pk.spec_prime(),
            pk.a.spec_value(),
            pk.b.spec_value(),
            pk.coords(),
            k,
        ) {
            Err(_) => Err(ProtocolError::OperationFailed),
            Ok(rb) => if message.a == pk.a && message.b == pk.b {
                match spec_point_add(
                    message.spec_prime(),
                    message.a.spec_value(),
                    message.b.spec_value(),
                    message.coords(),
                    rb,
                ) {
                    Err(_) => Err(ProtocolError::OperationFailed),
                    Ok(c2) => Ok((c1, c2)),
                }
            } else {
                Err(ProtocolError::OperationFailed)
            },
        },
    }
}

/// The outcome of decrypting the pair `(c1, c2)` with the private scalar
/// `k`, on the abstract model: `c2 + (-(k*c1))`, or the protocol failure
/// the executable path maps the group-law failure to.
pub open spec fn spec_decrypt_result(c1: Point, c2: Point, k: int) -> Result<
    Option<(int, int)>,
    ProtocolError,
> {
    match spec_scalar_mul(c1.spec_prime(), c1.a.spec_value(), c1.b.spec_value(), c1.coords(), k) {
        Err(_) => Err(ProtocolError::OperationFailed),
        Ok(kc) => {
            let nk = spec_neg_coords(c1.spec_prime(), kc);
            if c2.a == c1.a && c2.b == c1.b {
                match spec_point_add(
                    c2.spec_prime(),
                    c2.a.spec_value(),
                    c2.b.spec_value(),
                    c2.coords(),
                    nk,
                ) {
                    Err(_) => Err(ProtocolError::OperationFailed),
                    Ok(m) => Ok(m),
                }
            } else {
                Err(ProtocolError::OperationFailed)
            }
        },
    }
}

impl ElGamal {
    /// The curve this recipient works over.
    pub closed spec fn spec_curve(self) -> Curve {
        self.curve
    }

    /// The recipient's generator point.
    pub closed spec fn spec_generator(self) -> Point {
        self.generator
    }

    /// The recipient's private scalar.
    pub closed spec fn spec_private_key(self) -> int {
        self.private_key as int
    }

    /// The recipient's public point `private * G`.
    pub closed spec fn spec_public_key(self) -> Point {
        self.public_key
    }

    /// Well-formedness of a recipient: curve and points are valid and the
    /// key pair lives on the generator's curve.
    pub open spec fn wf(self) -> bool {
        &&& self.spec_curve().wf()
        &&& self.spec_generator().wf()
        &&& self.spec_public_key().wf()
        &&& self.spec_public_key().a == self.spec_generator().a
        &&& self.spec_public_key().b == self.spec_generator().b
        &&& self.spec_curve().prime < i64::MAX
    }

    /// Creates a recipient over `curve` with the given generator: computes
    /// the generator's order, draws a private scalar from `[1, order)`, and
    /// derives the public key as `generator * private`.
    pub fn new(curve: Curve, generator: Point) -> (r: Result<Self, ProtocolError>)
        requires
            curve.wf(),
            generator.wf(),
            curve.prime < i64::MAX,
        ensures
            (forall|m: int|
                !spec_order_found(
                    generator.spec_prime(),
                    generator.a.spec_value(),
                    generator.b.spec_value(),
                    generator.coords(),
                    curve.prime as int,
                    m,
                )) ==> r == Err::<ElGamal, ProtocolError>(ProtocolError::InvalidParameters),
            r == Err::<ElGamal, ProtocolError>(ProtocolError::InvalidParameters) ==> forall|
                m: int,
            |
                !spec_order_found(
                    generator.spec_prime(),
                    generator.a.spec_value(),
                    generator.b.spec_value(),
                    generator.coords(),
                    curve.prime as int,
                    m,
                ),
            r matches Ok(eg) ==> (eg.wf() && eg.spec_curve() == curve && eg.spec_generator()
                == generator && (exists|m: int|
                spec_order_found(
                    generator.spec_prime(),
                    generator.a.spec_value(),
                    generator.b.spec_value(),
                    generator.coords(),
                    curve.prime as int,
                    m,
                ) && 1 <= eg.spec_private_key() < m) && spec_scalar_mul(
                generator.spec_prime(),
                generator.a.spec_value(),
                generator.b.spec_value(),
                generator.coords(),
                eg.spec_private_key(),
            ) == Ok::<Option<(int, int)>, crate::point::PointError>(
                eg.spec_public_key().coords(),
            )),
            r == Err::<ElGamal, ProtocolError>(ProtocolError::OperationFailed) ==> (exists|
                m: int,
                k: int,
            |
                spec_order_found(
                    generator.spec_prime(),
                    generator.a.spec_value(),
                    generator.b.spec_value(),
                    generator.coords(),
                    curve.prime as int,
                    m,
                ) && 1 <= k < m && spec_scalar_mul(
                    generator.spec_prime(),
                    generator.a.spec_value(),
                    generator.b.spec_value(),
                    generator.coords(),
                    k,
                ) is Err),
    {
        let order = match curve.point_order(&generator) {
            Ok(o) => o,
            Err(_) => {
                return Err(ProtocolError::InvalidParameters);
            },
        };

        let private_key = generate_private_key(order);
        let public_key = match generator.mul(private_key) {
            Ok(q) => q,
            Err(_) => {
                return Err(ProtocolError::OperationFailed);
            },
        };

        Ok(Self { curve, generator, private_key, public_key })
    }

    /// The recipient's public point.
    pub fn public_key(&self) -> (r: &Point)
        ensures
            *r == self.spec_public_key(),
    {
        &self.public_key
    }

    /// Encrypts a message point as `(r*G, M + r*B)`. The ephemeral scalar
    /// is the given `r`, or is drawn at random from `[1, order)`; the
    /// generator's order is recomputed on every call and its failure is
    /// reported before anything else.
    pub fn encrypt(&self, message: &Point, r: Option<i64>) -> (res: Result<
        Ciphertext,
        ProtocolError,
    >)
        requires
            self.wf(),
            message.wf(),
        ensures
            (forall|m: int|
                !spec_order_found(
                    self.spec_generator().spec_prime(),
                    self.spec_generator().a.spec_value(),
                    self.spec_generator().b.spec_value(),
                    self.spec_generator().coords(),
                    self.spec_curve().prime as int,
                    m,
                )) ==> res == Err::<Ciphertext, ProtocolError>(ProtocolError::InvalidParameters),
            r matches Some(k) ==> ((exists|m: int|
                spec_order_found(
                    self.spec_generator().spec_prime(),
                    self.spec_generator().a.spec_value(),
                    self.spec_generator().b.spec_value(),
                    self.spec_generator().coords(),
                    self.spec_curve().prime as int,
                    m,
                )) ==> (match spec_encrypt_result(
                self.spec_generator(),
                self.spec_public_key(),
                *message,
                k as int,
            ) {
                Ok(cs) => res matches Ok(ct) && ct.c1.wf() && ct.c2.wf() && ct.c1.a
                    == self.spec_generator().a && ct.c1.b == self.spec_generator().b && ct.c2.a
                    == message.a && ct.c2.b == message.b && ct.c1.coords() == cs.0
                    && ct.c2.coords() == cs.1,
                Err(e) => res == Err::<Ciphertext, ProtocolError>(e),
            })),
            (exists|m: int|
                spec_order_found(
                    self.spec_generator().spec_prime(),
                    self.spec_generator().a.spec_value(),
                    self.spec_generator().b.spec_value(),
                    self.spec_generator().coords(),
                    self.spec_curve().prime as int,
                    m,
                )) && r is None ==> (match res {
                Ok(ct) => (exists|k: int|
                    (exists|m: int|
                        spec_order_found(
                            self.spec_generator().spec_prime(),
                            self.spec_generator().a.spec_value(),
                            self.spec_generator().b.spec_value(),
                            self.spec_generator().coords(),
                            self.spec_curve().prime as int,
                            m,
                        ) && 1 <= k < m) && spec_encrypt_result(
                        self.spec_generator(),
                        self.spec_public_key(),
                        *message,
                        k,
                    ) == Ok::<(Option<(int, int)>, Option<(int, int)>), ProtocolError>(
                        (ct.c1.coords(), ct.c2.coords()),
                    )) && ct.c1.wf() && ct.c2.wf(),
                Err(e) => e == ProtocolError::OperationFailed && (exists|k: int|
                    (exists|m: int|
                        spec_order_found(
                            self.spec_generator().spec_prime(),
                            self.spec_generator().a.spec_value(),
                            self.spec_generator().b.spec_value(),
                            self.spec_generator().coords(),
                            self.spec_curve().prime as int,
                            m,
                        ) && 1 <= k < m) && spec_encrypt_result(
                        self.spec_generator(),
                        self.spec_public_key(),
                        *message,
                        k,
                    ) is Err),
            }),
            res == Err::<Ciphertext, ProtocolError>(ProtocolError::InvalidParameters) ==> forall|
                m: int,
            |
                !spec_order_found(
                    self.spec_generator().spec_prime(),
                    self.spec_generator().a.spec_value(),
                    self.spec_generator().b.spec_value(),
                    self.spec_generator().coords(),
                    self.spec_curve().prime as int,
                    m,
                ),
    {
        let order = match self.curve.point_order(&self.generator) {
            Ok(o) => o,
            Err(_) => {
                return Err(ProtocolError::InvalidParameters);
            },
        };

        let k = match r {
            Some(v) => v,
            None => generate_private_key(order),
        };

        let c1 = match self.generator.mul(k) {
            Ok(q) => q,
            Err(_) => {
                proof {
                    if r is None {
                        assert(spec_order_found(
                            self.spec_generator().spec_prime(),
                            self.spec_generator().a.spec_value(),
                            self.spec_generator().b.spec_value(),
                            self.spec_generator().coords(),
                            self.spec_curve().prime as int,
                            order as int,
                        ) && 1 <= k as int && (k as int) < order as int);
                        assert(spec_encrypt_result(
                            self.spec_generator(),
                            self.spec_public_key(),
                            *message,
                            k as int,
                        ) is Err);
                    }
                }
                return Err(ProtocolError::OperationFailed);
            },
        };
        let rb = match self.public_key.mul(k) {
            Ok(q) => q,
            Err(_) => {
                proof {
                    if r is None {
                        assert(spec_order_found(
                            self.spec_generator().spec_prime(),
                            self.spec_generator().a.spec_value(),
                            self.spec_generator().b.spec_value(),
                            self.spec_generator().coords(),
                            self.spec_curve().prime as int,
                            order as int,
                        ) && 1 <= k as int && (k as int) < order as int);
                        assert(spec_encrypt_result(
                            self.spec_generator(),
                            self.spec_public_key(),
                            *message,
                            k as int,
                        ) is Err);
                    }
                }
                return Err(ProtocolError::OperationFailed);
            },
        };
        let c2 = match message.add(rb) {
            Ok(q) => q,
            Err(_) => {
                proof {
                    if r is None {
                        assert(spec_order_found(
                            self.spec_generator().spec_prime(),
                            self.spec_generator().a.spec_value(),
                            self.spec_generator().b.spec_value(),
                            self.spec_generator().coords(),
                            self.spec_curve().prime as int,
                            order as int,
                        ) && 1 <= k as int && (k as int) < order as int);
                        assert(spec_encrypt_result(
                            self.spec_generator(),
                            self.spec_public_key(),
                            *message,
                            k as int,
                        ) is Err);
                    }
                }
                return Err(ProtocolError::OperationFailed);
            },
        };

        proof {
            if r is None {
                let kk = k as int;
                assert(spec_order_found(
                    self.spec_generator().spec_prime(),
                    self.spec_generator().a.spec_value(),
                    self.spec_generator().b.spec_value(),
                    self.spec_generator().coords(),
                    self.spec_curve().prime as int,
                    order as int,
                ) && 1 <= kk < order as int);
                assert(spec_encrypt_result(
                    self.spec_generator(),
                    self.spec_public_key(),
                    *message,
                    kk,
                ) == Ok::<(Option<(int, int)>, Option<(int, int)>), ProtocolError>(
                    (c1.coords(), c2.coords()),
                ));
            }
        }
        Ok(Ciphertext { c1, c2 })
    }

    /// Decrypts a ciphertext as `C2 + (-(private * C1))`.
    pub fn decrypt(&self, ciphertext: &Ciphertext) -> (r: Result<Point, ProtocolError>)
        requires
            self.wf(),
            ciphertext.c1.wf(),
            ciphertext.c2.wf(),
        ensures
            (match spec_decrypt_result(ciphertext.c1, ciphertext.c2, self.spec_private_key()) {
                Ok(c) => r matches Ok(q) && q.wf() && q.a == ciphertext.c2.a && q.b
                    == ciphertext.c2.b && q.coords() == c,
                Err(e) => r == Err::<Point, ProtocolError>(e),
            }),
    {
        let kc1 = match ciphertext.c1.mul(self.private_key) {
            Ok(q) => q,
            Err(_) => {
                return Err(ProtocolError::OperationFailed);
            },
        };
        let neg_kc1 = kc1.neg();
        match ciphertext.c2.add(neg_kc1) {
            Ok(q) => Ok(q),
            Err(_) => Err(ProtocolError::OperationFailed),
        }
    }
}

} // verus!
