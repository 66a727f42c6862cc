//! The curve object: validates the parameters `(a, b, prime)` against the
//! non-singularity discriminant `4a^3 + 27b^2 != 0 (mod prime)`, builds
//! validated points, and computes the order of a point by brute-force
//! repeated addition.

use crate::field::FieldElement;
use crate::point::{f_add, f_mul, spec_point_add, Point, PointError};
use vstd::arithmetic::div_mod::{
    lemma_add_mod_noop, lemma_mul_mod_noop_general, lemma_mul_mod_noop_left, lemma_small_mod,
};
use vstd::arithmetic::mul::lemma_mul_is_commutative;
use vstd::prelude::*;

verus! {

/// The failures of curve construction and curve-level operations.
#[derive(Debug, Clone, Copy, PartialEq, Eq, Structural)]
pub enum CurveError {
    /// The coefficients describe a singular curve, or the modulus is not
    /// positive.
    InvalidParameters,
    /// A requested point could not be produced: coordinates off the curve,
    /// or an order search that exhausted its bound.
    PointGenerationFailed,
}

/// A short-Weierstrass curve `y^2 = x^3 + a*x + b` over the prime field
/// `F_prime`, validated to be non-singular.
#[derive(Debug, Clone, Copy)]
pub struct Curve {
    pub a: FieldElement,
    pub b: FieldElement,
    pub prime: i64,
}

/// The curve discriminant `4a^3 + 27b^2` modulo `p`; the curve is singular
/// exactly when it vanishes.
pub open spec fn spec_discriminant(p: int, a: int, b: int) -> int {
    (4 * (a * a * a) + 27 * (b * b)) % p
}

/// Iterated addition of a point with itself in the abstract model:
/// `spec_rep_add(.., pt, n)` is the n-fold sum `pt + pt + ... + pt`,
/// associated to the left, with `spec_rep_add(.., pt, 1) == Ok(pt)`.
pub open spec fn spec_rep_add(
    p: int,
    a: int,
    b: int,
    pt: Option<(int, int)>,
    n: nat,
) -> Result<Option<(int, int)>, PointError>
    decreases n,
{
    if n <= 1 {
        Ok(pt)
    } else {
        match spec_rep_add(p, a, b, pt, (n - 1) as nat) {
            Ok(c) => spec_point_add(p, a, b, c, pt),
            Err(e) => Err(e),
        }
    }
}

/// What it means for `m` to be the order that the brute-force search finds
/// for `pt` within `bound` iterations: the m-fold sum is the first iterated
/// sum (from the second on) that reaches the point at infinity.
pub open spec fn spec_order_found(
    p: int,
    a: int,
    b: int,
    pt: Option<(int, int)>,
    bound: int,
    m: int,
) -> bool {
    &&& 2 <= m <= bound + 1
    &&& spec_rep_add(p, a, b, pt, m as nat) == Ok::<Option<(int, int)>, PointError>(Option::None)
    &&& forall|j: int|
        2 <= j < m ==> ((#[trigger] spec_rep_add(p, a, b, pt, j as nat)) matches Ok(c)
            && c is Some)
}

impl Curve {
    /// Well-formedness: the coefficients are normalized elements of
    /// `F_prime` and the discriminant does not vanish.
    pub open spec fn wf(self) -> bool {
        &&& 0 < self.prime
        &&& self.a.wf()
        &&& self.b.wf()
        &&& self.a.spec_prime() == self.prime as int
        &&& self.b.spec_prime() == self.prime as int
        &&& spec_discriminant(self.prime as int, self.a.spec_value(), self.b.spec_value()) != 0
    }

    /// Validates the parameters and builds the curve: the modulus must be
    /// positive and the discriminant `4a^3 + 27b^2` must not vanish
    /// modulo `prime`.
    pub fn new(a: i64, b: i64, prime: i64) -> (r: Result<Self, CurveError>)
        ensures
            prime <= 0 ==> r == Err::<Curve, CurveError>(CurveError::InvalidParameters),
            prime > 0 && spec_discriminant(
                prime as int,
                (a as int) % (prime as int),
                (b as int) % (prime as int),
            ) == 0 ==> r == Err::<Curve, CurveError>(CurveError::InvalidParameters),
            prime > 0 && spec_discriminant(
                prime as int,
                (a as int) % (prime as int),
                (b as int) % (prime as int),
            ) != 0 ==> (r matches Ok(c) && c.wf() && c.prime == prime && c.a.spec_value() == (
            a as int) % (prime as int) && c.b.spec_value() == (b as int) % (prime as int)),
    {
        let a = match FieldElement::new(a, prime) {
            Ok(f) => f,
            Err(_) => {
                return Err(CurveError::InvalidParameters);
            },
        };
        let b = match FieldElement::new(b, prime) {
            Ok(f) => f,
            Err(_) => {
                return Err(CurveError::InvalidParameters);
            },
        };

        let four = match FieldElement::new(4, prime) {
            Ok(f) => f,
            Err(_) => vstd::pervasive::unreached(),
        };
        let twenty_seven = match FieldElement::new(27, prime) {
            Ok(f) => f,
            Err(_) => vstd::pervasive::unreached(),
        };
        let a_squared = f_mul(a, a);
        let a_cubed = f_mul(f_mul(a_squared, a), four);
        let b_squared = f_mul(f_mul(b, b), twenty_seven);
        let disc = f_add(a_cubed, b_squared);
        proof {
            let p = prime as int;
            let av = a.spec_value();
            let bv = b.spec_value();
            lemma_mul_mod_noop_left(av * av, av, p);
            assert(a_squared.spec_value() == (av * av) % p);
            assert(((av * av) % p * av) % p == (av * av * av) % p);
            lemma_mul_mod_noop_general(av * av * av, 4, p);
            lemma_mul_is_commutative(av * av * av, 4);
            assert(a_cubed.spec_value() == (4 * (av * av * av)) % p);
            lemma_mul_mod_noop_general(bv * bv, 27, p);
            lemma_mul_is_commutative(bv * bv, 27);
            assert(b_squared.spec_value() == (27 * (bv * bv)) % p);
            lemma_add_mod_noop(4 * (av * av * av), 27 * (bv * bv), p);
            assert(disc.spec_value() == spec_discriminant(p, av, bv));
        }
        if disc.value() == 0 {
            return Err(CurveError::InvalidParameters);
        }

        Ok(Self { a, b, prime })
    }

    /// Builds the point with the given affine coordinates, normalized into
    /// the field; fails when they do not satisfy the curve equation.
    pub fn point(&self, x: i64, y: i64) -> (r: Result<Point, CurveError>)
        requires
            self.wf(),
        ensures
            crate::point::spec_on_curve(
                self.prime as int,
                self.a.spec_value(),
                self.b.spec_value(),
                (x as int) % (self.prime as int),
                (y as int) % (self.prime as int),
            ) ==> (r matches Ok(q) && q.wf() && q.a == self.a && q.b == self.b && q.coords()
                == Option::Some(
                ((x as int) % (self.prime as int), (y as int) % (self.prime as int)),
            )),
            !crate::point::spec_on_curve(
                self.prime as int,
                self.a.spec_value(),
                self.b.spec_value(),
                (x as int) % (self.prime as int),
                (y as int) % (self.prime as int),
            ) ==> r == Err::<Point, CurveError>(CurveError::PointGenerationFailed),
    {
        let x = match FieldElement::new(x, self.prime) {
            Ok(f) => f,
            Err(_) => {
                return Err(CurveError::PointGenerationFailed);
            },
        };
        let y = match FieldElement::new(y, self.prime) {
            Ok(f) => f,
            Err(_) => {
                return Err(CurveError::PointGenerationFailed);
            },
        };
        match Point::new(Some(x), Some(y), self.a, self.b) {
            Ok(q) => Ok(q),
            Err(_) => Err(CurveError::PointGenerationFailed),
        }
    }

    /// The point at infinity of this curve, the group identity.
    pub fn infinity_point(&self) -> (r: Point)
        requires
            self.wf(),
        ensures
            r.wf(),
            r.x is None,
            r.y is None,
            r.a == self.a,
            r.b == self.b,
    {
        match Point::new(None, None, self.a, self.b) {
            Ok(q) => q,
            Err(_) => vstd::pervasive::unreached(),
        }
    }

    /// The order of the cyclic subgroup generated by `point`, found by
    /// brute force: the point is repeatedly added to itself until the sum
    /// reaches infinity, for at most `prime` iterations (an instructional
    /// bound, sufficient only for small moduli). Fails when the bound is
    /// exhausted, or when an intermediate addition fails. The order can be
    /// `prime + 1`, so the modulus must leave that representable.
    pub fn point_order(&self, point: &Point) -> (r: Result<i64, CurveError>)
        requires
            self.wf(),
            point.wf(),
            self.prime < i64::MAX,
        ensures
            r matches Ok(m) ==> spec_order_found(
                point.spec_prime(),
                point.a.spec_value(),
                point.b.spec_value(),
                point.coords(),
                self.prime as int,
                m as int,
            ),
            r is Err ==> r == Err::<i64, CurveError>(CurveError::PointGenerationFailed),
            r is Err ==> forall|m: int|
                !spec_order_found(
                    point.spec_prime(),
                    point.a.spec_value(),
                    point.b.spec_value(),
                    point.coords(),
                    self.prime as int,
                    m,
                ),
    {
        let ghost pp = point.spec_prime();
        let ghost av = point.a.spec_value();
        let ghost bv = point.b.spec_value();
        let ghost pc = point.coords();
        let ghost bound = self.prime as int;

        let mut current = *point;
        let mut n: i64 = 1;

        while n <= self.prime
            invariant
                pp == point.spec_prime(),
                av == point.a.spec_value(),
                bv == point.b.spec_value(),
                pc == point.coords(),
                bound == self.prime as int,
                self.prime < i64::MAX,
                point.wf(),
                current.wf(),
                current.a == point.a,
                current.b == point.b,
                1 <= n <= self.prime + 1,
                spec_rep_add(pp, av, bv, pc, n as nat) == Ok::<
                    Option<(int, int)>,
                    PointError,
                >(current.coords()),
                forall|j: int|
                    2 <= j <= n ==> ((#[trigger] spec_rep_add(pp, av, bv, pc, j as nat)) matches Ok(
                        c,
                    ) && c is Some),
            decreases self.prime + 1 - n,
        {
            let next = match current.add(*point) {
                Ok(q) => q,
                Err(e) => {
                    proof {
                        assert(spec_rep_add(pp, av, bv, pc, (n + 1) as nat) == Err::<
                            Option<(int, int)>,
                            PointError,
                        >(e));
                        assert forall|m: int|
                            !spec_order_found(pp, av, bv, pc, bound, m) by {
                            if spec_order_found(pp, av, bv, pc, bound, m) {
                                if m <= n {
                                    assert(spec_rep_add(pp, av, bv, pc, m as nat) matches Ok(c)
                                        && c is Some);
                                } else if m == n + 1 {
                                } else {
                                    assert(2 <= n + 1 < m);
                                    assert(spec_rep_add(pp, av, bv, pc, (n + 1) as nat) matches Ok(
                                        c,
                                    ) && c is Some);
                                }
                            }
                        }
                    }
                    return Err(CurveError::PointGenerationFailed);
                },
            };
            proof {
                assert(spec_rep_add(pp, av, bv, pc, (n + 1) as nat) == spec_point_add(
                    pp,
                    av,
                    bv,
                    current.coords(),
                    pc,
                ));
            }
            if next.is_infinity() {
                proof {
                    assert(spec_rep_add(pp, av, bv, pc, (n + 1) as nat) == Ok::<
                        Option<(int, int)>,
                        PointError,
                    >(Option::None));
                    assert(spec_order_found(pp, av, bv, pc, bound, n + 1));
                }
                return Ok(n + 1);
            }
            proof {
                assert(next.coords() is Some);
            }
            current = next;
            n = n + 1;
        }

        proof {
            assert forall|m: int| !spec_order_found(pp, av, bv, pc, bound, m) by {
                if spec_order_found(pp, av, bv, pc, bound, m) {
                    assert(2 <= m <= n);
                    assert(spec_rep_add(pp, av, bv, pc, m as nat) matches Ok(c) && c is Some);
                }
            }
        }
        Err(CurveError::PointGenerationFailed)
    }
}

/// Law: the curve with both coefficients zero is singular over every
/// modulus - its discriminant vanishes - so `Curve::new(0, 0, p)` is
/// rejected for every positive `p`.
pub proof fn lemma_zero_curve_rejected(p: int)
    requires
        p > 0,
    ensures
        0int % p == 0,
        spec_discriminant(p, 0, 0) == 0,
{
    lemma_small_mod(0nat, p as nat);
}

} // verus!
