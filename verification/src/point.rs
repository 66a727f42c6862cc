//! A point on a short-Weierstrass curve `y^2 = x^3 + a*x + b` over a prime
//! field, including the point at infinity (the group identity), with the
//! group law, negation and double-and-add scalar multiplication.
//!
//! The contracts speak of an abstract model: a point is `None` (infinity) or
//! `Some((x, y))` with the coordinates as integers in `[0, p)`, and each
//! operation is pinned to a spec-level mirror of the group law written in
//! exact modular arithmetic.

use crate::field::{lemma_field_element_eq, FieldElement, FieldError};
use crate::numtheory::{mod_inverse, spec_gcd};
use vstd::arithmetic::div_mod::{
    lemma_add_mod_noop, lemma_fundamental_div_mod_converse_mod, lemma_mod_bound, lemma_mul_mod_noop, lemma_mul_mod_noop_general,
    lemma_mul_mod_noop_left, lemma_mul_mod_noop_right, lemma_small_mod, lemma_sub_mod_noop,
    lemma_sub_mod_noop_right,
};
use vstd::arithmetic::mul::{lemma_mul_cancels_negatives, lemma_mul_is_commutative};
use vstd::prelude::*;

verus! {

/// The failures of point construction and the group operations.
#[derive(Debug, Clone, Copy, PartialEq, Eq, Structural)]
pub enum PointError {
    /// The supplied coordinates do not satisfy the curve equation.
    NotOnCurve,
    /// A group operation was attempted between points of different curves.
    DifferentCurves,
    /// A field operation inside the group law failed (possible only when the
    /// modulus is not prime).
    FieldError(FieldError),
}

/// A point on the curve `y^2 = x^3 + a*x + b`: either an affine pair of
/// coordinates (both present) or the point at infinity (both absent).
#[derive(Debug, Clone, Copy, PartialEq)]
pub struct Point {
    pub x: Option<FieldElement>,
    pub y: Option<FieldElement>,
    pub a: FieldElement,
    pub b: FieldElement,
}

/// Whether `(x, y)` satisfies the curve equation `y^2 = x^3 + a*x + b`
/// modulo `p`.
pub open spec fn spec_on_curve(p: int, a: int, b: int, x: int, y: int) -> bool {
    (y * y) % p == (x * x * x + a * x + b) % p
}

/// The negation of a point in the abstract model: infinity stays itself, an
/// affine point keeps `x` and negates `y` modulo `p`.
pub open spec fn spec_neg_coords(p: int, c: Option<(int, int)>) -> Option<(int, int)> {
    match c {
        Option::None => Option::None,
        Option::Some((x, y)) => Option::Some((x, (-y) % p)),
    }
}

/// The group law on the abstract model, mirroring the executable `add` case
/// by case: identity absorption, inverse pairs, the tangent (doubling) slope
/// and the chord slope, and the final on-curve validation of the computed
/// point. The error cases can arise only over a non-prime modulus.
pub open spec fn spec_point_add(
    p: int,
    a: int,
    b: int,
    p1: Option<(int, int)>,
    p2: Option<(int, int)>,
) -> Result<Option<(int, int)>, PointError> {
    match (p1, p2) {
        (Option::None, _) => Ok(p2),
        (_, Option::None) => Ok(p1),
        (Option::Some((x1, y1)), Option::Some((x2, y2))) => {
            if x1 == x2 && y1 == (-y2) % p {
                Ok(Option::None)
            } else {
                let num = if x1 == x2 && y1 == y2 {
                    (3 * (x1 * x1) + a) % p
                } else {
                    (y2 - y1) % p
                };
                let den = if x1 == x2 && y1 == y2 {
                    (y1 + y1) % p
                } else {
                    (x2 - x1) % p
                };
                if den == 0 {
                    Err(PointError::FieldError(FieldError::DivisionByZero))
                } else if spec_gcd(p as nat, den as nat) != 1 {
                    Err(PointError::FieldError(FieldError::InvalidElement))
                } else {
                    let s = (num * mod_inverse(p, den)) % p;
                    let x3 = (s * s - x1 - x2) % p;
                    let y3 = (s * (x1 - x3) - y1) % p;
                    if spec_on_curve(p, a, b, x3, y3) {
                        Ok(Option::Some((x3, y3)))
                    } else {
                        Err(PointError::NotOnCurve)
                    }
                }
            }
        },
    }
}

impl Point {
    /// The modulus of the field the point's coordinates live in.
    pub open spec fn spec_prime(self) -> int {
        self.a.spec_prime()
    }

    /// The point as the abstract model: `None` for infinity, `Some((x, y))`
    /// for an affine point.
    pub open spec fn coords(self) -> Option<(int, int)> {
        match (self.x, self.y) {
            (Option::Some(fx), Option::Some(fy)) => Option::Some(
                (fx.spec_value(), fy.spec_value()),
            ),
            _ => Option::None,
        }
    }

    /// Well-formedness: the coefficients share one field, the coordinates
    /// are both present or both absent, and an affine point satisfies the
    /// curve equation.
    pub open spec fn wf(self) -> bool {
        &&& self.a.wf()
        &&& self.b.wf()
        &&& self.b.spec_prime() == self.spec_prime()
        &&& match (self.x, self.y) {
            (Option::Some(fx), Option::Some(fy)) => fx.wf() && fy.wf() && fx.spec_prime()
                == self.spec_prime() && fy.spec_prime() == self.spec_prime() && spec_on_curve(
                self.spec_prime(),
                self.a.spec_value(),
                self.b.spec_value(),
                fx.spec_value(),
                fy.spec_value(),
            ),
            (Option::None, Option::None) => true,
            _ => false,
        }
    }

    /// Two points can take part in the group law only when they carry the
    /// same curve coefficients.
    pub open spec fn same_curve(self, other: Point) -> bool {
        self.a == other.a && self.b == other.b
    }
}

/// Field addition between elements known to share a field.
pub(crate) fn f_add(a: FieldElement, b: FieldElement) -> (r: FieldElement)
    requires
        a.wf(),
        b.wf(),
        a.compatible(b),
    ensures
        r.wf(),
        r.spec_prime() == a.spec_prime(),
        r.spec_value() == (a.spec_value() + b.spec_value()) % a.spec_prime(),
{
    match a.add(b) {
        Ok(f) => f,
        Err(_) => vstd::pervasive::unreached(),
    }
}

/// Field subtraction between elements known to share a field.
pub(crate) fn f_sub(a: FieldElement, b: FieldElement) -> (r: FieldElement)
    requires
        a.wf(),
        b.wf(),
        a.compatible(b),
    ensures
        r.wf(),
        r.spec_prime() == a.spec_prime(),
        r.spec_value() == (a.spec_value() - b.spec_value()) % a.spec_prime(),
{
    match a.sub(b) {
        Ok(f) => f,
        Err(_) => vstd::pervasive::unreached(),
    }
}

/// Field multiplication between elements known to share a field.
pub(crate) fn f_mul(a: FieldElement, b: FieldElement) -> (r: FieldElement)
    requires
        a.wf(),
        b.wf(),
        a.compatible(b),
    ensures
        r.wf(),
        r.spec_prime() == a.spec_prime(),
        r.spec_value() == (a.spec_value() * b.spec_value()) % a.spec_prime(),
{
    match a.mul(b) {
        Ok(f) => f,
        Err(_) => vstd::pervasive::unreached(),
    }
}

impl Point {
    /// Builds a point after validating it: both coordinates absent is the
    /// point at infinity and always succeeds; exactly one absent fails; both
    /// present are checked against the curve equation.
    pub fn new(
        x: Option<FieldElement>,
        y: Option<FieldElement>,
        a: FieldElement,
        b: FieldElement,
    ) -> (r: Result<Self, PointError>)
        requires
            a.wf(),
            b.wf(),
            a.compatible(b),
            x matches Some(fx) ==> fx.wf() && fx.spec_prime() == a.spec_prime(),
            y matches Some(fy) ==> fy.wf() && fy.spec_prime() == a.spec_prime(),
        ensures
            x is None && y is None ==> (r matches Ok(q) && q.wf() && q.x is None && q.y is None
                && q.a == a && q.b == b),
            (x is Some) != (y is Some) ==> r == Err::<Point, PointError>(PointError::NotOnCurve),
            x matches Some(fx) && y matches Some(fy) && spec_on_curve(
                a.spec_prime(),
                a.spec_value(),
                b.spec_value(),
                fx.spec_value(),
                fy.spec_value(),
            ) ==> (r matches Ok(q) && q.wf() && q.x == x && q.y == y && q.a == a && q.b == b),
            x matches Some(fx) && y matches Some(fy) && !spec_on_curve(
                a.spec_prime(),
                a.spec_value(),
                b.spec_value(),
                fx.spec_value(),
                fy.spec_value(),
            ) ==> r == Err::<Point, PointError>(PointError::NotOnCurve),
    {
        if x.is_none() && y.is_none() {
            return Ok(Self { x, y, a, b });
        }

        match (x, y) {
            (Some(fx), Some(fy)) => {
                let y_squared = f_mul(fy, fy);
                let x_cubed = f_mul(f_mul(fx, fx), fx);
                let ax = f_mul(a, fx);
                let rhs = f_add(f_add(x_cubed, ax), b);
                proof {
                    let p = a.spec_prime();
                    let xv = fx.spec_value();
                    let yv = fy.spec_value();
                    let av = a.spec_value();
                    let bv = b.spec_value();
                    lemma_mul_mod_noop_left(xv * xv, xv, p);
                    assert(x_cubed.spec_value() == (xv * xv * xv) % p);
                    lemma_add_mod_noop(xv * xv * xv, av * xv, p);
                    assert((x_cubed.spec_value() + ax.spec_value()) % p == (xv * xv * xv + av * xv)
                        % p);
                    lemma_add_mod_noop(xv * xv * xv + av * xv, bv, p);
                    lemma_small_mod(bv as nat, p as nat);
                    assert(rhs.spec_value() == (xv * xv * xv + av * xv + bv) % p);
                    lemma_field_element_eq(y_squared, rhs);
                }
                if y_squared == rhs {
                    Ok(Self { x, y, a, b })
                } else {
                    Err(PointError::NotOnCurve)
                }
            },
            _ => Err(PointError::NotOnCurve),
        }
    }

    /// Whether this is the point at infinity, the group identity.
    pub fn is_infinity(&self) -> (r: bool)
        ensures
            r == (self.x is None && self.y is None),
    {
        self.x.is_none() && self.y.is_none()
    }

    /// Group negation: infinity maps to itself; an affine point keeps its
    /// `x` and negates its `y`.
    pub fn neg(self) -> (r: Self)
        requires
            self.wf(),
        ensures
            r.wf(),
            r.a == self.a,
            r.b == self.b,
            r.coords() == spec_neg_coords(self.spec_prime(), self.coords()),
    {
        if self.is_infinity() {
            return self;
        }
        let y = match self.y {
            Some(v) => v,
            None => vstd::pervasive::unreached(),
        };
        let ny = y.neg();
        proof {
            let p = self.spec_prime();
            let yv = y.spec_value();
            lemma_mod_bound(-yv, p);
            assert((ny.spec_value() * ny.spec_value()) % p == (yv * yv) % p) by {
                lemma_mul_mod_noop(-yv, -yv, p);
                lemma_mul_cancels_negatives(yv, yv);
            }
        }
        Self { x: self.x, y: Some(ny), a: self.a, b: self.b }
    }

    /// The elliptic-curve group law: identity absorption, inverse pairs
    /// collapsing to infinity, tangent or chord slope, and the new point
    /// computed from the slope and validated against the curve.
    pub fn add(self, other: Self) -> (r: Result<Self, PointError>)
        requires
            self.wf(),
            other.wf(),
        ensures
            !self.same_curve(other) ==> r == Err::<Point, PointError>(PointError::DifferentCurves),
            self.same_curve(other) ==> (match spec_point_add(
                self.spec_prime(),
                self.a.spec_value(),
                self.b.spec_value(),
                self.coords(),
                other.coords(),
            ) {
                Ok(c) => r matches Ok(q) && q.wf() && q.a == self.a && q.b == self.b && q.coords()
                    == c,
                Err(e) => r == Err::<Point, PointError>(e),
            }),
    {
        proof {
            lemma_field_element_eq(self.a, other.a);
            lemma_field_element_eq(self.b, other.b);
        }
        if self.a != other.a || self.b != other.b {
            return Err(PointError::DifferentCurves);
        }

        if self.is_infinity() {
            return Ok(other);
        }
        if other.is_infinity() {
            return Ok(self);
        }

        let x1 = match self.x {
            Some(v) => v,
            None => vstd::pervasive::unreached(),
        };
        let y1 = match self.y {
            Some(v) => v,
            None => vstd::pervasive::unreached(),
        };
        let x2 = match other.x {
            Some(v) => v,
            None => vstd::pervasive::unreached(),
        };
        let y2 = match other.y {
            Some(v) => v,
            None => vstd::pervasive::unreached(),
        };

        let ghost p = self.spec_prime();
        let ghost av = self.a.spec_value();
        let ghost bv = self.b.spec_value();
        let ghost x1v = x1.spec_value();
        let ghost y1v = y1.spec_value();
        let ghost x2v = x2.spec_value();
        let ghost y2v = y2.spec_value();

        // an inverse pair collapses to the identity
        let neg_y2 = y2.neg();
        proof {
            lemma_field_element_eq(x1, x2);
            lemma_field_element_eq(y1, y2);
            lemma_field_element_eq(y1, neg_y2);
        }
        if x1 == x2 && y1 == neg_y2 {
            return Point::new(None, None, self.a, self.b);
        }

        let slope = if x1 == x2 && y1 == y2 {
            // tangent slope: (3*x1^2 + a) / (2*y1)
            let three = match FieldElement::new(3, x1.prime()) {
                Ok(f) => f,
                Err(_) => vstd::pervasive::unreached(),
            };
            let num = f_add(f_mul(f_mul(x1, x1), three), self.a);
            let den = f_add(y1, y1);
            proof {
                lemma_mul_mod_noop_general(x1v * x1v, 3, p);
                lemma_mul_is_commutative(x1v * x1v, 3);
                lemma_add_mod_noop(3 * (x1v * x1v), av, p);
                lemma_small_mod(av as nat, p as nat);
                assert(num.spec_value() == (3 * (x1v * x1v) + av) % p);
            }
            match num.div(den) {
                Ok(s) => s,
                Err(e) => {
                    return Err(PointError::FieldError(e));
                },
            }
        } else {
            // chord slope: (y2 - y1) / (x2 - x1)
            let num = f_sub(y2, y1);
            let den = f_sub(x2, x1);
            match num.div(den) {
                Ok(s) => s,
                Err(e) => {
                    return Err(PointError::FieldError(e));
                },
            }
        };

        let x3 = f_sub(f_sub(f_mul(slope, slope), x1), x2);
        let y3 = f_sub(f_mul(slope, f_sub(x1, x3)), y1);
        proof {
            let sv = slope.spec_value();
            lemma_sub_mod_noop(sv * sv, x1v, p);
            lemma_small_mod(x1v as nat, p as nat);
            assert(((sv * sv) % p - x1v) % p == (sv * sv - x1v) % p);
            lemma_sub_mod_noop(sv * sv - x1v, x2v, p);
            lemma_small_mod(x2v as nat, p as nat);
            assert(x3.spec_value() == (sv * sv - x1v - x2v) % p);
            let x3v = x3.spec_value();
            lemma_mul_mod_noop_right(sv, x1v - x3v, p);
            assert((sv * ((x1v - x3v) % p)) % p == (sv * (x1v - x3v)) % p);
            lemma_sub_mod_noop(sv * (x1v - x3v), y1v, p);
            lemma_small_mod(y1v as nat, p as nat);
            assert(y3.spec_value() == (sv * (x1v - x3v) - y1v) % p);
        }
        Point::new(Some(x3), Some(y3), self.a, self.b)
    }
}

/// The double-and-add loop on the abstract model, mirroring the executable
/// accumulator loop step by step: on an odd coefficient the accumulator
/// absorbs the current point, the current point is then always doubled, and
/// the coefficient is halved; a non-positive coefficient yields the
/// accumulator.
pub open spec fn spec_mul_loop(
    p: int,
    a: int,
    b: int,
    acc: Option<(int, int)>,
    cur: Option<(int, int)>,
    coef: int,
) -> Result<Option<(int, int)>, PointError>
    decreases coef,
{
    if coef <= 0 {
        Ok(acc)
    } else {
        let step = if coef % 2 == 1 {
            spec_point_add(p, a, b, acc, cur)
        } else {
            Ok(acc)
        };
        match step {
            Err(e) => Err(e),
            Ok(acc2) => match spec_point_add(p, a, b, cur, cur) {
                Err(e) => Err(e),
                Ok(cur2) => spec_mul_loop(p, a, b, acc2, cur2, coef / 2),
            },
        }
    }
}

/// Scalar multiplication on the abstract model: double-and-add starting
/// from the identity. A non-positive scalar runs zero iterations and yields
/// the identity.
pub open spec fn spec_scalar_mul(
    p: int,
    a: int,
    b: int,
    pt: Option<(int, int)>,
    k: int,
) -> Result<Option<(int, int)>, PointError> {
    spec_mul_loop(p, a, b, Option::None, pt, k)
}

impl Point {
    /// Scalar multiplication by double-and-add over the binary
    /// representation of `scalar`. A scalar of zero yields the point at
    /// infinity; a negative scalar runs zero loop iterations and so yields
    /// the identity as well, rather than a negated multiple.
    pub fn mul(self, scalar: i64) -> (r: Result<Self, PointError>)
        requires
            self.wf(),
        ensures
            (match spec_scalar_mul(
                self.spec_prime(),
                self.a.spec_value(),
                self.b.spec_value(),
                self.coords(),
                scalar as int,
            ) {
                Ok(c) => r matches Ok(q) && q.wf() && q.a == self.a && q.b == self.b && q.coords()
                    == c,
                Err(e) => r == Err::<Point, PointError>(e),
            }),
    {
        let mut coef = scalar;
        let mut current = self;
        let mut result = match Point::new(None, None, self.a, self.b) {
            Ok(q) => q,
            Err(_) => vstd::pervasive::unreached(),
        };

        while coef > 0
            invariant
                self.wf(),
                current.wf(),
                result.wf(),
                current.a == self.a,
                current.b == self.b,
                result.a == self.a,
                result.b == self.b,
                spec_mul_loop(
                    self.spec_prime(),
                    self.a.spec_value(),
                    self.b.spec_value(),
                    result.coords(),
                    current.coords(),
                    coef as int,
                ) == spec_scalar_mul(
                    self.spec_prime(),
                    self.a.spec_value(),
                    self.b.spec_value(),
                    self.coords(),
                    scalar as int,
                ),
            decreases coef,
        {
            let ghost accc = result.coords();
            let ghost curc = current.coords();
            let ghost c0 = coef as int;
            if coef % 2 == 1 {
                result = match result.add(current) {
                    Ok(q) => q,
                    Err(e) => {
                        return Err(e);
                    },
                };
            }
            current = match current.add(current) {
                Ok(q) => q,
                Err(e) => {
                    return Err(e);
                },
            };
            coef = coef / 2;
            proof {
                assert(spec_mul_loop(
                    self.spec_prime(),
                    self.a.spec_value(),
                    self.b.spec_value(),
                    accc,
                    curc,
                    c0,
                ) == spec_mul_loop(
                    self.spec_prime(),
                    self.a.spec_value(),
                    self.b.spec_value(),
                    result.coords(),
                    current.coords(),
                    coef as int,
                ));
            }
        }
        Ok(result)
    }
}

/// Whether an abstract point is valid over `(p, a, b)`: infinity, or
/// normalized coordinates that satisfy the curve equation.
pub open spec fn spec_coords_wf(p: int, a: int, b: int, c: Option<(int, int)>) -> bool {
    match c {
        Option::None => true,
        Option::Some((x, y)) => 0 <= x < p && 0 <= y < p && spec_on_curve(p, a, b, x, y),
    }
}

/// A well-formed point's model coordinates are valid over its own curve.
pub proof fn lemma_wf_coords(q: Point)
    requires
        q.wf(),
    ensures
        spec_coords_wf(q.spec_prime(), q.a.spec_value(), q.b.spec_value(), q.coords()),
{
}

/// Law: over a prime modulus the group law never fails on a field
/// operation. The vertical cases are caught by the inverse-pair check
/// before any slope is computed - in particular a doubling with `y = 0`
/// never divides by zero - and every slope denominator is invertible. The
/// only failure the law can then report is the final on-curve validation.
pub proof fn lemma_prime_add_total(
    p: int,
    a: int,
    b: int,
    p1: Option<(int, int)>,
    p2: Option<(int, int)>,
)
    requires
        crate::numtheory::spec_is_prime(p),
        spec_coords_wf(p, a, b, p1),
        spec_coords_wf(p, a, b, p2),
    ensures
        spec_point_add(p, a, b, p1, p2) matches Ok(_) || spec_point_add(p, a, b, p1, p2) == Err::<
            Option<(int, int)>,
            PointError,
        >(PointError::NotOnCurve),
{
    match (p1, p2) {
        (Option::None, _) => {},
        (_, Option::None) => {},
        (Option::Some((x1, y1)), Option::Some((x2, y2))) => {
            if x1 == x2 && y1 == (-y2) % p {
                // the inverse pair collapses to the identity
            } else if x1 == x2 && y1 == y2 {
                // tangent slope; its denominator 2*y1 cannot vanish here
                let den = (y1 + y1) % p;
                lemma_mod_bound(y1 + y1, p);
                if den == 0 {
                    if p == 2 {
                        // modulo two every value is its own negation
                        if y1 == 0 {
                            lemma_small_mod(0nat, 2nat);
                        } else {
                            lemma_fundamental_div_mod_converse_mod(-1, 2, -1, 1);
                        }
                        assert(y1 == (-y2) % p);
                        assert(false);
                    } else {
                        assert(y1 + y1 == 2 * y1);
                        crate::numtheory::lemma_euclid_prime(p, 2, y1);
                        assert(y1 == 0);
                        lemma_small_mod(0nat, p as nat);
                        assert(y1 == (-y2) % p);
                        assert(false);
                    }
                } else {
                    crate::numtheory::lemma_prime_coprime(p, den);
                }
            } else {
                // chord slope; on the curve a shared x forces an inverse
                // pair, so the denominator x2 - x1 cannot vanish
                let den = (x2 - x1) % p;
                lemma_mod_bound(x2 - x1, p);
                if x1 == x2 {
                    assert((y1 * y1) % p == (y2 * y2) % p);
                    crate::numtheory::lemma_same_square(p, y1, y2);
                    assert(y2 == (-y1) % p);
                    assert(y1 == (-y2) % p) by {
                        lemma_mod_bound(-y1, p);
                        lemma_sub_mod_noop_right(0, -y1, p);
                        lemma_small_mod(y1 as nat, p as nat);
                        assert((0 - ((-y1) % p)) % p == (0 - (-y1)) % p);
                    }
                    assert(false);
                } else if den == 0 {
                    if x2 > x1 {
                        lemma_small_mod((x2 - x1) as nat, p as nat);
                        assert(false);
                    } else {
                        vstd::arithmetic::div_mod::lemma_mod_multiples_vanish(1, x2 - x1, p);
                        assert((p * 1 + (x2 - x1)) % p == (x2 - x1) % p);
                        lemma_small_mod((p + x2 - x1) as nat, p as nat);
                        assert(false);
                    }
                } else {
                    crate::numtheory::lemma_prime_coprime(p, den);
                }
            }
        },
    }
}

/// Law: the point at infinity is the group identity. Adding it on either
/// side of any point returns that point unchanged.
pub proof fn lemma_add_infinity_identity(p: int, a: int, b: int, c: Option<(int, int)>)
    ensures
        spec_point_add(p, a, b, c, Option::None) == Ok::<Option<(int, int)>, PointError>(c),
        spec_point_add(p, a, b, Option::None, c) == Ok::<Option<(int, int)>, PointError>(c),
{
}

/// Law: multiplying a point by two performs exactly one doubling: whenever
/// the doublings along the way succeed, scalar multiplication by two
/// returns `P + P`.
pub proof fn lemma_scalar_mul_two_is_doubling(
    p: int,
    a: int,
    b: int,
    pt: Option<(int, int)>,
    d: Option<(int, int)>,
    e: Option<(int, int)>,
)
    requires
        spec_point_add(p, a, b, pt, pt) == Ok::<Option<(int, int)>, PointError>(d),
        spec_point_add(p, a, b, d, d) == Ok::<Option<(int, int)>, PointError>(e),
    ensures
        spec_scalar_mul(p, a, b, pt, 2) == Ok::<Option<(int, int)>, PointError>(d),
{
    assert(spec_mul_loop(p, a, b, Option::None, pt, 2) == spec_mul_loop(p, a, b, Option::None, d, 1));
    assert(spec_point_add(p, a, b, Option::None, d) == Ok::<Option<(int, int)>, PointError>(d));
    assert(spec_mul_loop(p, a, b, Option::None, d, 1) == spec_mul_loop(p, a, b, d, e, 0));
    assert(spec_mul_loop(p, a, b, d, e, 0) == Ok::<Option<(int, int)>, PointError>(d));
}

/// Law: adding an affine point to its negation yields the point at
/// infinity.
pub proof fn lemma_add_negate_infinity(p: int, a: int, b: int, x: int, y: int)
    requires
        0 < p,
        0 <= y < p,
    ensures
        spec_point_add(p, a, b, Option::Some((x, y)), spec_neg_coords(p, Option::Some((x, y))))
            == Ok::<Option<(int, int)>, PointError>(Option::None),
{
    let ny = (-y) % p;
    lemma_mod_bound(-y, p);
    lemma_sub_mod_noop_right(0, -y, p);
    assert((0 - ((-y) % p)) % p == (0 - (-y)) % p);
    lemma_small_mod(y as nat, p as nat);
    assert((-ny) % p == y);
}

} // verus!
