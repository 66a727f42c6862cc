//! An element of a prime field: an integer normalized into `[0, prime)`,
//! with the four field operations, negation, inversion and exponentiation.

use crate::numtheory::{has_mod_inverse, lemma_mod_inverse_is, mod_inverse, spec_gcd};
use vstd::arithmetic::div_mod::{
    lemma_add_mod_noop_right, lemma_fundamental_div_mod, lemma_fundamental_div_mod_converse_mod,
    lemma_mod_add_multiples_vanish, lemma_mod_bound, lemma_mod_multiples_basic,
    lemma_mul_mod_noop_left, lemma_mul_mod_noop_right, lemma_small_mod, lemma_sub_mod_noop,
};
use vstd::arithmetic::mul::{
    lemma_mul_basics, lemma_mul_inequality, lemma_mul_is_associative, lemma_mul_is_commutative,
    lemma_mul_is_distributive_sub_other_way, lemma_mul_unary_negation, lemma_mul_upper_bound,
};
use vstd::arithmetic::power::pow;
use vstd::prelude::*;

verus! {

/// The failures of field arithmetic.
#[derive(Debug, Clone, Copy, PartialEq, Eq, Structural)]
pub enum FieldError {
    /// The modulus is not positive, or an inverse does not exist because the
    /// modulus is not coprime with the value.
    InvalidElement,
    /// A binary operation was attempted on elements of different fields.
    MismatchedFields,
    /// Division by (or inversion of) the zero element.
    DivisionByZero,
}

/// An integer modulo a fixed prime, kept normalized into `[0, prime)`.
#[derive(Debug, Clone, Copy, PartialEq, Eq, Structural)]
pub struct FieldElement {
    value: i64,
    prime: i64,
}

impl FieldElement {
    /// The residue this element holds, as a mathematical integer.
    pub closed spec fn spec_value(self) -> int {
        self.value as int
    }

    /// The modulus of the field this element belongs to.
    pub closed spec fn spec_prime(self) -> int {
        self.prime as int
    }

    /// Well-formedness: the modulus is positive and the value is normalized.
    pub open spec fn wf(self) -> bool {
        0 < self.spec_prime() && 0 <= self.spec_value() < self.spec_prime()
    }

    /// Two elements can take part in a binary operation only when they
    /// belong to the same field.
    pub open spec fn compatible(self, other: FieldElement) -> bool {
        self.spec_prime() == other.spec_prime()
    }
}

/// Two field elements are equal exactly when both their values and their
/// moduli agree.
pub proof fn lemma_field_element_eq(a: FieldElement, b: FieldElement)
    ensures
        (a == b) <==> (a.spec_value() == b.spec_value() && a.spec_prime() == b.spec_prime()),
{
}

/// Reduces `x` modulo `m` into `[0, m)`, the mathematical (never negative)
/// remainder.
fn normalize_mod(x: i64, m: i64) -> (r: i64)
    requires
        m > 0,
    ensures
        r as int == (x as int) % (m as int),
        0 <= r < m,
{
    let rem = x % m;
    let r = if rem < 0 {
        rem + m
    } else {
        rem
    };
    proof {
        let xi = x as int;
        let mi = m as int;
        lemma_mod_bound(xi, mi);
        if x >= 0 {
            assert(rem as int == xi % mi);
        } else {
            let t = (-xi) % mi;
            lemma_mod_bound(-xi, mi);
            assert(rem as int == -t);
            let q0 = (-xi) / mi;
            lemma_fundamental_div_mod(-xi, mi);
            assert(-xi == mi * q0 + t);
            if t == 0 {
                assert(xi == (-q0) * mi) by {
                    lemma_mul_unary_negation(q0, mi);
                    lemma_mul_is_commutative(q0, mi);
                }
                lemma_mod_multiples_basic(-q0, mi);
                assert(xi % mi == 0);
            } else {
                assert(xi == (-q0 - 1) * mi + (mi - t)) by {
                    lemma_mul_is_distributive_sub_other_way(mi, -q0, 1);
                    lemma_mul_unary_negation(q0, mi);
                    lemma_mul_is_commutative(q0, mi);
                    lemma_mul_basics(mi);
                }
                lemma_fundamental_div_mod_converse_mod(xi, mi, -q0 - 1, mi - t);
                assert(xi % mi == mi - t);
            }
        }
    }
    r
}

impl FieldElement {
    /// Builds the field element congruent to `value` modulo `prime`,
    /// normalized into `[0, prime)`; rejects a non-positive modulus.
    pub fn new(value: i64, prime: i64) -> (r: Result<Self, FieldError>)
        ensures
            prime <= 0 ==> r == Err::<FieldElement, FieldError>(FieldError::InvalidElement),
            prime > 0 ==> (r matches Ok(f) && f.wf() && f.spec_prime() == prime
                && f.spec_value() == (value as int) % (prime as int)),
    {
        if prime <= 0 {
            return Err(FieldError::InvalidElement);
        }
        let normalized_value = normalize_mod(value, prime);
        Ok(Self { value: normalized_value, prime })
    }

    /// The normalized value of the element.
    pub fn value(&self) -> (v: i64)
        ensures
            v as int == self.spec_value(),
    {
        self.value
    }

    /// The modulus of the element's field.
    pub fn prime(&self) -> (p: i64)
        ensures
            p as int == self.spec_prime(),
    {
        self.prime
    }

    /// Field addition: `(self + other) mod prime`.
    pub fn add(self, other: Self) -> (r: Result<Self, FieldError>)
        requires
            self.wf(),
            other.wf(),
        ensures
            !self.compatible(other) ==> r == Err::<FieldElement, FieldError>(
                FieldError::MismatchedFields,
            ),
            self.compatible(other) ==> (r matches Ok(f) && f.wf()
                && f.spec_prime() == self.spec_prime()
                && f.spec_value() == (self.spec_value() + other.spec_value())
                % self.spec_prime()),
    {
        if self.prime != other.prime {
            return Err(FieldError::MismatchedFields);
        }
        let p = self.prime as i128;
        let s = (self.value as i128 + other.value as i128) % p;
        proof {
            lemma_mod_bound(self.value + other.value, p as int);
        }
        Ok(Self { value: s as i64, prime: self.prime })
    }

    /// Field subtraction: `(self - other) mod prime`.
    pub fn sub(self, other: Self) -> (r: Result<Self, FieldError>)
        requires
            self.wf(),
            other.wf(),
        ensures
            !self.compatible(other) ==> r == Err::<FieldElement, FieldError>(
                FieldError::MismatchedFields,
            ),
            self.compatible(other) ==> (r matches Ok(f) && f.wf()
                && f.spec_prime() == self.spec_prime()
                && f.spec_value() == (self.spec_value() - other.spec_value())
                % self.spec_prime()),
    {
        if self.prime != other.prime {
            return Err(FieldError::MismatchedFields);
        }
        let p = self.prime as i128;
        let s = (self.value as i128 - other.value as i128 + p) % p;
        proof {
            let d = self.value - other.value;
            lemma_mod_bound(d + p, p as int);
            lemma_mod_add_multiples_vanish(d, p as int);
        }
        Ok(Self { value: s as i64, prime: self.prime })
    }

    /// Field multiplication: `(self * other) mod prime`.
    pub fn mul(self, other: Self) -> (r: Result<Self, FieldError>)
        requires
            self.wf(),
            other.wf(),
        ensures
            !self.compatible(other) ==> r == Err::<FieldElement, FieldError>(
                FieldError::MismatchedFields,
            ),
            self.compatible(other) ==> (r matches Ok(f) && f.wf()
                && f.spec_prime() == self.spec_prime()
                && f.spec_value() == (self.spec_value() * other.spec_value())
                % self.spec_prime()),
    {
        if self.prime != other.prime {
            return Err(FieldError::MismatchedFields);
        }
        proof {
            lemma_mul_upper_bound(self.value as int, i64::MAX as int, other.value as int, i64::MAX as int);
            vstd::arithmetic::mul::lemma_mul_nonnegative(self.value as int, other.value as int);
            lemma_mod_bound(self.value * other.value, self.prime as int);
        }
        let p = self.prime as i128;
        let s = (self.value as i128 * other.value as i128) % p;
        Ok(Self { value: s as i64, prime: self.prime })
    }

    /// Field negation: `(-self) mod prime`; negating zero yields zero.
    pub fn neg(self) -> (r: Self)
        requires
            self.wf(),
        ensures
            r.wf(),
            r.spec_prime() == self.spec_prime(),
            r.spec_value() == (-self.spec_value()) % self.spec_prime(),
    {
        let v = if self.value == 0 {
            0
        } else {
            self.prime - self.value
        };
        proof {
            let p = self.spec_prime();
            if self.spec_value() == 0 {
                lemma_small_mod(0nat, p as nat);
            } else {
                lemma_fundamental_div_mod_converse_mod(
                    -self.spec_value(),
                    p,
                    -1,
                    p - self.spec_value(),
                );
                lemma_mul_basics(p);
                lemma_mul_unary_negation(1, p);
            }
        }
        Self { value: v, prime: self.prime }
    }

    /// The multiplicative inverse, found by the extended Euclidean algorithm
    /// over `(prime, value)`; fails on the zero element, and fails with
    /// `InvalidElement` when the value is not coprime with the modulus (a
    /// non-prime modulus misused).
    pub fn inv(&self) -> (r: Result<Self, FieldError>)
        requires
            self.wf(),
        ensures
            self.spec_value() == 0 ==> r == Err::<FieldElement, FieldError>(
                FieldError::DivisionByZero,
            ),
            self.spec_value() != 0 && spec_gcd(self.spec_prime() as nat, self.spec_value() as nat)
                != 1 ==> r == Err::<FieldElement, FieldError>(FieldError::InvalidElement),
            self.spec_value() != 0 && spec_gcd(self.spec_prime() as nat, self.spec_value() as nat)
                == 1 ==> (r matches Ok(f) && f.wf() && f.spec_prime() == self.spec_prime()
                && has_mod_inverse(self.spec_prime(), self.spec_value())
                && f.spec_value() == mod_inverse(self.spec_prime(), self.spec_value())
                && (f.spec_value() * self.spec_value()) % self.spec_prime() == 1),
    {
        if self.value == 0 {
            return Err(FieldError::DivisionByZero);
        }

        let p = self.prime;
        let v = self.value;
        let ghost pi = p as int;
        let ghost vi = v as int;

        let mut old_r: i64 = p;
        let mut r: i64 = v;
        let mut old_t: i64 = 0;
        let mut t: i64 = 1;

        proof {
            assert(spec_gcd(old_r as nat, r as nat) == spec_gcd(pi as nat, vi as nat));
            assert((old_t * vi) % pi == (old_r as int) % pi) by {
                lemma_mul_basics(vi);
                assert(0int * vi == 0int);
                vstd::arithmetic::div_mod::lemma_mod_self_0(pi);
                lemma_small_mod(0nat, pi as nat);
            }
            assert((t * vi) % pi == (r as int) % pi) by {
                lemma_mul_basics(vi);
                lemma_small_mod(vi as nat, pi as nat);
            }
        }

        while r != 0
            invariant
                pi == p as int,
                vi == v as int,
                2 <= pi,
                0 < old_r <= pi,
                0 <= r < old_r,
                0 <= old_t < pi,
                0 <= t < pi,
                0 < vi < pi,
                spec_gcd(old_r as nat, r as nat) == spec_gcd(pi as nat, vi as nat),
                (old_t * vi) % pi == (old_r as int) % pi,
                (t * vi) % pi == (r as int) % pi,
            decreases r,
        {
            let quotient = old_r / r;
            let new_r = old_r % r;
            proof {
                lemma_mod_bound(old_r as int, r as int);
                lemma_fundamental_div_mod(old_r as int, r as int);
                // one unfolding of the gcd recursion keeps the invariant
                assert(spec_gcd(old_r as nat, r as nat) == spec_gcd(
                    r as nat,
                    (old_r as nat) % (r as nat),
                ));
                assert((old_r as nat) % (r as nat) == new_r as nat);
                let q = (old_r as int) / (r as int);
                vstd::arithmetic::div_mod::lemma_div_pos_is_pos(old_r as int, r as int);
                assert(q <= (r as int) * q) by {
                    lemma_mul_inequality(1, r as int, q);
                    lemma_mul_basics(q);
                    lemma_mul_is_commutative(r as int, q);
                }
                assert(q <= old_r);
            }
            proof {
                lemma_mul_upper_bound(quotient as int, i64::MAX as int, t as int, i64::MAX as int);
                vstd::arithmetic::mul::lemma_mul_nonnegative(quotient as int, t as int);
            }
            let qt = (quotient as i128) * (t as i128);
            let diff = (old_t as i128) - qt;
            let mut new_t_i = diff % (p as i128);
            if new_t_i < 0 {
                new_t_i = new_t_i + (p as i128);
            }
            let new_t = new_t_i as i64;
            proof {
                let q = quotient as int;
                let ot = old_t as int;
                let ti = t as int;
                let di = ot - q * ti;
                // the exec remainder of `diff` is brought into [0, p) and
                // equals the mathematical `di % pi`
                lemma_mod_bound(di, pi);
                if diff >= 0 {
                    assert(new_t_i as int == di % pi);
                } else {
                    let tt = (-di) % pi;
                    lemma_mod_bound(-di, pi);
                    let q0 = (-di) / pi;
                    lemma_fundamental_div_mod(-di, pi);
                    if tt == 0 {
                        assert(di == (-q0) * pi) by {
                            lemma_mul_unary_negation(q0, pi);
                            lemma_mul_is_commutative(q0, pi);
                        }
                        lemma_mod_multiples_basic(-q0, pi);
                    } else {
                        assert(di == (-q0 - 1) * pi + (pi - tt)) by {
                            lemma_mul_is_distributive_sub_other_way(pi, -q0, 1);
                            lemma_mul_unary_negation(q0, pi);
                            lemma_mul_is_commutative(q0, pi);
                            lemma_mul_basics(pi);
                        }
                        lemma_fundamental_div_mod_converse_mod(di, pi, -q0 - 1, pi - tt);
                    }
                    assert(new_t_i as int == di % pi);
                }
                // congruence: new_t * v == new_r  (mod p)
                assert((new_t as int * vi) % pi == (new_r as int) % pi) by {
                    lemma_mul_mod_noop_left(di, vi, pi);
                    assert((di % pi * vi) % pi == (di * vi) % pi);
                    lemma_mul_is_distributive_sub_other_way(vi, ot, q * ti);
                    assert(di * vi == ot * vi - (q * ti) * vi);
                    lemma_mul_is_associative(q, ti, vi);
                    assert((q * ti) * vi == q * (ti * vi));
                    lemma_sub_mod_noop(ot * vi, q * (ti * vi), pi);
                    lemma_mul_mod_noop_right(q, ti * vi, pi);
                    assert((q * (ti * vi)) % pi == (q * ((ti * vi) % pi)) % pi);
                    assert((ti * vi) % pi == (r as int) % pi);
                    lemma_small_mod(r as nat, pi as nat);
                    assert((q * (ti * vi)) % pi == (q * (r as int)) % pi) by {
                        lemma_mul_mod_noop_right(q, r as int, pi);
                    }
                    lemma_sub_mod_noop(ot * vi, q * (r as int), pi);
                    assert((ot * vi - q * (r as int)) % pi == ((ot * vi) % pi - (q * (r as int))
                        % pi) % pi);
                    assert((ot * vi) % pi == (old_r as int) % pi);
                    lemma_sub_mod_noop(old_r as int, q * (r as int), pi);
                    assert((old_r - q * (r as int)) % pi == ((old_r as int) % pi - (q * (
                    r as int)) % pi) % pi);
                    lemma_mul_is_commutative(q, r as int);
                    assert(old_r - q * (r as int) == new_r as int);
                }
            }
            old_r = r;
            r = new_r;
            old_t = t;
            t = new_t;
        }

        if old_r != 1 {
            proof {
                assert(spec_gcd(old_r as nat, 0nat) == old_r as nat);
            }
            return Err(FieldError::InvalidElement);
        }

        proof {
            assert(spec_gcd(pi as nat, vi as nat) == 1);
            lemma_small_mod(1nat, pi as nat);
            assert((old_t * vi) % pi == 1);
            lemma_mod_inverse_is(pi, vi, old_t as int);
        }
        Ok(Self { value: old_t, prime: p })
    }

    /// Field division: `self * inverse(other)`; fails with `DivisionByZero`
    /// on a zero divisor, and propagates the inverse's failure on a modulus
    /// not coprime with the divisor.
    pub fn div(self, other: Self) -> (r: Result<Self, FieldError>)
        requires
            self.wf(),
            other.wf(),
        ensures
            !self.compatible(other) ==> r == Err::<FieldElement, FieldError>(
                FieldError::MismatchedFields,
            ),
            self.compatible(other) && other.spec_value() == 0 ==> r == Err::<
                FieldElement,
                FieldError,
            >(FieldError::DivisionByZero),
            self.compatible(other) && other.spec_value() != 0 && spec_gcd(
                self.spec_prime() as nat,
                other.spec_value() as nat,
            ) != 1 ==> r == Err::<FieldElement, FieldError>(FieldError::InvalidElement),
            self.compatible(other) && other.spec_value() != 0 && spec_gcd(
                self.spec_prime() as nat,
                other.spec_value() as nat,
            ) == 1 ==> (r matches Ok(f) && f.wf() && f.spec_prime() == self.spec_prime()
                && f.spec_value() == (self.spec_value() * mod_inverse(
                self.spec_prime(),
                other.spec_value(),
            )) % self.spec_prime() && (f.spec_value() * other.spec_value()) % self.spec_prime()
                == self.spec_value()),
    {
        if self.prime != other.prime {
            return Err(FieldError::MismatchedFields);
        }
        let inverse = match other.inv() {
            Ok(i) => i,
            Err(e) => {
                return Err(e);
            },
        };
        let result = match self.mul(inverse) {
            Ok(f) => f,
            Err(_) => vstd::pervasive::unreached(),
        };
        proof {
            let p = self.spec_prime();
            let s = self.spec_value();
            let o = other.spec_value();
            let i = inverse.spec_value();
            // (s * i % p) * o % p == s * (i * o) % p == s * 1 % p == s
            lemma_mul_mod_noop_left(s * i, o, p);
            assert(((s * i) % p * o) % p == ((s * i) * o) % p);
            lemma_mul_is_associative(s, i, o);
            lemma_mul_mod_noop_right(s, i * o, p);
            assert((s * (i * o)) % p == (s * ((i * o) % p)) % p);
            assert((i * o) % p == 1);
            lemma_mul_basics(s);
            lemma_small_mod(s as nat, p as nat);
        }
        Ok(result)
    }
}

/// The exponent actually used by `pow`: a non-negative `exp` is used as it
/// stands, and a negative one is first brought into `[0, prime - 1)` modulo
/// `prime - 1` (Fermat's little theorem; meaningful only for a prime
/// modulus).
pub open spec fn spec_pow_exp(p: int, exp: int) -> nat {
    if exp >= 0 {
        exp as nat
    } else {
        (exp % (p - 1)) as nat
    }
}

impl FieldElement {
    /// Modular exponentiation by square-and-multiply. A negative exponent is
    /// reduced modulo `prime - 1` first, which computes the inverse power
    /// only when the modulus is prime (a documented precondition of the
    /// design, not an enforced check); that reduction asks for a modulus of
    /// at least two.
    pub fn pow(&self, exp: i64) -> (r: Result<Self, FieldError>)
        requires
            self.wf(),
            exp >= 0 || self.spec_prime() >= 2,
        ensures
            r matches Ok(f) && f.wf() && f.spec_prime() == self.spec_prime()
                && f.spec_value() == pow(self.spec_value(), spec_pow_exp(self.spec_prime(), exp as int))
                % self.spec_prime(),
    {
        let n: i64 = if exp >= 0 {
            exp
        } else {
            normalize_mod(exp, self.prime - 1)
        };
        let ghost e0 = spec_pow_exp(self.spec_prime(), exp as int);
        proof {
            assert(n as nat == e0);
        }

        let p = self.prime;
        let ghost pi = p as int;
        let mut current = *self;
        let one = normalize_mod(1, p);
        let mut result = Self { value: one, prime: p };
        proof {
            assert(result.spec_value() == 1int % pi);
        }
        let mut e = n;

        proof {
            lemma_pow_mod_eq_initial(self.spec_value(), e0, pi);
        }

        while e > 0
            invariant
                0 <= e,
                0 < pi,
                result.wf(),
                current.wf(),
                result.spec_prime() == pi,
                current.spec_prime() == pi,
                self.spec_prime() == pi,
                (result.spec_value() * pow(current.spec_value(), e as nat)) % pi == pow(
                    self.spec_value(),
                    e0,
                ) % pi,
            decreases e,
        {
            let ghost rv = result.spec_value();
            let ghost cv = current.spec_value();
            let ghost ei = e as nat;
            if e % 2 == 1 {
                result = match result.mul(current) {
                    Ok(f) => f,
                    Err(_) => vstd::pervasive::unreached(),
                };
                proof {
                    lemma_square_and_multiply_odd(rv, cv, ei, pi);
                    assert(result.spec_value() == (rv * cv) % pi);
                }
            }
            let ghost rv2 = result.spec_value();
            current = match current.mul(current) {
                Ok(f) => f,
                Err(_) => vstd::pervasive::unreached(),
            };
            proof {
                assert(current.spec_value() == (cv * cv) % pi);
                lemma_pow_of_square_mod(rv2, cv, ei / 2, pi);
                assert(ei == 2 * (ei / 2) + ei % 2);
            }
            e = e / 2;
        }

        proof {
            vstd::arithmetic::power::lemma_pow0(current.spec_value());
            lemma_mul_basics(result.spec_value());
            lemma_small_mod(result.spec_value() as nat, pi as nat);
        }
        Ok(result)
    }
}

/// `pow(b, e) % p` is unchanged when the base is first reduced modulo `p`.
proof fn lemma_pow_mod_eq_initial(b: int, e: nat, p: int)
    requires
        p > 0,
    ensures
        ((1int % p) * pow(b, e)) % p == pow(b, e) % p,
{
    lemma_mul_mod_noop_left(1, pow(b, e), p);
    lemma_mul_basics(pow(b, e));
}

/// One odd step of square-and-multiply: multiplying the accumulator by the
/// current base leaves the overall product congruent, with the exponent
/// dropping by one.
proof fn lemma_square_and_multiply_odd(rv: int, cv: int, e: nat, p: int)
    requires
        p > 0,
        e % 2 == 1,
        e >= 1,
        0 <= rv < p,
        0 <= cv < p,
    ensures
        (((rv * cv) % p) * pow(cv, (e - 1) as nat)) % p == (rv * pow(cv, e)) % p,
{
    lemma_mul_mod_noop_left(rv * cv, pow(cv, (e - 1) as nat), p);
    assert((((rv * cv) % p) * pow(cv, (e - 1) as nat)) % p == ((rv * cv) * pow(
        cv,
        (e - 1) as nat,
    )) % p);
    lemma_mul_is_associative(rv, cv, pow(cv, (e - 1) as nat));
    assert((rv * cv) * pow(cv, (e - 1) as nat) == rv * (cv * pow(cv, (e - 1) as nat)));
    assert(cv * pow(cv, (e - 1) as nat) == pow(cv, e)) by {
        vstd::arithmetic::power::lemma_pow1(cv);
        vstd::arithmetic::power::lemma_pow_adds(cv, 1nat, (e - 1) as nat);
    }
}

/// Squaring the base halves the exponent: `(r * pow(c*c mod p, e)) mod p ==
/// (r * pow(c, 2e)) mod p`.
proof fn lemma_pow_of_square_mod(rv: int, cv: int, half: nat, p: int)
    requires
        p > 0,
        0 <= rv < p,
        0 <= cv < p,
    ensures
        (rv * pow((cv * cv) % p, half)) % p == (rv * pow(cv, 2 * half)) % p,
{
    vstd::arithmetic::power::lemma_pow_mod_noop(cv * cv, half, p);
    assert(pow((cv * cv) % p, half) % p == pow(cv * cv, half) % p);
    assert(pow(cv * cv, half) == pow(cv, 2 * half)) by {
        vstd::arithmetic::power::lemma_square_is_pow2(cv);
        vstd::arithmetic::power::lemma_pow_multiplies(cv, 2nat, half);
        assert(pow(pow(cv, 2nat), half) == pow(cv, 2nat * half));
    }
    lemma_mul_mod_noop_right(rv, pow((cv * cv) % p, half), p);
    lemma_mul_mod_noop_right(rv, pow(cv, 2 * half), p);
    assert((rv * (pow((cv * cv) % p, half) % p)) % p == (rv * pow((cv * cv) % p, half)) % p);
    assert((rv * (pow(cv, 2 * half) % p)) % p == (rv * pow(cv, 2 * half)) % p);
}

/// Law: field addition is associative. In terms of the contracts of `add`,
/// `x.add(y.add(z))` and `x.add(y).add(z)` yield the same value.
pub proof fn lemma_field_add_associative(x: FieldElement, y: FieldElement, z: FieldElement)
    requires
        x.wf(),
        y.wf(),
        z.wf(),
        x.compatible(y),
        y.compatible(z),
    ensures
        (x.spec_value() + (y.spec_value() + z.spec_value()) % x.spec_prime()) % x.spec_prime()
            == ((x.spec_value() + y.spec_value()) % x.spec_prime() + z.spec_value())
            % x.spec_prime(),
{
    let p = x.spec_prime();
    let xv = x.spec_value();
    let yv = y.spec_value();
    let zv = z.spec_value();
    lemma_add_mod_noop_right(xv, yv + zv, p);
    lemma_add_mod_noop_right(zv, xv + yv, p);
    assert((xv + yv) % p + zv == zv + (xv + yv) % p);
}

/// Law: the zero element is the additive identity. Adding an element whose
/// value is zero leaves the value unchanged.
pub proof fn lemma_field_add_identity(x: FieldElement, zero: FieldElement)
    requires
        x.wf(),
        zero.wf(),
        x.compatible(zero),
        zero.spec_value() == 0,
    ensures
        (x.spec_value() + zero.spec_value()) % x.spec_prime() == x.spec_value(),
{
    lemma_small_mod(x.spec_value() as nat, x.spec_prime() as nat);
}

/// Law: an element plus its negation is zero. In terms of the contracts of
/// `add` and `neg`, `x.add(x.neg())` yields the zero element.
pub proof fn lemma_field_add_negate(x: FieldElement)
    requires
        x.wf(),
    ensures
        (x.spec_value() + (-x.spec_value()) % x.spec_prime()) % x.spec_prime() == 0,
{
    let p = x.spec_prime();
    let xv = x.spec_value();
    lemma_add_mod_noop_right(xv, -xv, p);
    assert((xv + -xv) % p == 0int % p);
    lemma_small_mod(0nat, p as nat);
}

/// Law: a non-zero element times its inverse is one. In terms of the
/// contracts of `mul` and `inv`, `x.mul(x.inv())` yields the one element
/// whenever the inverse exists, that is, whenever the value is coprime with
/// the modulus - always the case for a prime modulus.
pub proof fn lemma_field_mul_inverse(x: FieldElement)
    requires
        x.wf(),
        x.spec_value() != 0,
        spec_gcd(x.spec_prime() as nat, x.spec_value() as nat) == 1,
    ensures
        has_mod_inverse(x.spec_prime(), x.spec_value()),
        (x.spec_value() * mod_inverse(x.spec_prime(), x.spec_value())) % x.spec_prime() == 1,
{
    let p = x.spec_prime();
    let xv = x.spec_value();
    crate::numtheory::lemma_coprime_mod_inverse(p, xv);
    lemma_mul_is_commutative(xv, mod_inverse(p, xv));
}

/// Law: over a prime modulus every non-zero element is coprime with the
/// modulus, so its inverse exists and `x.mul(x.inv())` yields the one
/// element - the form the design states for prime fields.
pub proof fn lemma_field_mul_inverse_prime(x: FieldElement)
    requires
        x.wf(),
        x.spec_value() != 0,
        crate::numtheory::spec_is_prime(x.spec_prime()),
    ensures
        spec_gcd(x.spec_prime() as nat, x.spec_value() as nat) == 1,
        has_mod_inverse(x.spec_prime(), x.spec_value()),
        (x.spec_value() * mod_inverse(x.spec_prime(), x.spec_value())) % x.spec_prime() == 1,
{
    crate::numtheory::lemma_prime_coprime(x.spec_prime(), x.spec_value());
    lemma_field_mul_inverse(x);
}

} // verus!
