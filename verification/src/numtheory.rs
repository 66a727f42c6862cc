//! Number-theoretic groundwork: the Euclidean greatest common divisor and
//! modular multiplicative inverses, used to specify and verify field
//! inversion and division.

use vstd::arithmetic::div_mod::{
    lemma_add_mod_noop, lemma_fundamental_div_mod, lemma_fundamental_div_mod_converse_mod,
    lemma_mod_bound, lemma_mod_is_zero, lemma_mod_multiples_vanish, lemma_mod_self_0,
    lemma_mul_mod_noop_left, lemma_mul_mod_noop_right, lemma_small_mod,
};
use vstd::arithmetic::mul::{
    lemma_mul_basics, lemma_mul_is_associative, lemma_mul_is_commutative,
    lemma_mul_is_distributive_sub, lemma_mul_is_distributive_sub_other_way,
    lemma_mul_unary_negation,
};
use vstd::prelude::*;

verus! {

/// The greatest common divisor, by the Euclidean recursion.
pub open spec fn spec_gcd(a: nat, b: nat) -> nat
    decreases b,
{
    if b == 0 {
        a
    } else {
        spec_gcd(b, a % b)
    }
}

/// Whether `v` has a multiplicative inverse modulo `p`.
pub open spec fn has_mod_inverse(p: int, v: int) -> bool {
    exists|i: int| 0 <= i < p && #[trigger] ((i * v) % p) == 1
}

/// The multiplicative inverse of `v` modulo `p`, where one exists.
pub open spec fn mod_inverse(p: int, v: int) -> int {
    choose|i: int| 0 <= i < p && #[trigger] ((i * v) % p) == 1
}

/// A multiplicative inverse modulo `p` is unique within `[0, p)`:
/// if `i1 * v` and `i2 * v` are both congruent to 1, then `i1 == i2`.
pub proof fn lemma_mod_inverse_unique(p: int, v: int, i1: int, i2: int)
    requires
        p > 0,
        0 <= i1 < p,
        0 <= i2 < p,
        (i1 * v) % p == 1,
        (i2 * v) % p == 1,
    ensures
        i1 == i2,
{
    // i1 == i1 * ((i2 * v) % p) % p == (i1 * i2 * v) % p == i2 * ((i1 * v) % p) % p == i2
    lemma_small_mod(i1 as nat, p as nat);
    lemma_mul_mod_noop_right(i1, i2 * v, p);
    assert(i1 * ((i2 * v) % p) == i1 * 1 == i1) by {
        assert((i2 * v) % p == 1);
    }
    assert((i1 * (i2 * v)) % p == i1 % p);
    lemma_mul_is_associative(i1, i2, v);
    assert((i1 * i2) * v == i1 * (i2 * v));
    lemma_small_mod(i2 as nat, p as nat);
    lemma_mul_mod_noop_right(i2, i1 * v, p);
    assert(i2 * ((i1 * v) % p) == i2 * 1 == i2) by {
        assert((i1 * v) % p == 1);
    }
    assert((i2 * (i1 * v)) % p == i2 % p);
    lemma_mul_is_associative(i2, i1, v);
    lemma_mul_is_commutative(i1, i2);
    assert((i2 * i1) * v == (i1 * i2) * v);
    assert(i1 % p == i2 % p);
}

/// Whatever `0 <= t < p` satisfies `(t * v) % p == 1` is exactly
/// `mod_inverse(p, v)`.
pub proof fn lemma_mod_inverse_is(p: int, v: int, t: int)
    requires
        p > 0,
        0 <= t < p,
        (t * v) % p == 1,
    ensures
        has_mod_inverse(p, v),
        mod_inverse(p, v) == t,
        0 <= mod_inverse(p, v) < p,
        (mod_inverse(p, v) * v) % p == 1,
{
    assert(has_mod_inverse(p, v));
    let i = mod_inverse(p, v);
    assert(0 <= i < p && (i * v) % p == 1);
    lemma_mod_inverse_unique(p, v, i, t);
}

/// Bezout's identity, by induction along the Euclidean recursion: some
/// integer combination of `a` and `b` equals their greatest common divisor.
pub proof fn lemma_bezout(a: nat, b: nat) -> (st: (int, int))
    ensures
        st.0 * a + st.1 * b == spec_gcd(a, b),
    decreases b,
{
    if b == 0 {
        let st = (1int, 0int);
        lemma_mul_basics(a as int);
        lemma_mul_basics(b as int);
        st
    } else {
        let st0 = lemma_bezout(b, a % b);
        let s = st0.0;
        let t = st0.1;
        let q = (a as int) / (b as int);
        lemma_fundamental_div_mod(a as int, b as int);
        assert((a as int) == (b as int) * q + (a as int) % (b as int));
        let st = (t, s - t * q);
        assert(t * a + (s - t * q) * b == spec_gcd(a, b)) by {
            lemma_mul_is_distributive_sub_other_way(b as int, s, t * q);
            assert((s - t * q) * b == s * b - (t * q) * b);
            lemma_mul_is_associative(t, q, b as int);
            assert((t * q) * b == t * (q * b));
            lemma_mul_is_distributive_sub(t, a as int, q * (b as int));
            assert(t * ((a as int) - q * (b as int)) == t * a - t * (q * (b as int)));
            lemma_mul_is_commutative(b as int, q);
            assert((a as int) - q * (b as int) == (a as int) % (b as int));
            assert(t * ((a as int) % (b as int)) == t * a - t * (q * (b as int)));
            assert(s * b + t * ((a as int) % (b as int)) == spec_gcd(b, a % b));
            assert(spec_gcd(b, a % b) == spec_gcd(a, b));
        }
        st
    }
}

/// When `v` is coprime with the modulus `p`, it has a multiplicative
/// inverse modulo `p` (Bezout's coefficient, reduced into `[0, p)`).
pub proof fn lemma_coprime_mod_inverse(p: int, v: int)
    requires
        0 < v < p,
        spec_gcd(p as nat, v as nat) == 1,
    ensures
        has_mod_inverse(p, v),
        0 <= mod_inverse(p, v) < p,
        (mod_inverse(p, v) * v) % p == 1,
{
    let st = lemma_bezout(p as nat, v as nat);
    let s = st.0;
    let t = st.1;
    assert(s * p + t * v == 1);
    let tm = t % p;
    lemma_mod_bound(t, p);
    lemma_mul_mod_noop_left(t, v, p);
    assert((tm * v) % p == (t * v) % p);
    lemma_mod_multiples_vanish(-s, 1, p);
    assert((p * -s + 1) % p == 1int % p);
    assert(p * -s + 1 == t * v) by {
        lemma_mul_unary_negation(p, s);
        lemma_mul_is_commutative(p, s);
    }
    lemma_small_mod(1nat, p as nat);
    assert((t * v) % p == 1);
    lemma_mod_inverse_is(p, v, tm);
}

/// Primality: at least two, with no divisor strictly between one and
/// itself.
pub open spec fn spec_is_prime(p: int) -> bool {
    p >= 2 && forall|d: int| 2 <= d < p ==> #[trigger] (p % d) != 0
}

/// The greatest common divisor is positive and divides both arguments.
pub proof fn lemma_gcd_divides(a: nat, b: nat)
    requires
        a > 0,
    ensures
        spec_gcd(a, b) > 0,
        a % spec_gcd(a, b) == 0,
        b % spec_gcd(a, b) == 0,
    decreases b,
{
    let g = spec_gcd(a, b);
    if b == 0 {
        assert(g == a);
        lemma_mod_self_0(a as int);
        lemma_small_mod(0nat, a);
    } else {
        lemma_mod_bound(a as int, b as int);
        lemma_gcd_divides(b, a % b);
        assert(g == spec_gcd(b, a % b));
        assert(g > 0);
        assert(b % g == 0);
        assert((a % b) % g == 0);
        let q = (a as int) / (b as int);
        lemma_fundamental_div_mod(a as int, b as int);
        assert((a as int) == (b as int) * q + (a as int) % (b as int));
        assert(((b as int) * q) % (g as int) == 0) by {
            lemma_mul_mod_noop_left(b as int, q, g as int);
            assert(((b as int) % (g as int) * q) % (g as int) == ((b as int) * q) % (g as int));
            assert((b as int) % (g as int) == 0);
            lemma_mul_basics(q);
            assert(0int * q == 0int);
            lemma_small_mod(0nat, g);
        }
        assert((a as int) % (g as int) == 0) by {
            lemma_add_mod_noop((b as int) * q, (a as int) % (b as int), g as int);
            lemma_small_mod(0nat, g);
        }
    }
}

/// Congruent summands give congruent sums.
pub proof fn lemma_cong_add(p: int, u: int, u2: int, v: int, v2: int)
    requires
        p > 0,
        u % p == u2 % p,
        v % p == v2 % p,
    ensures
        (u + v) % p == (u2 + v2) % p,
{
    lemma_add_mod_noop(u, v, p);
    lemma_add_mod_noop(u2, v2, p);
}

/// Congruent operands give congruent differences.
pub proof fn lemma_cong_sub(p: int, u: int, u2: int, v: int, v2: int)
    requires
        p > 0,
        u % p == u2 % p,
        v % p == v2 % p,
    ensures
        (u - v) % p == (u2 - v2) % p,
{
    vstd::arithmetic::div_mod::lemma_sub_mod_noop(u, v, p);
    vstd::arithmetic::div_mod::lemma_sub_mod_noop(u2, v2, p);
}

/// Congruent factors give congruent products.
pub proof fn lemma_cong_mul(p: int, u: int, u2: int, v: int, v2: int)
    requires
        p > 0,
        u % p == u2 % p,
        v % p == v2 % p,
    ensures
        (u * v) % p == (u2 * v2) % p,
{
    vstd::arithmetic::div_mod::lemma_mul_mod_noop_general(u, v, p);
    vstd::arithmetic::div_mod::lemma_mul_mod_noop_general(u2, v2, p);
}

/// A multiple of a value that vanishes modulo `p` vanishes too.
pub proof fn lemma_cong_mul_zero(p: int, e: int, w: int)
    requires
        p > 0,
        e % p == 0,
    ensures
        (e * w) % p == 0,
{
    lemma_mul_mod_noop_left(e, w, p);
    assert((e % p) * w == 0) by {
        lemma_mul_basics(w);
    }
    lemma_small_mod(0nat, p as nat);
}

/// Euclid's lemma for normalized factors: when a prime divides a product
/// of two values from `[0, p)`, it divides - here, annihilates - one of
/// them.
pub proof fn lemma_euclid_prime(p: int, a: int, b: int)
    requires
        spec_is_prime(p),
        0 <= a < p,
        0 <= b < p,
        (a * b) % p == 0,
    ensures
        a == 0 || b == 0,
{
    if a != 0 {
        lemma_prime_coprime(p, a);
        lemma_coprime_mod_inverse(p, a);
        let i = mod_inverse(p, a);
        assert((i * a) % p == 1);
        lemma_small_mod(b as nat, p as nat);
        lemma_mul_mod_noop_right(b, i * a, p);
        assert((b * ((i * a) % p)) % p == (b * (i * a)) % p);
        lemma_mul_basics(b);
        assert(b % p == (b * (i * a)) % p);
        assert(b * (i * a) == i * (a * b)) by {
            lemma_mul_is_associative(b, i, a);
            lemma_mul_is_commutative(b, i);
            lemma_mul_is_associative(i, b, a);
            lemma_mul_is_commutative(b, a);
            lemma_mul_is_associative(i, a, b);
        }
        lemma_mul_mod_noop_right(i, a * b, p);
        assert((i * ((a * b) % p)) % p == (i * (a * b)) % p);
        lemma_mul_basics(i);
        assert(i * 0 == 0);
        lemma_small_mod(0nat, p as nat);
        assert(b % p == 0);
        assert(b == 0);
    }
}

/// Two values of `[0, p)` with the same square modulo a prime are equal or
/// negatives of one another.
pub proof fn lemma_same_square(p: int, y1: int, y2: int)
    requires
        spec_is_prime(p),
        0 <= y1 < p,
        0 <= y2 < p,
        (y1 * y1) % p == (y2 * y2) % p,
    ensures
        y2 == y1 || y2 == (-y1) % p,
{
    // (y1 - y2) * (y1 + y2) == y1^2 - y2^2, which vanishes modulo p
    vstd::arithmetic::div_mod::lemma_sub_mod_noop(y1 * y1, y2 * y2, p);
    assert((y1 * y1 - y2 * y2) % p == 0) by {
        assert(((y1 * y1) % p - (y2 * y2) % p) % p == (y1 * y1 - y2 * y2) % p);
        lemma_small_mod(0nat, p as nat);
    }
    assert((y1 - y2) * (y1 + y2) == y1 * y1 - y2 * y2) by {
        lemma_mul_is_distributive_sub_other_way(y1 + y2, y1, y2);
        vstd::arithmetic::mul::lemma_mul_is_distributive_add(y1, y1, y2);
        vstd::arithmetic::mul::lemma_mul_is_distributive_add(y2, y1, y2);
        lemma_mul_is_commutative(y1, y2);
    }
    let d = (y1 - y2) % p;
    let s = (y1 + y2) % p;
    lemma_mod_bound(y1 - y2, p);
    lemma_mod_bound(y1 + y2, p);
    vstd::arithmetic::div_mod::lemma_mul_mod_noop_general(y1 - y2, y1 + y2, p);
    assert((d * s) % p == ((y1 - y2) * (y1 + y2)) % p);
    lemma_euclid_prime(p, d, s);
    if d == 0 {
        // the difference vanishes only when the values are equal
        if y1 >= y2 {
            lemma_small_mod((y1 - y2) as nat, p as nat);
            assert(y1 == y2);
        } else {
            lemma_mod_multiples_vanish(1, y1 - y2, p);
            assert((p * 1 + (y1 - y2)) % p == (y1 - y2) % p);
            lemma_small_mod((p + y1 - y2) as nat, p as nat);
            assert(false);
        }
    } else {
        // the sum vanishes modulo p: it is 0 or p, so y2 is -y1
        assert(s == 0);
        if y1 + y2 < p {
            lemma_small_mod((y1 + y2) as nat, p as nat);
            assert(y1 == 0 && y2 == 0);
            lemma_small_mod(0nat, p as nat);
            assert((-y1) % p == 0);
        } else {
            lemma_mod_multiples_vanish(-1, y1 + y2, p);
            assert((p * -1 + (y1 + y2)) % p == (y1 + y2) % p);
            lemma_small_mod((y1 + y2 - p) as nat, p as nat);
            assert(y1 + y2 == p);
            assert(-y1 == (-1) * p + (p - y1)) by {
                lemma_mul_basics(p);
                lemma_mul_unary_negation(1, p);
            }
            lemma_fundamental_div_mod_converse_mod(-y1, p, -1, p - y1);
            assert((-y1) % p == p - y1);
        }
    }
}

/// Every value strictly between zero and a prime is coprime with it.
pub proof fn lemma_prime_coprime(p: int, v: int)
    requires
        spec_is_prime(p),
        0 < v < p,
    ensures
        spec_gcd(p as nat, v as nat) == 1,
{
    let g = spec_gcd(p as nat, v as nat);
    lemma_gcd_divides(p as nat, v as nat);
    assert(g > 0);
    assert((p as nat) % g == 0);
    assert((v as nat) % g == 0);
    lemma_mod_is_zero(v as nat, g);
    assert(g <= v);
    if g >= 2 {
        assert(2 <= g < p);
        assert(p % (g as int) != 0);
        assert((p as nat) % g == p % (g as int));
        assert(false);
    }
}

} // verus!
