//! Arithmetic modulo a run-time modulus, and the number theory that the
//! chips' constraints lean on when the modulus is prime.
//!
//! Field elements are kept as their canonical representatives: a `u64` below
//! the modulus. Specifications speak of plain integers and of congruence.

use vstd::arithmetic::div_mod::*;
use vstd::prelude::*;

verus! {

/// `p` is a prime number.
pub open spec fn is_prime(p: int) -> bool {
    2 <= p && forall|d: int| 1 < d < p ==> #[trigger] (p % d) != 0
}

/// `a` and `b` are the same element of the integers modulo `p`.
pub open spec fn congruent(a: int, b: int, p: int) -> bool {
    (a - b) % p == 0
}

/// `x` is zero modulo `p`.
pub open spec fn vanishes(x: int, p: int) -> bool {
    x % p == 0
}

/// `x` is zero or one modulo `p`: `x * (x - 1)` vanishes.
pub open spec fn boolean(x: int, p: int) -> bool {
    vanishes(x * (x - 1), p)
}

/// The greatest common divisor, by Euclid's recurrence.
pub open spec fn gcd(a: nat, b: nat) -> nat
    decreases b,
{
    if b == 0 {
        a
    } else {
        gcd(b, a % b)
    }
}

/// Two integers that differ by a multiple of `p` leave the same remainder.
pub proof fn lemma_same_remainder(x: int, y: int, k: int, p: int)
    requires
        p > 0,
        x - y == p * k,
    ensures
        x % p == y % p,
{
    lemma_mod_multiples_vanish(k, y, p);
    assert(x == p * k + y);
}

/// Two integers that leave the same remainder differ by a multiple of `p`.
pub proof fn lemma_remainder_gap(x: int, y: int, p: int)
    requires
        p > 0,
        x % p == y % p,
    ensures
        x - y == p * (x / p - y / p),
{
    lemma_fundamental_div_mod(x, p);
    lemma_fundamental_div_mod(y, p);
    assert(p * (x / p - y / p) == p * (x / p) - p * (y / p)) by (nonlinear_arith);
}

/// A multiple of `p` vanishes modulo `p`.
pub proof fn lemma_multiple_vanishes(k: int, p: int)
    requires
        p > 0,
    ensures
        vanishes(p * k, p),
        vanishes(k * p, p),
{
    lemma_same_remainder(p * k, 0, k, p);
    assert(k * p == p * k) by (nonlinear_arith);
}

/// What vanishes modulo `p` is a multiple of `p`.
pub proof fn lemma_vanishing_is_multiple(x: int, p: int)
    requires
        p > 0,
        vanishes(x, p),
    ensures
        x == p * (x / p),
{
    lemma_fundamental_div_mod(x, p);
}

/// Congruence is kept by sums, differences and products.
pub proof fn lemma_congruence_ring(a: int, b: int, c: int, d: int, p: int)
    requires
        p > 0,
        congruent(a, b, p),
        congruent(c, d, p),
    ensures
        congruent(a + c, b + d, p),
        congruent(a - c, b - d, p),
        congruent(a * c, b * d, p),
{
    lemma_vanishing_is_multiple(a - b, p);
    lemma_vanishing_is_multiple(c - d, p);
    let k = (a - b) / p;
    let l = (c - d) / p;
    lemma_multiple_vanishes(k + l, p);
    assert((a + c) - (b + d) == p * (k + l)) by (nonlinear_arith)
        requires
            a - b == p * k,
            c - d == p * l,
    ;
    lemma_multiple_vanishes(k - l, p);
    assert((a - c) - (b - d) == p * (k - l)) by (nonlinear_arith)
        requires
            a - b == p * k,
            c - d == p * l,
    ;
    lemma_multiple_vanishes(k * c + b * l, p);
    assert(a * c - b * d == p * (k * c + b * l)) by (nonlinear_arith)
        requires
            a - b == p * k,
            c - d == p * l,
    ;
}

/// Congruent canonical representatives are equal.
pub proof fn lemma_canonical_equal(a: int, b: int, p: int)
    requires
        0 <= a < p,
        0 <= b < p,
        congruent(a, b, p),
    ensures
        a == b,
{
    lemma_mod_equivalence(a, b, p);
    lemma_small_mod(a as nat, p as nat);
    lemma_small_mod(b as nat, p as nat);
}

/// The greatest common divisor divides both arguments, and is positive
/// unless both are zero.
pub proof fn lemma_gcd_divides(a: nat, b: nat)
    requires
        a > 0 || b > 0,
    ensures
        gcd(a, b) > 0,
        a % gcd(a, b) == 0,
        b % gcd(a, b) == 0,
    decreases b,
{
    if b == 0 {
        lemma_mod_self_0(a as int);
    } else {
        lemma_mod_pos_bound(a as int, b as int);
        lemma_gcd_divides(b, a % b);
        let g = gcd(a, b) as int;
        lemma_fundamental_div_mod(a as int, b as int);
        lemma_vanishing_is_multiple(b as int, g);
        lemma_vanishing_is_multiple((a % b) as int, g);
        let u = (b as int) / g;
        let v = ((a % b) as int) / g;
        let q = (a as int) / (b as int);
        assert(a as int == g * (u * q + v)) by (nonlinear_arith)
            requires
                a as int == (b as int) * q + (a % b) as int,
                b as int == g * u,
                (a % b) as int == g * v,
        ;
        lemma_multiple_vanishes(u * q + v, g);
    }
}

/// Bezout's identity: the greatest common divisor is an integer combination
/// of the two arguments.
pub proof fn lemma_bezout(a: nat, b: nat) -> (c: (int, int))
    ensures
        c.0 * a + c.1 * b == gcd(a, b),
    decreases b,
{
    if b == 0 {
        (1, 0)
    } else {
        lemma_mod_pos_bound(a as int, b as int);
        let d = lemma_bezout(b, a % b);
        let q = (a as int) / (b as int);
        lemma_fundamental_div_mod(a as int, b as int);
        let g = gcd(a, b) as int;
        assert(d.1 * a + (d.0 - d.1 * q) * b == g) by (nonlinear_arith)
            requires
                a as int == (b as int) * q + (a % b) as int,
                d.0 * b + d.1 * (a % b) == g,
        ;
        (d.1, d.0 - d.1 * q)
    }
}

/// A prime shares no divisor with a positive integer below it.
pub proof fn lemma_prime_coprime(p: int, x: int)
    requires
        is_prime(p),
        0 < x < p,
    ensures
        gcd(p as nat, x as nat) == 1,
{
    lemma_gcd_divides(p as nat, x as nat);
    let g = gcd(p as nat, x as nat) as int;
    if g > x {
        lemma_small_mod(x as nat, g as nat);
    }
    if g > 1 {
        assert(p % g != 0);
    }
}

/// Modulo a prime, whatever does not vanish has an inverse.
pub proof fn lemma_inverse_exists(a: int, p: int) -> (t: int)
    requires
        is_prime(p),
        !vanishes(a, p),
    ensures
        0 <= t < p,
        (a * t) % p == 1,
{
    let x = a % p;
    lemma_mod_bound(a, p);
    lemma_prime_coprime(p, x);
    let c = lemma_bezout(p as nat, x as nat);
    lemma_fundamental_div_mod(a, p);
    let q = a / p;
    let t = c.1 % p;
    lemma_mod_bound(c.1, p);
    lemma_fundamental_div_mod(c.1, p);
    let u = c.1 / p;
    assert(a * t - 1 == p * (q * t - c.0 - u * x)) by (nonlinear_arith)
        requires
            a == p * q + x,
            c.0 * p + c.1 * x == 1,
            c.1 == p * u + t,
    ;
    lemma_same_remainder(a * t, 1, q * t - c.0 - u * x, p);
    lemma_small_mod(1, p as nat);
    t
}

/// Euclid's lemma: a prime that divides a product divides a factor.
pub proof fn lemma_prime_factor(a: int, b: int, p: int)
    requires
        is_prime(p),
        vanishes(a * b, p),
    ensures
        vanishes(a, p) || vanishes(b, p),
{
    if !vanishes(a, p) {
        let t = lemma_inverse_exists(a, p);
        lemma_small_mod(1, p as nat);
        lemma_remainder_gap(a * t, 1, p);
        lemma_vanishing_is_multiple(a * b, p);
        let k = (a * t) / p - 1int / p;
        let m = (a * b) / p;
        assert(b == p * (t * m - k * b)) by (nonlinear_arith)
            requires
                a * t - 1 == p * k,
                a * b == p * m,
        ;
        lemma_multiple_vanishes(t * m - k * b, p);
    }
}

/// Modulo a prime, a product vanishes exactly when a factor does.
pub proof fn lemma_product_vanishes(a: int, b: int, p: int)
    requires
        is_prime(p),
    ensures
        vanishes(a * b, p) <==> vanishes(a, p) || vanishes(b, p),
{
    if vanishes(a * b, p) {
        lemma_prime_factor(a, b, p);
    }
    if vanishes(a, p) {
        lemma_vanishing_is_multiple(a, p);
        let k = a / p;
        assert(a * b == p * (k * b)) by (nonlinear_arith)
            requires
                a == p * k,
        ;
        lemma_multiple_vanishes(k * b, p);
    }
    if vanishes(b, p) {
        lemma_vanishing_is_multiple(b, p);
        let k = b / p;
        assert(a * b == p * (a * k)) by (nonlinear_arith)
            requires
                b == p * k,
        ;
        lemma_multiple_vanishes(a * k, p);
    }
}

/// Modulo a prime, a canonical `x` with `x * (x - 1)` vanishing is 0 or 1.
pub proof fn lemma_boolean(x: int, p: int)
    requires
        is_prime(p),
        0 <= x < p,
    ensures
        boolean(x, p) <==> x == 0 || x == 1,
{
    lemma_product_vanishes(x, x - 1, p);
    lemma_small_mod(x as nat, p as nat);
    if x >= 1 {
        lemma_small_mod((x - 1) as nat, p as nat);
    } else {
        lemma_same_remainder(x - 1, p - 1, -1, p);
        lemma_small_mod((p - 1) as nat, p as nat);
    }
}

/// Modulo a prime above 3, three canonical flags that are zero or one, and
/// whose sum is zero or one, are bits of which one at most is set.
pub proof fn lemma_one_at_most(a: int, b: int, c: int, p: int)
    requires
        is_prime(p),
        p > 3,
        0 <= a < p,
        0 <= b < p,
        0 <= c < p,
        boolean(a, p),
        boolean(b, p),
        boolean(c, p),
        boolean(a + b + c, p),
    ensures
        a == 0 || a == 1,
        b == 0 || b == 1,
        c == 0 || c == 1,
        a + b + c <= 1,
{
    lemma_boolean(a, p);
    lemma_boolean(b, p);
    lemma_boolean(c, p);
    lemma_boolean(a + b + c, p);
}

/// The canonical representative of `x`.
pub fn reduce(x: u64, p: u64) -> (r: u64)
    requires
        p > 0,
    ensures
        r == x as int % p as int,
{
    x % p
}

/// The sum modulo `p`.
pub fn add_mod(a: u64, b: u64, p: u64) -> (r: u64)
    requires
        p > 0,
    ensures
        r == (a + b) % p as int,
{
    let wide: u128 = a as u128 + b as u128;
    let rem: u128 = wide % (p as u128);
    rem as u64
}

/// The difference modulo `p`: the canonical representative of `a - b`.
pub fn sub_mod(a: u64, b: u64, p: u64) -> (r: u64)
    requires
        p > 0,
    ensures
        r == (a - b) % p as int,
{
    let x: u128 = (a % p) as u128;
    let y: u128 = (b % p) as u128;
    let wide: u128 = x + (p as u128) - y;
    let rem: u128 = wide % (p as u128);
    proof {
        lemma_sub_mod_noop(a as int, b as int, p as int);
        lemma_mod_add_multiples_vanish(x - y, p as int);
    }
    rem as u64
}

/// The product modulo `p`.
pub fn mul_mod(a: u64, b: u64, p: u64) -> (r: u64)
    requires
        p > 0,
    ensures
        r == (a * b) % p as int,
{
    proof {
        assert(a * b <= u64::MAX * u64::MAX) by (nonlinear_arith)
            requires
                0 <= a <= u64::MAX,
                0 <= b <= u64::MAX,
        ;
    }
    let wide: u128 = (a as u128) * (b as u128);
    let rem: u128 = wide % (p as u128);
    rem as u64
}

/// The inverse of `a` modulo `p`, where there is one.
pub fn inverse(a: u64, p: u64) -> (inv: Option<u64>)
    requires
        p > 0,
    ensures
        match inv {
            Some(y) => y < p && (a * y) % p as int == 1,
            None => forall|y: int| #[trigger] ((a * y) % p as int) != 1,
        },
{
    if p == 1 {
        return None;
    }
    let mut r0: u64 = p;
    let mut r1: u64 = a % p;
    let mut t0: u64 = 0;
    let mut t1: u64 = 1;
    proof {
        lemma_mod_self_0(p as int);
        lemma_mod_twice(a as int, p as int);
        lemma_small_mod(1, p as nat);
        assert(1 * a == a);
        assert(0 * a == 0);
    }
    while r1 != 0
        invariant
            p > 1,
            r1 < r0 <= p,
            t0 < p,
            t1 < p,
            (t0 * a) % p as int == r0 % p,
            (t1 * a) % p as int == r1 % p,
            gcd(r0 as nat, r1 as nat) == gcd(p as nat, (a % p) as nat),
        decreases r1,
    {
        let q: u64 = r0 / r1;
        let r2: u64 = r0 % r1;
        let t2: u64 = sub_mod(t0, mul_mod(q, t1, p), p);
        proof {
            let pi = p as int;
            lemma_fundamental_div_mod(r0 as int, r1 as int);
            let qt = (q * t1) % pi;
            // t2 is congruent to t0 - q * t1
            lemma_mod_twice(q * t1, pi);
            lemma_sub_mod_noop_right(t0 as int, q * t1, pi);
            assert(t2 as int % pi == (t0 - q * t1) % pi) by {
                lemma_small_mod(t2 as nat, p as nat);
            }
            lemma_mod_equivalence(t2 as int, t0 - q * t1, pi);
            lemma_mod_equivalence(t0 * a, r0 as int, pi);
            lemma_mod_equivalence(t1 * a, r1 as int, pi);
            lemma_mod_self_0(pi);
            assert(congruent(a as int, a as int, pi)) by {
                lemma_mod_self_0(pi);
                assert((a as int - a as int) % pi == 0) by {
                    lemma_small_mod(0, p as nat);
                }
            }
            assert(congruent(q as int, q as int, pi)) by {
                lemma_small_mod(0, p as nat);
            }
            lemma_congruence_ring(t2 as int, t0 - q * t1, a as int, a as int, pi);
            lemma_congruence_ring(q as int, q as int, t1 * a, r1 as int, pi);
            lemma_congruence_ring(t0 * a, r0 as int, q * (t1 * a), q * r1, pi);
            assert((t0 - q * t1) * a == t0 * a - q * (t1 * a)) by (nonlinear_arith);
            assert(r2 as int == r0 - q * r1) by (nonlinear_arith)
                requires
                    r0 as int == (r1 as int) * (q as int) + (r2 as int),
            ;
            lemma_congruence_ring(
                t2 * a,
                (t0 - q * t1) * a,
                (t0 - q * t1) * a,
                r0 - q * r1,
                pi,
            );
            lemma_mod_equivalence(t2 * a, (t0 - q * t1) * a, pi);
            lemma_mod_equivalence((t0 - q * t1) * a, r0 - q * r1, pi);
        }
        r0 = r1;
        r1 = r2;
        t0 = t1;
        t1 = t2;
    }
    if r0 == 1 {
        proof {
            lemma_small_mod(1, p as nat);
            assert(t0 * a == a * t0) by (nonlinear_arith);
        }
        Some(t0)
    } else {
        proof {
            let pi = p as int;
            let x = a as int % pi;
            lemma_mod_pos_bound(a as int, pi);
            lemma_gcd_divides(p as nat, x as nat);
            let g = r0 as int;
            assert(g >= 2);
            lemma_vanishing_is_multiple(pi, g);
            lemma_vanishing_is_multiple(x, g);
            lemma_fundamental_div_mod(a as int, pi);
            let u = pi / g;
            let v = x / g;
            let q = a as int / pi;
            assert forall|y: int| #[trigger] ((a * y) % pi) != 1 by {
                if (a * y) % pi == 1 {
                    lemma_fundamental_div_mod(a * y, pi);
                    let k = (a * y) / pi;
                    let m = u * q + v;
                    assert(pi * q == g * (u * q)) by (nonlinear_arith)
                        requires
                            pi == g * u,
                    ;
                    assert(g * (u * q) + g * v == g * m) by (nonlinear_arith)
                        requires
                            m == u * q + v,
                    ;
                    assert(a * y == g * (m * y)) by (nonlinear_arith)
                        requires
                            a as int == g * m,
                    ;
                    assert(pi * k == g * (u * k)) by (nonlinear_arith)
                        requires
                            pi == g * u,
                    ;
                    let z = m * y - u * k;
                    assert(g * (m * y) - g * (u * k) == g * z) by (nonlinear_arith)
                        requires
                            z == m * y - u * k,
                    ;
                    assert(false) by (nonlinear_arith)
                        requires
                            g >= 2,
                            g * z == 1,
                    ;
                }
            }
        }
        None
    }
}

} // verus!
