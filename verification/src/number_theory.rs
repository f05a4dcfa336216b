//! Greatest common divisors, with the facts about them that lowest-terms
//! fractions rest on.

use vstd::prelude::*;

verus! {

/// The greatest common divisor of two naturals, by Euclid's recursion.
/// `gcd(a, 0)` is `a`, so `gcd(0, 0)` is `0`.
pub open spec fn gcd(a: nat, b: nat) -> nat
    decreases b,
{
    if b == 0 {
        a
    } else {
        gcd(b, a % b)
    }
}

/// Absolute value of an integer.
pub open spec fn abs(n: int) -> nat {
    if n < 0 {
        (-n) as nat
    } else {
        n as nat
    }
}

/// `gcd(a, b)` is positive as soon as one argument is.
pub proof fn lemma_gcd_positive(a: nat, b: nat)
    requires
        a > 0 || b > 0,
    ensures
        gcd(a, b) > 0,
    decreases b,
{
    if b != 0 {
        lemma_gcd_positive(b, a % b);
    }
}

/// `gcd(a, b)` divides both arguments; the cofactors are returned.
pub proof fn lemma_gcd_divides(a: nat, b: nat) -> (pq: (nat, nat))
    ensures
        a == gcd(a, b) * pq.0,
        b == gcd(a, b) * pq.1,
    decreases b,
{
    if b == 0 {
        assert(a == a * 1) by (nonlinear_arith);
        assert(0 == a * 0) by (nonlinear_arith);
        (1, 0)
    } else {
        let (p, q) = lemma_gcd_divides(b, a % b);
        let g = gcd(a, b);
        let k = a / b;
        assert(a == b * k + a % b) by (nonlinear_arith)
            requires
                b > 0,
                k == a / b,
        ;
        assert(a == g * (p * k + q)) by (nonlinear_arith)
            requires
                a == b * k + a % b,
                b == g * p,
                a % b == g * q,
        ;
        ((p * k + q) as nat, p)
    }
}

/// Bezout's identity: integers `x`, `y` with `a * x + b * y == gcd(a, b)`.
pub proof fn lemma_bezout(a: nat, b: nat) -> (xy: (int, int))
    ensures
        a * xy.0 + b * xy.1 == gcd(a, b),
    decreases b,
{
    if b == 0 {
        assert(a * 1 + b * 0 == a) by (nonlinear_arith)
            requires
                b == 0,
        ;
        (1, 0)
    } else {
        let (x, y) = lemma_bezout(b, a % b);
        let g = gcd(a, b);
        let k: int = (a / b) as int;
        let r: int = (a % b) as int;
        assert(a == b * k + r) by (nonlinear_arith)
            requires
                b > 0,
                k == a / b,
                r == a % b,
        ;
        assert(a * y + b * (x - k * y) == g) by (nonlinear_arith)
            requires
                a == b * k + r,
                b * x + r * y == g,
        ;
        (y, x - k * y)
    }
}

/// A fraction in lowest terms has the smallest numerator and denominator
/// among all fractions of its value: if `n2 / d2` equals `n / d` and
/// `gcd(|n|, d) == 1`, then `(n2, d2)` is a positive multiple of `(n, d)`.
pub proof fn lemma_lowest_terms_minimal(n: int, d: int, n2: int, d2: int) -> (m: int)
    requires
        d > 0,
        d2 > 0,
        gcd(abs(n), d as nat) == 1,
        n2 * d == n * d2,
    ensures
        d <= d2,
        abs(n) <= abs(n2),
        m >= 1,
        n2 == m * n,
        d2 == m * d,
{
    let (x0, y) = lemma_bezout(abs(n), d as nat);
    let x: int = if n < 0 { -x0 } else { x0 };
    assert(n * x + d * y == 1) by (nonlinear_arith)
        requires
            abs(n) * x0 + d * y == 1,
            x == if n < 0 { -x0 } else { x0 },
            abs(n) == if n < 0 { -n } else { n },
    ;
    let m = n2 * x + d2 * y;
    assert(d2 == m * d && n2 == m * n) by (nonlinear_arith)
        requires
            n * x + d * y == 1,
            n2 * d == n * d2,
            m == n2 * x + d2 * y,
    ;
    assert(m >= 1 && d <= d2) by (nonlinear_arith)
        requires
            d2 == m * d,
            d > 0,
            d2 > 0,
    ;
    assert(abs(n) <= abs(n2)) by (nonlinear_arith)
        requires
            n2 == m * n,
            m >= 1,
            abs(n) == if n < 0 { -n } else { n },
            abs(n2) == if n2 < 0 { -n2 } else { n2 },
    ;
    m
}

/// Dividing both arguments by their gcd leaves them coprime.
pub proof fn lemma_gcd_quotients_coprime(a: nat, b: nat, p: nat, q: nat)
    requires
        gcd(a, b) > 0,
        a == gcd(a, b) * p,
        b == gcd(a, b) * q,
    ensures
        gcd(p, q) == 1,
{
    let g = gcd(a, b);
    let (x, y) = lemma_bezout(a, b);
    assert(p * x + q * y == 1) by (nonlinear_arith)
        requires
            a * x + b * y == g,
            a == g * p,
            b == g * q,
            g > 0,
    ;
    let h = gcd(p, q);
    let (u, v) = lemma_gcd_divides(p, q);
    assert(h * (u * x + v * y) == 1) by (nonlinear_arith)
        requires
            p * x + q * y == 1,
            p == h * u,
            q == h * v,
    ;
    assert(h == 1) by (nonlinear_arith)
        requires
            h * (u * x + v * y) == 1,
            h >= 0,
    ;
}

} // verus!
