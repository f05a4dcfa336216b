//! Facts of real arithmetic with products and ratios, each small enough for
//! the nonlinear solver.

use vstd::prelude::*;

verus! {

/// Dividing and multiplying back by a nonzero real changes nothing.
pub proof fn lemma_div_mul_cancel(x: real, y: real)
    by (nonlinear_arith)
    requires
        y != 0real,
    ensures
        (x / y) * y == x,
{
}

/// A real `q` with `q * y == x` is the ratio `x / y`.
pub proof fn lemma_div_unique(x: real, y: real, q: real)
    by (nonlinear_arith)
    requires
        y != 0real,
        q * y == x,
    ensures
        q == x / y,
{
}

/// Casting to `real` commutes with integer products.
pub proof fn lemma_real_of_product(a: int, b: int)
    by (nonlinear_arith)
    ensures
        (a * b) as real == (a as real) * (b as real),
{
}

/// `x * (b * d)` and `x * (d * b)` for `x * b == a`.
pub proof fn lemma_scaled(x: real, a: real, b: real, d: real)
    by (nonlinear_arith)
    requires
        x * b == a,
    ensures
        x * (b * d) == a * d,
        x * (d * b) == a * d,
{
}

/// Multiplication distributes over a sum and over a difference.
pub proof fn lemma_distribute(x: real, y: real, k: real)
    by (nonlinear_arith)
    ensures
        (x + y) * k == x * k + y * k,
        (x - y) * k == x * k - y * k,
{
}

/// `(x + y) * (b * d)` for `x * b == a` and `y * d == c`.
pub proof fn lemma_sum_scaled(x: real, y: real, a: real, b: real, c: real, d: real)
    requires
        x * b == a,
        y * d == c,
    ensures
        (x + y) * (b * d) == a * d + c * b,
{
    lemma_scaled(x, a, b, d);
    lemma_scaled(y, c, d, b);
    lemma_distribute(x, y, b * d);
}

/// `(x - y) * (b * d)` for `x * b == a` and `y * d == c`.
pub proof fn lemma_difference_scaled(x: real, y: real, a: real, b: real, c: real, d: real)
    requires
        x * b == a,
        y * d == c,
    ensures
        (x - y) * (b * d) == a * d - c * b,
{
    lemma_scaled(x, a, b, d);
    lemma_scaled(y, c, d, b);
    lemma_distribute(x, y, b * d);
}

/// `(x * y) * (b * d)` for `x * b == a` and `y * d == c`.
pub proof fn lemma_product_scaled(x: real, y: real, a: real, b: real, c: real, d: real)
    by (nonlinear_arith)
    requires
        x * b == a,
        y * d == c,
    ensures
        (x * y) * (b * d) == a * c,
{
}

/// `z * (b * c)` for `z * y == x`, `x * b == a` and `y * d == c`.
pub proof fn lemma_ratio_scaled(z: real, x: real, y: real, a: real, b: real, c: real, d: real)
    by (nonlinear_arith)
    requires
        z * y == x,
        x * b == a,
        y * d == c,
    ensures
        z * (b * c) == a * d,
{
}

/// A product of two nonzero reals is nonzero, and of two positive reals
/// positive.
pub proof fn lemma_product_nonzero(a: real, b: real)
    by (nonlinear_arith)
    requires
        a != 0real,
        b != 0real,
    ensures
        a * b != 0real,
        a > 0real && b > 0real ==> a * b > 0real,
{
}

/// Two ratios are equal exactly when their cross products are.
pub proof fn lemma_cross_products(x: real, y: real, a: real, b: real, c: real, d: real)
    by (nonlinear_arith)
    requires
        x * b == a,
        y * d == c,
        b != 0real,
        d != 0real,
    ensures
        (x == y) <==> (a * d == c * b),
{
}

/// `x * (-b)` for `x * b == a`.
pub proof fn lemma_negate_scaled(x: real, a: real, b: real)
    by (nonlinear_arith)
    requires
        x * b == a,
    ensures
        x * (-b) == -a,
{
}

/// A ratio with a nonzero divisor is zero exactly when its dividend is.
pub proof fn lemma_zero_scaled(x: real, a: real, b: real)
    by (nonlinear_arith)
    requires
        x * b == a,
        b != 0real,
    ensures
        (x == 0real) <==> (a == 0real),
{
}

/// A constant factor moves out of a ratio: `(k * x) / p == k * (x / p)`.
pub proof fn lemma_scale_ratio(k: real, x: real, p: real)
    requires
        p != 0real,
    ensures
        (k * x) / p == k * (x / p),
{
    let q = x / p;
    lemma_div_mul_cancel(x, p);
    assert((k * q) * p == k * x) by (nonlinear_arith)
        requires
            q * p == x,
    ;
    lemma_div_unique(k * x, p, k * q);
}

} // verus!
