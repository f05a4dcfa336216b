//! Fractions of integers as real numbers, and which reals a pair of machine
//! integers can denote.

use vstd::prelude::*;
use crate::real_arith::{lemma_cross_products, lemma_difference_scaled, lemma_div_mul_cancel,
    lemma_div_unique, lemma_negate_scaled, lemma_product_nonzero, lemma_product_scaled,
    lemma_ratio_scaled, lemma_real_of_product, lemma_zero_scaled, lemma_sum_scaled};

verus! {

/// Largest magnitude of a numerator, and largest denominator.
pub const LIMIT: i128 = 170_141_183_460_469_231_731_687_303_715_884_105_727;

/// The real number `n / d`.
pub open spec fn quotient(n: int, d: int) -> real {
    n as real / d as real
}

/// Whether `n` and `d` can be the fields of a [`Rational`], lowest terms aside.
pub open spec fn in_range(n: int, d: int) -> bool {
    -LIMIT <= n <= LIMIT && 1 <= d <= LIMIT
}

/// Whether some [`Rational`] denotes `r`.
pub open spec fn representable(r: real) -> bool {
    exists|n: int, d: int| in_range(n, d) && #[trigger] quotient(n, d) == r
}

/// Two fractions are equal exactly when their cross products are.
pub proof fn lemma_quotient_eq(n: int, d: int, n2: int, d2: int)
    requires
        d > 0,
        d2 > 0,
    ensures
        quotient(n, d) == quotient(n2, d2) <==> n * d2 == n2 * d,
{
    let x = quotient(n, d);
    let y = quotient(n2, d2);
    lemma_div_mul_cancel(n as real, d as real);
    lemma_div_mul_cancel(n2 as real, d2 as real);
    lemma_real_of_product(n, d2);
    lemma_real_of_product(n2, d);
    lemma_cross_products(x, y, n as real, d as real, n2 as real, d2 as real);
    assert(((n * d2) as real == (n2 * d) as real) <==> (n * d2 == n2 * d));
}

/// The sum and the difference of two fractions, over the product of the
/// denominators.
pub proof fn lemma_quotient_add(a: int, b: int, c: int, d: int)
    requires
        b > 0,
        d > 0,
    ensures
        quotient(a, b) + quotient(c, d) == quotient(a * d + c * b, b * d),
        quotient(a, b) - quotient(c, d) == quotient(a * d - c * b, b * d),
{
    let x = quotient(a, b);
    let y = quotient(c, d);
    lemma_div_mul_cancel(a as real, b as real);
    lemma_div_mul_cancel(c as real, d as real);
    lemma_real_of_product(a, d);
    lemma_real_of_product(c, b);
    lemma_real_of_product(b, d);
    lemma_product_nonzero(b as real, d as real);
    lemma_sum_scaled(x, y, a as real, b as real, c as real, d as real);
    lemma_difference_scaled(x, y, a as real, b as real, c as real, d as real);
    lemma_div_unique((a * d + c * b) as real, (b * d) as real, x + y);
    lemma_div_unique((a * d - c * b) as real, (b * d) as real, x - y);
}

/// The product of two fractions.
pub proof fn lemma_quotient_mul(a: int, b: int, c: int, d: int)
    requires
        b > 0,
        d > 0,
    ensures
        quotient(a, b) * quotient(c, d) == quotient(a * c, b * d),
{
    let x = quotient(a, b);
    let y = quotient(c, d);
    lemma_div_mul_cancel(a as real, b as real);
    lemma_div_mul_cancel(c as real, d as real);
    lemma_real_of_product(a, c);
    lemma_real_of_product(b, d);
    lemma_product_nonzero(b as real, d as real);
    lemma_product_scaled(x, y, a as real, b as real, c as real, d as real);
    lemma_div_unique((a * c) as real, (b * d) as real, x * y);
}

/// Negating both parts of a fraction keeps its value.
pub proof fn lemma_quotient_negate(a: int, b: int)
    requires
        b != 0,
    ensures
        quotient(a, b) == quotient(-a, -b),
{
    let x = quotient(a, b);
    lemma_div_mul_cancel(a as real, b as real);
    lemma_negate_scaled(x, a as real, b as real);
    assert((-a) as real == -(a as real));
    assert((-b) as real == -(b as real));
    lemma_div_unique((-a) as real, (-b) as real, x);
}

/// A fraction is zero exactly when its numerator is; over one it is its
/// numerator.
pub proof fn lemma_quotient_zero(a: int, b: int)
    requires
        b > 0,
    ensures
        quotient(a, b) == 0real <==> a == 0,
        quotient(a, 1) == a as real,
{
    let x = quotient(a, b);
    lemma_div_mul_cancel(a as real, b as real);
    lemma_zero_scaled(x, a as real, b as real);
    assert((a as real == 0real) <==> (a == 0));
    assert(1int as real == 1real);
    lemma_div_unique(a as real, 1int as real, a as real);
}

/// The ratio of two fractions with a positive or a negative divisor.
pub proof fn lemma_quotient_div(a: int, b: int, c: int, d: int)
    requires
        b > 0,
        d > 0,
        c != 0,
    ensures
        quotient(c, d) != 0real,
        c > 0 ==> quotient(a, b) / quotient(c, d) == quotient(a * d, b * c),
        c < 0 ==> quotient(a, b) / quotient(c, d) == quotient(-(a * d), b * (-c)),
{
    let x = quotient(a, b);
    let y = quotient(c, d);
    lemma_quotient_zero(c, d);
    let z = x / y;
    lemma_div_mul_cancel(x, y);
    lemma_div_mul_cancel(a as real, b as real);
    lemma_div_mul_cancel(c as real, d as real);
    lemma_real_of_product(a, d);
    lemma_real_of_product(b, c);
    lemma_product_nonzero(b as real, c as real);
    lemma_ratio_scaled(z, x, y, a as real, b as real, c as real, d as real);
    lemma_div_unique((a * d) as real, (b * c) as real, z);
    if c < 0 {
        assert(b * (-c) == -(b * c)) by (nonlinear_arith);
        lemma_quotient_negate(a * d, b * c);
    }
}

/// A fraction of in-range parts is representable.
pub proof fn lemma_fraction_representable(n: int, d: int)
    requires
        in_range(n, d),
    ensures
        representable(quotient(n, d)),
{
}

/// An integer of in-range magnitude is representable.
pub proof fn lemma_integer_representable(n: int)
    requires
        -LIMIT <= n <= LIMIT,
    ensures
        representable(n as real),
{
    lemma_quotient_zero(n, 1);
    assert(in_range(n, 1));
}

} // verus!
