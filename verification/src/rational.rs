//! Exact rational numbers in lowest terms, with checked arithmetic.
//!
//! A [`Rational`] denotes a real number, its view. Every operation either
//! returns the exact result or reports that no value of the type denotes it.

use vstd::prelude::*;
use crate::fraction::{in_range, lemma_quotient_add, lemma_quotient_div, lemma_quotient_eq,
    lemma_quotient_mul, lemma_quotient_negate, lemma_quotient_zero, quotient, representable, LIMIT};
use crate::number_theory::{abs, gcd, lemma_gcd_divides, lemma_gcd_positive,
    lemma_gcd_quotients_coprime, lemma_lowest_terms_minimal};
use crate::wide::{gcd_wide, half_range, Wide, TOP_BIT};

verus! {

/// A rational number `num / den` with `den > 0` and `gcd(|num|, den) == 1`.
#[derive(Clone, Copy, Debug, PartialEq, Eq, Structural)]
pub struct Rational {
    num: i128,
    den: i128,
}

impl View for Rational {
    type V = real;

    closed spec fn view(&self) -> real {
        quotient(self.num as int, self.den as int)
    }
}

/// The integer of magnitude `magnitude`, negative where `negative` is set.
spec fn signed(negative: bool, magnitude: nat) -> int {
    if negative {
        -(magnitude as int)
    } else {
        magnitude as int
    }
}

/// The magnitude of a machine integer.
fn magnitude(n: i128) -> (m: u128)
    ensures
        m == abs(n as int),
        m <= TOP_BIT,
        n > i128::MIN ==> m <= LIMIT,
{
    if n == i128::MIN {
        TOP_BIT
    } else if n < 0 {
        (-n) as u128
    } else {
        n as u128
    }
}

/// The product of two in-range magnitudes, which leaves the top two bits
/// of 256 free.
fn product(x: u128, y: u128) -> (w: Wide)
    requires
        x <= LIMIT,
        y <= LIMIT,
    ensures
        w@ == x * y,
        2 * w@ < half_range(),
{
    proof {
        assert(2 * (x * y) < half_range()) by (nonlinear_arith)
            requires
                x < 0x8000_0000_0000_0000_0000_0000_0000_0000,
                y < 0x8000_0000_0000_0000_0000_0000_0000_0000,
                half_range() == 0x8000_0000_0000_0000_0000_0000_0000_0000
                    * 0x1_0000_0000_0000_0000_0000_0000_0000_0000,
        ;
    }
    Wide::mul(x, y)
}

/// A quotient is fixed by its product with a positive divisor and a
/// remainder below the divisor.
proof fn lemma_exact_quotient(n: nat, g: nat, cofactor: nat, q: nat, r: nat)
    by (nonlinear_arith)
    requires
        g > 0,
        n == g * cofactor,
        n == q * g + r,
        r < g,
    ensures
        q == cofactor,
{
}

/// The cross products of a fraction and its lowest terms.
proof fn lemma_reduced_cross(n: int, d: int, sn: int, p: nat, q: nat, g: nat, negative: bool)
    by (nonlinear_arith)
    requires
        n == signed(negative, g * p),
        sn == signed(negative, p),
        d == g * q,
    ensures
        n * q == sn * d,
{
}

impl Rational {
    /// The invariant of the type: in range and in lowest terms.
    #[verifier::type_invariant]
    pub closed spec fn wf(&self) -> bool {
        &&& in_range(self.num as int, self.den as int)
        &&& gcd(abs(self.num as int), self.den as nat) == 1
    }

    /// The numerator of the lowest-terms form.
    pub closed spec fn spec_numer(&self) -> int {
        self.num as int
    }

    /// The denominator of the lowest-terms form.
    pub closed spec fn spec_denom(&self) -> int {
        self.den as int
    }

    /// Brings the fraction of a signed numerator and a denominator to
    /// lowest terms. `None` exactly when its value has no representation.
    fn reduce(negative: bool, n: Wide, d: Wide) -> (res: Option<Rational>)
        requires
            n@ < half_range(),
            0 < d@ < half_range(),
        ensures
            match res {
                Some(q) => q.wf() && q@ == quotient(signed(negative, n@), d@ as int)
                    && representable(q@),
                None => !representable(quotient(signed(negative, n@), d@ as int)),
            },
    {
        let g = gcd_wide(n, d);
        proof {
            lemma_gcd_positive(n@, d@);
        }
        let (p, _) = n.div_rem(&g);
        let (q, _) = d.div_rem(&g);
        let ghost sn: int = signed(negative, p@);
        proof {
            let (cp, cq) = lemma_gcd_divides(n@, d@);
            lemma_exact_quotient(n@, g@, cp, p@, n@ % g@);
            lemma_exact_quotient(d@, g@, cq, q@, d@ % g@);
            lemma_gcd_quotients_coprime(n@, d@, p@, q@);
            assert(q@ > 0) by (nonlinear_arith)
                requires
                    d@ == g@ * q@,
                    d@ > 0,
            ;
            assert(abs(sn) == p@);
            lemma_reduced_cross(signed(negative, n@), d@ as int, sn, p@, q@, g@, negative);
            lemma_quotient_eq(signed(negative, n@), d@ as int, sn, q@ as int);
        }
        let fitting = match (p.to_u128(), q.to_u128()) {
            (Some(pn), Some(qn)) => if pn <= LIMIT as u128 && qn <= LIMIT as u128 {
                Some((pn, qn))
            } else {
                None
            },
            _ => None,
        };
        match fitting {
            Some((pn, qn)) => {
                let num: i128 = if negative {
                    -(pn as i128)
                } else {
                    pn as i128
                };
                let reduced = Rational { num, den: qn as i128 };
                proof {
                    lemma_wf_representable(reduced);
                }
                Some(reduced)
            },
            None => {
                proof {
                    assert(p@ > LIMIT || q@ > LIMIT);
                    assert forall|n2: int, d2: int| in_range(n2, d2) implies #[trigger] quotient(
                        n2,
                        d2,
                    ) != quotient(signed(negative, n@), d@ as int) by {
                        if quotient(n2, d2) == quotient(signed(negative, n@), d@ as int) {
                            lemma_quotient_eq(n2, d2, sn, q@ as int);
                            lemma_lowest_terms_minimal(sn, q@ as int, n2, d2);
                        }
                    }
                }
                None
            },
        }
    }

    /// The fraction `num / den` in lowest terms. `None` when `den` is zero
    /// or the value has no representation.
    pub fn new(num: i128, den: i128) -> (res: Option<Rational>)
        ensures
            match res {
                Some(q) => den != 0 && q@ == quotient(num as int, den as int) && representable(q@),
                None => den == 0 || !representable(quotient(num as int, den as int)),
            },
    {
        if den == 0 {
            return None;
        }
        let n = Wide::from_u128(magnitude(num));
        let d = Wide::from_u128(magnitude(den));
        proof {
            assert(TOP_BIT < half_range());
            if den < 0 {
                lemma_quotient_negate(num as int, den as int);
            }
        }
        Rational::reduce((num < 0) != (den < 0), n, d)
    }

    /// The integer `n`. `None` only for the one integer below `-LIMIT`.
    pub fn from_integer(n: i128) -> (res: Option<Rational>)
        ensures
            match res {
                Some(q) => q@ == n as real && representable(q@),
                None => !representable(n as real),
            },
    {
        proof {
            lemma_quotient_zero(n as int, 1);
            assert(TOP_BIT < half_range());
        }
        Rational::reduce(n < 0, Wide::from_u128(magnitude(n)), Wide::from_u128(1))
    }

    /// The fraction `num / den` that is in range and in lowest terms already.
    pub(crate) fn from_lowest_terms(num: i128, den: i128) -> (q: Rational)
        requires
            in_range(num as int, den as int),
            gcd(abs(num as int), den as nat) == 1,
        ensures
            q@ == quotient(num as int, den as int),
            representable(q@),
    {
        let q = Rational { num, den };
        proof {
            lemma_wf_representable(q);
        }
        q
    }

    /// The integer `n`, for every `n` that a numerator can hold.
    pub(crate) fn integer(n: i128) -> (q: Rational)
        requires
            -LIMIT <= n,
        ensures
            q@ == n as real,
            representable(q@),
    {
        proof {
            lemma_quotient_zero(n as int, 1);
            reveal_with_fuel(gcd, 3);
        }
        let q = Rational { num: n, den: 1 };
        proof {
            lemma_wf_representable(q);
        }
        q
    }

    /// The integer `n`; every 64-bit integer has a representation.
    pub fn from_i64(n: i64) -> (q: Rational)
        ensures
            q@ == n as real,
            representable(q@),
    {
        Rational::integer(n as i128)
    }

    /// The numerator of the lowest-terms form.
    pub fn numer(&self) -> (n: i128)
        ensures
            n == self.spec_numer(),
    {
        self.num
    }

    /// The denominator of the lowest-terms form, always positive.
    pub fn denom(&self) -> (d: i128)
        ensures
            d == self.spec_denom(),
            d > 0,
    {
        proof {
            use_type_invariant(self);
        }
        self.den
    }

    /// Whether the value is zero.
    pub fn is_zero(&self) -> (z: bool)
        ensures
            z == (self@ == 0real),
    {
        proof {
            use_type_invariant(self);
            lemma_quotient_zero(self.num as int, self.den as int);
        }
        self.num == 0
    }

    /// `self + rhs`, or `self - rhs` where `subtract` is set, over the
    /// product of the denominators and then in lowest terms.
    fn combine(&self, rhs: &Rational, subtract: bool) -> (res: Option<Rational>)
        ensures
            match res {
                Some(q) => representable(q@) && q@ == if subtract {
                    self@ - rhs@
                } else {
                    self@ + rhs@
                },
                None => !representable(
                    if subtract {
                        self@ - rhs@
                    } else {
                        self@ + rhs@
                    },
                ),
            },
    {
        proof {
            use_type_invariant(self);
            use_type_invariant(rhs);
            lemma_quotient_add(self.num as int, self.den as int, rhs.num as int, rhs.den as int);
        }
        let left = product(magnitude(self.num), magnitude(rhs.den));
        let right = product(magnitude(rhs.num), magnitude(self.den));
        let den = product(magnitude(self.den), magnitude(rhs.den));
        let left_negative = self.num < 0;
        let right_negative = (rhs.num < 0) != subtract;
        let ghost a = self.num as int;
        let ghost b = self.den as int;
        let ghost c = rhs.num as int;
        let ghost d = rhs.den as int;
        proof {
            assert(den@ > 0) by (nonlinear_arith)
                requires
                    den@ == b * d,
                    b > 0,
                    d > 0,
            ;
            assert(signed(left_negative, left@) == a * d) by (nonlinear_arith)
                requires
                    left@ == abs(a) * d,
                    left_negative == (a < 0),
                    abs(a) == if a < 0 {
                        -a
                    } else {
                        a
                    },
            ;
            assert(signed(rhs.num < 0, right@) == c * b) by (nonlinear_arith)
                requires
                    right@ == abs(c) * b,
                    (rhs.num < 0) == (c < 0),
                    abs(c) == if c < 0 {
                        -c
                    } else {
                        c
                    },
            ;
        }
        if left_negative == right_negative {
            Rational::reduce(left_negative, left.add(&right), den)
        } else if left.ge(&right) {
            Rational::reduce(left_negative, left.sub(&right), den)
        } else {
            Rational::reduce(right_negative, right.sub(&left), den)
        }
    }

    /// Exact sum, or `None` when the sum has no representation.
    pub fn checked_add(&self, rhs: &Rational) -> (res: Option<Rational>)
        ensures
            match res {
                Some(q) => q@ == self@ + rhs@ && representable(q@),
                None => !representable(self@ + rhs@),
            },
    {
        self.combine(rhs, false)
    }

    /// Exact difference, or `None` when it has no representation.
    pub fn checked_sub(&self, rhs: &Rational) -> (res: Option<Rational>)
        ensures
            match res {
                Some(q) => q@ == self@ - rhs@ && representable(q@),
                None => !representable(self@ - rhs@),
            },
    {
        self.combine(rhs, true)
    }

    /// Exact product, or `None` when it has no representation.
    pub fn checked_mul(&self, rhs: &Rational) -> (res: Option<Rational>)
        ensures
            match res {
                Some(q) => q@ == self@ * rhs@ && representable(q@),
                None => !representable(self@ * rhs@),
            },
    {
        proof {
            use_type_invariant(self);
            use_type_invariant(rhs);
            lemma_quotient_mul(self.num as int, self.den as int, rhs.num as int, rhs.den as int);
        }
        let num = product(magnitude(self.num), magnitude(rhs.num));
        let den = product(magnitude(self.den), magnitude(rhs.den));
        let negative = (self.num < 0) != (rhs.num < 0);
        let ghost a = self.num as int;
        let ghost b = self.den as int;
        let ghost c = rhs.num as int;
        let ghost d = rhs.den as int;
        proof {
            assert(den@ == b * d && den@ > 0) by (nonlinear_arith)
                requires
                    den@ == b * d,
                    b > 0,
                    d > 0,
            ;
            assert(signed(negative, num@) == a * c) by (nonlinear_arith)
                requires
                    num@ == abs(a) * abs(c),
                    negative == ((a < 0) != (c < 0)),
                    abs(a) == if a < 0 {
                        -a
                    } else {
                        a
                    },
                    abs(c) == if c < 0 {
                        -c
                    } else {
                        c
                    },
            ;
        }
        Rational::reduce(negative, num, den)
    }

    /// Exact ratio. `None` when `rhs` is zero or the ratio has no
    /// representation.
    pub fn checked_div(&self, rhs: &Rational) -> (res: Option<Rational>)
        ensures
            match res {
                Some(q) => rhs@ != 0real && q@ == self@ / rhs@ && representable(q@),
                None => rhs@ == 0real || !representable(self@ / rhs@),
            },
    {
        proof {
            use_type_invariant(self);
            use_type_invariant(rhs);
            lemma_quotient_zero(rhs.num as int, rhs.den as int);
        }
        if rhs.num == 0 {
            return None;
        }
        let num = product(magnitude(self.num), magnitude(rhs.den));
        let den = product(magnitude(self.den), magnitude(rhs.num));
        let negative = (self.num < 0) != (rhs.num < 0);
        let ghost a = self.num as int;
        let ghost b = self.den as int;
        let ghost c = rhs.num as int;
        let ghost d = rhs.den as int;
        proof {
            lemma_quotient_div(a, b, c, d);
            assert(den@ > 0 && den@ == if c > 0 {
                b * c
            } else {
                b * (-c)
            }) by (nonlinear_arith)
                requires
                    den@ == b * abs(c),
                    b > 0,
                    c != 0,
                    abs(c) == if c < 0 {
                        -c
                    } else {
                        c
                    },
            ;
            assert(signed(negative, num@) == if c > 0 {
                a * d
            } else {
                -(a * d)
            }) by (nonlinear_arith)
                requires
                    num@ == abs(a) * d,
                    negative == ((a < 0) != (c < 0)),
                    c != 0,
                    abs(a) == if a < 0 {
                        -a
                    } else {
                        a
                    },
            ;
        }
        Rational::reduce(negative, num, den)
    }

    /// The reciprocal, which every value but zero has.
    pub fn recip(&self) -> (res: Option<Rational>)
        ensures
            match res {
                Some(q) => self@ != 0real && q@ == 1real / self@ && representable(q@),
                None => self@ == 0real,
            },
    {
        proof {
            use_type_invariant(self);
            lemma_quotient_zero(self.num as int, self.den as int);
            lemma_quotient_zero(1, 1);
            if self.num != 0 {
                lemma_quotient_div(1, 1, self.num as int, self.den as int);
                assert(1 * self.den == self.den && 1 * self.num == self.num);
                if self.num > 0 {
                    assert(in_range(self.den as int, self.num as int));
                } else {
                    assert(in_range(-(self.den as int), -(self.num as int)));
                }
            }
        }
        let one = Rational::from_i64(1);
        one.checked_div(self)
    }
}

/// The view of a value is its numerator over its denominator, which are in
/// range and in lowest terms.
pub proof fn lemma_view_is_quotient(q: Rational)
    requires
        q.wf(),
    ensures
        q@ == quotient(q.spec_numer(), q.spec_denom()),
        in_range(q.spec_numer(), q.spec_denom()),
        gcd(abs(q.spec_numer()), q.spec_denom() as nat) == 1,
{
}

/// Every value of the type denotes a representable real.
pub proof fn lemma_wf_representable(q: Rational)
    requires
        q.wf(),
    ensures
        representable(q@),
{
    assert(in_range(q.num as int, q.den as int) && quotient(q.num as int, q.den as int) == q@);
}

/// Two values of the type that denote the same real are the same value.
pub proof fn lemma_view_injective(a: Rational, b: Rational)
    requires
        a.wf(),
        b.wf(),
        a@ == b@,
    ensures
        a == b,
{
    lemma_quotient_eq(a.num as int, a.den as int, b.num as int, b.den as int);
    let m = lemma_lowest_terms_minimal(a.num as int, a.den as int, b.num as int, b.den as int);
    let k = lemma_lowest_terms_minimal(b.num as int, b.den as int, a.num as int, a.den as int);
    assert(m == 1) by (nonlinear_arith)
        requires
            b.den == m * a.den,
            a.den == k * b.den,
            m >= 1,
            k >= 1,
            a.den > 0,
    ;
    assert(b.num == a.num) by (nonlinear_arith)
        requires
            b.num == m * a.num,
            m == 1,
    ;
    assert(b.den == a.den) by (nonlinear_arith)
        requires
            b.den == m * a.den,
            m == 1,
    ;
}

} // verus!
