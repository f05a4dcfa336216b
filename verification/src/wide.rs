//! Unsigned 256-bit integers: wide enough for the product of two 128-bit
//! integers, with the division and the greatest common divisor that bring a
//! fraction of such products to lowest terms.

use vstd::prelude::*;
use vstd::arithmetic::div_mod::lemma_fundamental_div_mod_converse_mod;
use vstd::arithmetic::power2::{lemma2_to64, lemma_pow2_adds, lemma_pow2_unfold, pow2};
use crate::number_theory::gcd;

verus! {

/// Two to the 64th, the base of the half words of a product.
pub const HALF_WORD: u128 = 0x1_0000_0000_0000_0000;

/// Two to the 127th, the top bit of a word.
pub const TOP_BIT: u128 = 0x8000_0000_0000_0000_0000_0000_0000_0000;

/// Two to the 128th, the base of the two words.
pub open spec fn base() -> nat {
    0x1_0000_0000_0000_0000_0000_0000_0000_0000nat
}

/// Two to the 255th: below it, a value can be doubled.
pub open spec fn half_range() -> nat {
    0x8000_0000_0000_0000_0000_0000_0000_0000nat * base()
}

/// The powers of two that the two words rest on.
pub proof fn lemma_powers_of_two()
    ensures
        pow2(64) == HALF_WORD,
        pow2(127) == TOP_BIT,
        pow2(128) == base(),
        pow2(255) == half_range(),
        pow2(256) == base() * base(),
        pow2(256) == 2 * half_range(),
{
    lemma2_to64();
    lemma_pow2_adds(32, 31);
    lemma_pow2_adds(64, 63);
    lemma_pow2_adds(64, 64);
    lemma_pow2_adds(127, 128);
    lemma_pow2_adds(128, 128);
    lemma_pow2_unfold(256);
    assert(pow2(63) == 0x8000_0000_0000_0000);
}

/// An unsigned integer of 256 bits, `hi * 2^128 + lo`.
#[derive(Clone, Copy, Debug)]
pub struct Wide {
    hi: u128,
    lo: u128,
}

impl View for Wide {
    type V = nat;

    closed spec fn view(&self) -> nat {
        self.hi as nat * base() + self.lo as nat
    }
}

/// The four partial products of two split words add up to the product.
proof fn lemma_split_product(a1: int, a0: int, b1: int, b0: int, s: int)
    ensures
        (a1 * s + a0) * (b1 * s + b0) == (a1 * b1) * (s * s) + (a0 * b1 + a1 * b0) * s + a0 * b0,
{
    let b = b1 * s + b0;
    assert((a1 * s + a0) * b == (a1 * s) * b + a0 * b) by (nonlinear_arith);
    assert((a1 * s) * b == (a1 * s) * (b1 * s) + (a1 * s) * b0) by (nonlinear_arith)
        requires
            b == b1 * s + b0,
    ;
    assert(a0 * b == a0 * (b1 * s) + a0 * b0) by (nonlinear_arith)
        requires
            b == b1 * s + b0,
    ;
    assert((a1 * s) * (b1 * s) == (a1 * b1) * (s * s)) by (nonlinear_arith);
    assert((a1 * s) * b0 == (a1 * b0) * s) by (nonlinear_arith);
    assert(a0 * (b1 * s) == (a0 * b1) * s) by (nonlinear_arith);
    assert((a0 * b1 + a1 * b0) * s == (a0 * b1) * s + (a1 * b0) * s) by (nonlinear_arith);
}

/// A product of two half words fits a word with room to spare.
proof fn lemma_half_word_product(x: nat, y: nat)
    by (nonlinear_arith)
    requires
        x < 0x1_0000_0000_0000_0000,
        y < 0x1_0000_0000_0000_0000,
    ensures
        x * y <= 0xffff_ffff_ffff_ffff * 0xffff_ffff_ffff_ffff,
{
}

impl Wide {
    /// The value of a single word.
    pub fn from_u128(x: u128) -> (w: Wide)
        ensures
            w@ == x,
    {
        Wide { hi: 0, lo: x }
    }

    /// The value as a single word, where it fits one.
    pub fn to_u128(&self) -> (res: Option<u128>)
        ensures
            match res {
                Some(x) => x == self@,
                None => self@ >= base(),
            },
    {
        if self.hi == 0 {
            Some(self.lo)
        } else {
            None
        }
    }

    /// Whether the value is zero.
    pub fn is_zero(&self) -> (z: bool)
        ensures
            z == (self@ == 0),
    {
        self.hi == 0 && self.lo == 0
    }

    /// Whether `self >= other`.
    pub fn ge(&self, other: &Wide) -> (b: bool)
        ensures
            b == (self@ >= other@),
    {
        self.hi > other.hi || (self.hi == other.hi && self.lo >= other.lo)
    }

    /// The sum, where it fits 256 bits.
    pub fn add(&self, other: &Wide) -> (w: Wide)
        requires
            self@ + other@ < base() * base(),
        ensures
            w@ == self@ + other@,
    {
        if self.lo > u128::MAX - other.lo {
            let lo: u128 = self.lo - (u128::MAX - other.lo) - 1;
            Wide { hi: self.hi + other.hi + 1, lo }
        } else {
            Wide { hi: self.hi + other.hi, lo: self.lo + other.lo }
        }
    }

    /// The difference, where it is not negative.
    pub fn sub(&self, other: &Wide) -> (w: Wide)
        requires
            self@ >= other@,
        ensures
            w@ == self@ - other@,
    {
        if self.lo >= other.lo {
            Wide { hi: self.hi - other.hi, lo: self.lo - other.lo }
        } else {
            let lo: u128 = u128::MAX - (other.lo - self.lo) + 1;
            Wide { hi: self.hi - other.hi - 1, lo }
        }
    }

    /// The full product of two words.
    pub fn mul(a: u128, b: u128) -> (w: Wide)
        ensures
            w@ == a * b,
    {
        let a1: u128 = a / HALF_WORD;
        let a0: u128 = a % HALF_WORD;
        let b1: u128 = b / HALF_WORD;
        let b0: u128 = b % HALF_WORD;
        proof {
            lemma_half_word_product(a0 as nat, b0 as nat);
            lemma_half_word_product(a0 as nat, b1 as nat);
            lemma_half_word_product(a1 as nat, b0 as nat);
            lemma_half_word_product(a1 as nat, b1 as nat);
        }
        let low_low: u128 = a0 * b0;
        let low_high: u128 = a0 * b1;
        let high_low: u128 = a1 * b0;
        let high_high: u128 = a1 * b1;
        let low_low_hi: u128 = low_low / HALF_WORD;
        let low_low_lo: u128 = low_low % HALF_WORD;
        let middle: u128 = low_high + low_low_hi;
        let middle_hi: u128 = middle / HALF_WORD;
        let middle_lo: u128 = middle % HALF_WORD;
        let carried: u128 = high_low + middle_lo;
        let carried_hi: u128 = carried / HALF_WORD;
        let carried_lo: u128 = carried % HALF_WORD;
        let lo: u128 = carried_lo * HALF_WORD + low_low_lo;
        let hi: u128 = high_high + middle_hi + carried_hi;
        proof {
            lemma_split_product(
                a1 as int,
                a0 as int,
                b1 as int,
                b0 as int,
                0x1_0000_0000_0000_0000,
            );
            assert(a == a1 * 0x1_0000_0000_0000_0000 + a0);
            assert(b == b1 * 0x1_0000_0000_0000_0000 + b0);
            assert(0x1_0000_0000_0000_0000int * 0x1_0000_0000_0000_0000int
                == 0x1_0000_0000_0000_0000_0000_0000_0000_0000int);
            assert(a * b == high_high * 0x1_0000_0000_0000_0000_0000_0000_0000_0000 + (low_high
                + high_low) * 0x1_0000_0000_0000_0000 + low_low);
        }
        Wide { hi, lo }
    }

    /// Whether the top bit is set.
    fn top_bit(&self) -> (b: bool)
        ensures
            b == (self@ >= half_range()),
    {
        self.hi >= TOP_BIT
    }

    /// The value without its top bit.
    fn without_top_bit(&self) -> (w: Wide)
        ensures
            w@ == if self@ >= half_range() {
                self@ - half_range()
            } else {
                self@ as int
            },
            w@ < half_range(),
    {
        if self.hi >= TOP_BIT {
            Wide { hi: self.hi - TOP_BIT, lo: self.lo }
        } else {
            Wide { hi: self.hi, lo: self.lo }
        }
    }

    /// Twice the value, plus one where `bit` is set.
    fn double(&self, bit: bool) -> (w: Wide)
        requires
            self@ < half_range(),
        ensures
            w@ == 2 * self@ + if bit {
                1nat
            } else {
                0nat
            },
    {
        let low: u128 = if bit {
            1
        } else {
            0
        };
        if self.lo >= TOP_BIT {
            Wide { hi: 2 * self.hi + 1, lo: 2 * (self.lo - TOP_BIT) + low }
        } else {
            Wide { hi: 2 * self.hi, lo: 2 * self.lo + low }
        }
    }

    /// Quotient and remainder of the division by `divisor`, bit by bit from
    /// the top.
    pub fn div_rem(&self, divisor: &Wide) -> (qr: (Wide, Wide))
        requires
            0 < divisor@ < half_range(),
        ensures
            self@ == qr.0@ * divisor@ + qr.1@,
            qr.1@ < divisor@,
            qr.1@ == self@ % divisor@,
    {
        let mut rest = *self;
        let mut quotient = Wide::from_u128(0);
        let mut remainder = Wide::from_u128(0);
        let mut done: u32 = 0;
        let ghost mut scale: int = self@ as int;
        proof {
            lemma_powers_of_two();
            lemma2_to64();
            assert(self@ * 1 == (0 * divisor@ + 0) * pow2(256) + self@) by (nonlinear_arith);
            assert(rest@ == scale * 1) by (nonlinear_arith)
                requires
                    rest@ == scale,
            ;
        }
        while done < 256
            invariant
                done <= 256,
                0 < divisor@ < half_range(),
                self@ * pow2(done as nat) == (quotient@ * divisor@ + remainder@) * pow2(256)
                    + rest@,
                rest@ == scale * pow2(done as nat),
                rest@ < base() * base(),
                remainder@ < divisor@,
                quotient@ < pow2(done as nat),
            decreases 256 - done,
        {
            let ghost k = done as nat;
            let ghost q0 = quotient@;
            let ghost r0 = remainder@;
            let ghost w0 = rest@;
            let bit = rest.top_bit();
            let ghost b: nat = if bit {
                1
            } else {
                0
            };
            proof {
                lemma_powers_of_two();
                lemma_pow2_unfold(k + 1);
                lemma_pow2_adds(k + 1, (255 - k) as nat);
                if k < 255 {
                    vstd::arithmetic::power2::lemma_pow2_strictly_increases(k, 255);
                }
            }
            rest = rest.without_top_bit().double(false);
            remainder = remainder.double(bit);
            quotient = quotient.double(false);
            let ghost q1 = quotient@;
            let ghost r1 = remainder@;
            proof {
                assert(rest@ == 2 * w0 - b * pow2(256));
                lemma_division_step(
                    self@ as int,
                    divisor@ as int,
                    q0 as int,
                    r0 as int,
                    w0 as int,
                    b as int,
                    pow2(k) as int,
                    pow2(256) as int,
                );
                lemma_scale_step(
                    scale,
                    w0 as int,
                    b as int,
                    pow2(k) as int,
                    pow2((255 - k) as nat) as int,
                    pow2(256) as int,
                );
                scale = scale - b * pow2((255 - k) as nat);
            }
            if remainder.ge(divisor) {
                remainder = remainder.sub(divisor);
                quotient = quotient.double_fix_one();
                proof {
                    assert((q1 + 1) * divisor@ + (r1 - divisor@) == q1 * divisor@ + r1)
                        by (nonlinear_arith);
                }
            }
            done = done + 1;
        }
        proof {
            lemma_powers_of_two();
            lemma_rest_vanishes(scale, rest@ as int, pow2(256) as int);
            assert(self@ == quotient@ * divisor@ + remainder@) by (nonlinear_arith)
                requires
                    self@ * pow2(256) == (quotient@ * divisor@ + remainder@) * pow2(256),
                    pow2(256) > 0,
            ;
            lemma_fundamental_div_mod_converse_mod(
                self@ as int,
                divisor@ as int,
                quotient@ as int,
                remainder@ as int,
            );
        }
        (quotient, remainder)
    }

    /// The value plus one, for an even value.
    fn double_fix_one(&self) -> (w: Wide)
        requires
            self@ % 2 == 0,
        ensures
            w@ == self@ + 1,
    {
        proof {
            assert(base() % 2 == 0);
            assert((self.hi as nat * base()) % 2 == 0) by (nonlinear_arith)
                requires
                    base() % 2 == 0,
            ;
        }
        Wide { hi: self.hi, lo: self.lo + 1 }
    }
}

/// One step of the long division keeps the dividend's leading bits equal to
/// quotient times divisor plus remainder.
proof fn lemma_division_step(x: int, d: int, q: int, r: int, w: int, b: int, p: int, top: int)
    by (nonlinear_arith)
    requires
        x * p == (q * d + r) * top + w,
    ensures
        x * (2 * p) == ((2 * q) * d + (2 * r + b)) * top + (2 * w - b * top),
{
}

/// One step of the long division keeps the rest a multiple of the power of
/// two that it was shifted by.
proof fn lemma_scale_step(m: int, w: int, b: int, p: int, t: int, top: int)
    by (nonlinear_arith)
    requires
        w == m * p,
        (2 * p) * t == top,
    ensures
        2 * w - b * top == (m - b * t) * (2 * p),
{
}

/// A multiple of `top` in `[0, top)` is zero.
proof fn lemma_rest_vanishes(m: int, w: int, top: int)
    by (nonlinear_arith)
    requires
        w == m * top,
        0 <= w < top,
    ensures
        w == 0,
{
}

/// Euclid's algorithm on 256-bit integers.
pub fn gcd_wide(a: Wide, b: Wide) -> (g: Wide)
    requires
        a@ < half_range(),
        b@ < half_range(),
    ensures
        g@ == gcd(a@, b@),
        g@ < half_range(),
{
    let mut x = a;
    let mut y = b;
    while !y.is_zero()
        invariant
            gcd(x@, y@) == gcd(a@, b@),
            x@ < half_range(),
            y@ < half_range(),
        decreases y@,
    {
        let (_, r) = x.div_rem(&y);
        x = y;
        y = r;
    }
    x
}

} // verus!
