//! Binary floating-point arithmetic carried out on integers.
//!
//! A positive value is held as `mantissa * 2^exponent` with a mantissa of full
//! width, and every operation rounds to the nearest such value, ties going to
//! the even mantissa. Exponents are unbounded: overflow is decided by the
//! callers that can meet it.

use vstd::arithmetic::power2::{
    lemma_pow2_adds, lemma_pow2_pos, lemma_pow2_strictly_increases, lemma_pow2_unfold, pow2,
};
use vstd::prelude::*;

verus! {

/// Mantissas of single precision lie below this power of two.
pub const SINGLE: u128 = 0x100_0000;

/// Mantissas of double precision lie below this power of two.
pub const DOUBLE: u128 = 0x20_0000_0000_0000;

/// The number `mantissa * 2^exponent`.
pub struct Fraction {
    pub mantissa: int,
    pub exponent: int,
}

/// A positive number `mantissa * 2^exponent`.
#[derive(Clone, Copy, Debug, PartialEq, Eq, Structural)]
pub struct Binary {
    pub mantissa: u64,
    pub exponent: i32,
}

impl View for Binary {
    type V = Fraction;

    open spec fn view(&self) -> Fraction {
        Fraction { mantissa: self.mantissa as int, exponent: self.exponent as int }
    }
}

/// `2^e`, or 1 where `e` is negative.
pub open spec fn grow(e: int) -> nat {
    if e > 0 {
        pow2(e as nat)
    } else {
        1
    }
}

/// The quotient `n / d` lies in the interval from `limit / 2 * 2^e` up to, and
/// without, `limit * 2^e`.
pub open spec fn fits(n: nat, d: nat, limit: nat, e: int) -> bool {
    &&& limit * (d * grow(e)) <= 2 * (n * grow(-e))
    &&& n * grow(-e) < limit * (d * grow(e))
}

/// The integer nearest to `n / d`, the even one of two that are equally near.
pub open spec fn half_even(n: nat, d: nat) -> int {
    let q = n / d;
    let r = n % d;
    if 2 * r < d || (2 * r == d && q % 2 == 0) {
        q as int
    } else {
        (q + 1) as int
    }
}

/// The exponent at which `n / d` has a full-width mantissa.
pub open spec fn scale_of(n: nat, d: nat, limit: nat) -> int {
    choose|e: int| fits(n, d, limit, e)
}

/// `n / d` rounded to a mantissa below `limit`.
pub open spec fn round(n: nat, d: nat, limit: nat) -> Fraction {
    let e = scale_of(n, d, limit);
    let m = half_even(n * grow(-e), d * grow(e));
    if m == limit {
        Fraction { mantissa: limit as int / 2, exponent: e + 1 }
    } else {
        Fraction { mantissa: m, exponent: e }
    }
}

/// Mantissas of full width lie from half of this up to, and without, this.
pub open spec fn is_limit(limit: nat) -> bool {
    limit >= 4 && limit % 2 == 0
}

pub(crate) proof fn lemma_grow_step(e: int)
    requires
        e >= 0,
    ensures
        grow(e + 1) == 2 * grow(e),
{
    lemma_pow2_unfold((e + 1) as nat);
    if e == 0 {
        vstd::arithmetic::power2::lemma2_to64();
    }
}

pub(crate) proof fn lemma_grow_pos(e: int)
    ensures
        grow(e) > 0,
{
    if e > 0 {
        lemma_pow2_pos(e as nat);
    }
}

pub(crate) proof fn lemma_grow_add(a: int, b: int)
    requires
        a >= 0,
        b >= 0,
    ensures
        grow(a + b) == grow(a) * grow(b),
{
    if a > 0 && b > 0 {
        lemma_pow2_adds(a as nat, b as nat);
    }
}

proof fn lemma_fits_order(n: nat, d: nat, limit: nat, e1: int, e2: int)
    requires
        n > 0,
        d > 0,
        limit > 0,
        fits(n, d, limit, e1),
        fits(n, d, limit, e2),
    ensures
        e1 >= e2,
{
    if e1 < e2 {
        let (u1, u2): (int, int) = (if e1 > 0 { e1 } else { 0 }, if e2 > 0 { e2 } else { 0 });
        let (v1, v2): (int, int) = (if e1 < 0 { -e1 } else { 0 }, if e2 < 0 { -e2 } else { 0 });
        let w = v1 - v2;
        let t = u2 - u1 + w;
        lemma_grow_add(v2, w);
        lemma_grow_add(u1, t);
        lemma_grow_add(u2, w);
        assert(grow(t) >= 2) by {
            lemma_grow_step(t - 1);
            lemma_grow_pos(t - 1);
        }
        lemma_grow_pos(u1);
        lemma_grow_pos(w);
        let (gu1, gt, gu2, gw, gv2) = (grow(u1), grow(t), grow(u2), grow(w), grow(v2));
        assert(u1 + t == u2 + w);
        // The upper bound at `e1` and the lower bound at `e2`, over one scale.
        assert(n * (gv2 * gw) < limit * (d * gu1));
        assert(limit * (d * gu2) <= 2 * (n * gv2));
        assert((limit * (d * gu2)) * gw <= (2 * (n * gv2)) * gw) by (nonlinear_arith)
            requires
                limit * (d * gu2) <= 2 * (n * gv2),
                gw > 0,
        ;
        assert((limit * (d * gu2)) * gw == (limit * d) * (gu2 * gw)) by (nonlinear_arith);
        assert((2 * (n * gv2)) * gw == 2 * (n * (gv2 * gw))) by (nonlinear_arith);
        assert(limit * (d * gu1) == (limit * d) * gu1) by (nonlinear_arith);
        let ld = limit * d;
        assert(ld > 0) by (nonlinear_arith)
            requires
                limit > 0,
                d > 0,
                ld == limit * d,
        ;
        assert(ld * (gu1 * gt) >= 2 * (ld * gu1)) by (nonlinear_arith)
            requires
                gt >= 2,
                ld > 0,
                gu1 > 0,
        ;
    }
}

/// At most one exponent gives a quotient its full-width mantissa.
pub proof fn lemma_scale_unique(n: nat, d: nat, limit: nat, e: int)
    requires
        n > 0,
        d > 0,
        limit > 0,
        fits(n, d, limit, e),
    ensures
        scale_of(n, d, limit) == e,
{
    let s = scale_of(n, d, limit);
    lemma_fits_order(n, d, limit, s, e);
    lemma_fits_order(n, d, limit, e, s);
}

proof fn lemma_pow2_117()
    ensures
        pow2(117) == 0x20_0000_0000_0000 * 0x1_0000_0000_0000_0000,
{
    vstd::arithmetic::power2::lemma2_to64();
    lemma_pow2_adds(32, 21);
    lemma_pow2_adds(53, 64);
}

/// A doubling that stays below `2^117` was made fewer than 117 times.
pub(crate) proof fn lemma_grow_bound(k: int)
    requires
        grow(k) < 0x20_0000_0000_0000 * 0x1_0000_0000_0000_0000,
    ensures
        k < 117,
{
    lemma_pow2_117();
    if k > 117 {
        lemma_pow2_strictly_increases(117, k as nat);
    }
}

/// Rounds `n / d` to a mantissa below `limit`.
pub fn round_ratio(n: u128, d: u128, limit: u128) -> (r: Binary)
    requires
        0 < n < 0x1_0000_0000_0000_0000_0000_0000_0000,
        0 < d < 0x1_0000_0000_0000_0000,
        is_limit(limit as nat),
        limit <= DOUBLE,
    ensures
        r@ == round(n as nat, d as nat, limit as nat),
        limit <= 2 * r.mantissa,
        r.mantissa < limit,
        -120 <= r.exponent <= 120,
{
    let mut a: u128 = n;
    let mut b: u128 = d;
    let mut e: i32 = 0;
    assert(limit * b <= 0x20_0000_0000_0000 * 0x1_0000_0000_0000_0000) by (nonlinear_arith)
        requires
            limit <= 0x20_0000_0000_0000,
            b < 0x1_0000_0000_0000_0000,
    ;
    if 2 * a < limit * b {
        while 2 * a < limit * b
            invariant
                n >= 1,
                a >= 1,
                b == d,
                limit * b <= 0x20_0000_0000_0000 * 0x1_0000_0000_0000_0000,
                -117 < e <= 0,
                a == n * grow(-e),
                a < limit * b,
            decreases limit * b - a,
        {
            proof {
                lemma_grow_step(-e);
                let g = grow(-e);
                assert(2 * (n * g) == n * (2 * g)) by (nonlinear_arith);
                assert(n * (2 * g) >= 2 * g) by (nonlinear_arith)
                    requires
                        n >= 1,
                        g >= 0,
                ;
                lemma_grow_bound(-e + 1);
            }
            a = 2 * a;
            e = e - 1;
        }
    } else {
        while a >= limit * b
            invariant
                n == a,
                a < 0x1_0000_0000_0000_0000_0000_0000_0000,
                d >= 1,
                b >= 1,
                limit >= 4,
                limit <= DOUBLE,
                0 <= e < 117,
                b == d * grow(e as int),
                limit * b <= 2 * a,
            decreases 2 * a - limit * b,
        {
            proof {
                assert(limit * (2 * b) == 2 * (limit * b)) by (nonlinear_arith);
                assert(limit * b >= 4 * b) by (nonlinear_arith)
                    requires
                        limit >= 4,
                        b >= 1,
                ;
                lemma_grow_step(e as int);
                let g = grow(e as int);
                assert(2 * (d * g) == d * (2 * g)) by (nonlinear_arith);
                assert(d * (2 * g) >= 2 * g) by (nonlinear_arith)
                    requires
                        d >= 1,
                        g >= 0,
                ;
                lemma_grow_bound(e + 1);
            }
            b = 2 * b;
            e = e + 1;
        }
    }
    proof {
        lemma_scale_unique(n as nat, d as nat, limit as nat, e as int);
    }
    let q: u128 = a / b;
    let r: u128 = a % b;
    proof {
        // The quotient itself has a full-width integer part.
        assert(a == b * q + r) by {
            vstd::arithmetic::div_mod::lemma_fundamental_div_mod(a as int, b as int);
        }
        assert(q < limit) by (nonlinear_arith)
            requires
                a == b * q + r,
                a < limit * b,
                r >= 0,
                b > 0,
        ;
        let half = limit / 2;
        assert(limit == 2 * half);
        assert(half <= q) by (nonlinear_arith)
            requires
                a == b * q + r,
                (2 * half) * b <= 2 * a,
                r < b,
                b > 0,
        ;
    }
    let m: u128 = if 2 * r < b || (2 * r == b && q % 2 == 0) {
        q
    } else {
        q + 1
    };
    assert(m == half_even(a as nat, b as nat));
    if m == limit {
        Binary { mantissa: (limit / 2) as u64, exponent: e + 1 }
    } else {
        Binary { mantissa: m as u64, exponent: e }
    }
}

/// The mantissa uses the full width below `limit`.
pub open spec fn full_width(f: Fraction, limit: nat) -> bool {
    limit <= 2 * f.mantissa && f.mantissa < limit
}

/// The quotient `a / b`, rounded. Powers of two pass through unrounded.
pub open spec fn quotient(a: Fraction, b: Fraction, limit: nat) -> Fraction {
    let r = round(a.mantissa as nat, b.mantissa as nat, limit);
    Fraction { mantissa: r.mantissa, exponent: r.exponent + a.exponent - b.exponent }
}

/// The product `a * b`, rounded.
pub open spec fn product(a: Fraction, b: Fraction, limit: nat) -> Fraction {
    let r = round((a.mantissa * b.mantissa) as nat, 1, limit);
    Fraction { mantissa: r.mantissa, exponent: r.exponent + a.exponent + b.exponent }
}

/// The order of two values whose mantissas have the same width.
pub open spec fn at_most(a: Fraction, b: Fraction) -> bool {
    a.exponent < b.exponent || (a.exponent == b.exponent && a.mantissa <= b.mantissa)
}

pub open spec fn lesser(a: Fraction, b: Fraction) -> Fraction {
    if at_most(a, b) {
        a
    } else {
        b
    }
}

pub open spec fn greater(a: Fraction, b: Fraction) -> Fraction {
    if at_most(a, b) {
        b
    } else {
        a
    }
}

/// The integer nearest to a positive value, the larger of two that are equally
/// near.
pub open spec fn nearest(f: Fraction) -> int {
    if f.exponent >= 0 {
        f.mantissa * grow(f.exponent)
    } else {
        (2 * f.mantissa + grow(-f.exponent)) / (2 * grow(-f.exponent) as int)
    }
}

impl Binary {
    /// Mantissa and exponent lie where none of the operations below overflows.
    pub open spec fn valid(&self, limit: u128) -> bool {
        &&& full_width(self@, limit as nat)
        &&& -0x10000 < self.exponent < 0x10000
    }

    /// The value nearest to a positive integer.
    pub fn from_integer(value: u32, limit: u128) -> (r: Binary)
        requires
            value > 0,
            is_limit(limit as nat),
            limit <= DOUBLE,
        ensures
            r@ == round(value as nat, 1, limit as nat),
            r.valid(limit),
            -120 <= r.exponent <= 120,
    {
        round_ratio(value as u128, 1, limit)
    }

    pub fn divide(self, other: Binary, limit: u128) -> (r: Binary)
        requires
            is_limit(limit as nat),
            limit <= DOUBLE,
            self.valid(limit),
            other.valid(limit),
            -0x1000 < self.exponent < 0x1000,
            -0x1000 < other.exponent < 0x1000,
        ensures
            r@ == quotient(self@, other@, limit as nat),
            r.valid(limit),
            self.exponent - other.exponent - 120 <= r.exponent <= self.exponent - other.exponent + 120,
    {
        let r = round_ratio(self.mantissa as u128, other.mantissa as u128, limit);
        Binary { mantissa: r.mantissa, exponent: r.exponent + self.exponent - other.exponent }
    }

    pub fn multiply(self, other: Binary, limit: u128) -> (r: Binary)
        requires
            is_limit(limit as nat),
            limit <= DOUBLE,
            self.valid(limit),
            other.valid(limit),
            -0x1000 < self.exponent < 0x1000,
            -0x1000 < other.exponent < 0x1000,
        ensures
            r@ == product(self@, other@, limit as nat),
            r.valid(limit),
            self.exponent + other.exponent - 120 <= r.exponent <= self.exponent + other.exponent + 120,
    {
        let (x, y) = (self.mantissa as u128, other.mantissa as u128);
        assert(0 < x * y < 0x1_0000_0000_0000_0000_0000_0000_0000) by (nonlinear_arith)
            requires
                0 < x < 0x20_0000_0000_0000,
                0 < y < 0x20_0000_0000_0000,
        ;
        let r = round_ratio(x * y, 1, limit);
        Binary { mantissa: r.mantissa, exponent: r.exponent + self.exponent + other.exponent }
    }

    pub fn min(self, other: Binary) -> (r: Binary)
        ensures
            r@ == lesser(self@, other@),
            r == self || r == other,
    {
        if self.exponent < other.exponent || (self.exponent == other.exponent && self.mantissa
            <= other.mantissa) {
            self
        } else {
            other
        }
    }

    pub fn max(self, other: Binary) -> (r: Binary)
        ensures
            r@ == greater(self@, other@),
            r == self || r == other,
    {
        if self.exponent < other.exponent || (self.exponent == other.exponent && self.mantissa
            <= other.mantissa) {
            other
        } else {
            self
        }
    }

    /// The nearest integer, or the largest `u32` where that does not hold it.
    pub fn to_integer(self) -> (r: u32)
        requires
            0 < self.mantissa < DOUBLE,
            -0x7fff_ffff <= self.exponent,
        ensures
            r == if nearest(self@) < u32::MAX { nearest(self@) } else { u32::MAX as int },
    {
        if self.exponent >= 0 {
            let mut value: u64 = self.mantissa;
            let mut e: i32 = 0;
            while e < self.exponent && value <= 0xffff_ffff
                invariant
                    0 <= e <= self.exponent,
                    0 < self.mantissa < DOUBLE,
                    0 < value < 0x20_0000_0000_0000,
                    value == self.mantissa * grow(e as int),
                decreases self.exponent - e,
            {
                proof {
                    lemma_grow_step(e as int);
                    let (m, g) = (self.mantissa, grow(e as int));
                    assert(2 * (m * g) == m * (2 * g)) by (nonlinear_arith);
                }
                value = 2 * value;
                e = e + 1;
            }
            proof {
                lemma_grow_add(e as int, self.exponent - e);
                lemma_grow_pos(self.exponent - e);
                let (m, g, h) = (self.mantissa, grow(e as int), grow(self.exponent - e));
                assert(m * (g * h) == (m * g) * h) by (nonlinear_arith);
                assert((m * g) * h >= m * g) by (nonlinear_arith)
                    requires
                        h >= 1,
                        m * g >= 0,
                ;
                if e == self.exponent {
                    assert(h == 1);
                }
            }
            if value <= 0xffff_ffff {
                value as u32
            } else {
                u32::MAX
            }
        } else {
            let mut unit: u64 = 1;
            let mut e: i32 = 0;
            let twice: u64 = 2 * self.mantissa;
            while e > self.exponent && unit <= twice
                invariant
                    self.exponent <= e <= 0,
                    -0x7fff_ffff <= self.exponent,
                    twice == 2 * self.mantissa,
                    0 < self.mantissa < DOUBLE,
                    0 < unit <= 2 * twice,
                    unit == grow(-e),
                decreases e - self.exponent,
            {
                proof {
                    lemma_grow_step(-e);
                }
                unit = 2 * unit;
                e = e - 1;
            }
            proof {
                lemma_grow_add(-e as int, e - self.exponent);
                lemma_grow_pos(e - self.exponent);
            }
            if e > self.exponent {
                proof {
                    let (g, h) = (grow(-e), grow(e - self.exponent));
                    assert(g * h >= g) by (nonlinear_arith)
                        requires
                            h >= 1,
                            g >= 0,
                    ;
                    let w = grow(-self.exponent);
                    assert(twice < w);
                    vstd::arithmetic::div_mod::lemma_basic_div(twice + w, 2 * w as int);
                }
                0
            } else {
                let sum: u64 = twice + unit;
                let value: u64 = sum / (2 * unit);
                if value <= 0xffff_ffff {
                    value as u32
                } else {
                    u32::MAX
                }
            }
        }
    }
}

} // verus!
