//! The size, in pixels, at which a page is rasterized.
//!
//! Page sizes arrive in single precision, and the computation below gives what
//! single-precision arithmetic gives, down to the last rounding.

use crate::float::{
    full_width, greater, lesser, nearest, product, quotient, round, round_ratio, Binary, Fraction,
    SINGLE,
};
use vstd::prelude::*;

verus! {

/// A single-precision number, held as its IEEE 754 bit pattern.
#[derive(Clone, Copy, Debug, PartialEq, Eq, Structural)]
pub struct Single {
    pub bits: u32,
}

/// What a single-precision number stands for. Negative numbers keep their sign
/// only.
pub enum Number<F> {
    Nan,
    Negative,
    NegativeZero,
    Zero,
    Finite(F),
    Infinite,
}

/// A quotient of a pixel count and a page extent.
pub enum Ratio<F> {
    Nan,
    /// Zero or less.
    Low,
    Finite(F),
    Infinite,
}

/// A factor from points to pixels.
pub enum Scale<F> {
    Zero,
    Finite(F),
    Infinite,
}

impl View for Number<Binary> {
    type V = Number<Fraction>;

    open spec fn view(&self) -> Number<Fraction> {
        match self {
            Number::Nan => Number::Nan,
            Number::Negative => Number::Negative,
            Number::NegativeZero => Number::NegativeZero,
            Number::Zero => Number::Zero,
            Number::Finite(b) => Number::Finite(b@),
            Number::Infinite => Number::Infinite,
        }
    }
}

impl View for Ratio<Binary> {
    type V = Ratio<Fraction>;

    open spec fn view(&self) -> Ratio<Fraction> {
        match self {
            Ratio::Nan => Ratio::Nan,
            Ratio::Low => Ratio::Low,
            Ratio::Finite(b) => Ratio::Finite(b@),
            Ratio::Infinite => Ratio::Infinite,
        }
    }
}

impl View for Scale<Binary> {
    type V = Scale<Fraction>;

    open spec fn view(&self) -> Scale<Fraction> {
        match self {
            Scale::Zero => Scale::Zero,
            Scale::Finite(b) => Scale::Finite(b@),
            Scale::Infinite => Scale::Infinite,
        }
    }
}

impl View for Single {
    type V = Number<Fraction>;

    /// One sign bit, eight bits of exponent, 23 bits of mantissa.
    open spec fn view(&self) -> Number<Fraction> {
        let negative = self.bits >= 0x8000_0000;
        let exponent = (self.bits as int / 0x80_0000) % 0x100;
        let mantissa = self.bits as int % 0x80_0000;
        if exponent == 0xff && mantissa != 0 {
            Number::Nan
        } else if exponent == 0 && mantissa == 0 {
            if negative {
                Number::NegativeZero
            } else {
                Number::Zero
            }
        } else if negative {
            Number::Negative
        } else if exponent == 0xff {
            Number::Infinite
        } else if exponent == 0 {
            // Subnormal: the mantissa has no leading one of its own.
            let r = round(mantissa as nat, 1, SINGLE as nat);
            Number::Finite(Fraction { mantissa: r.mantissa, exponent: r.exponent - 149 })
        } else {
            Number::Finite(Fraction { mantissa: 0x80_0000 + mantissa, exponent: exponent - 150 })
        }
    }
}

/// `pixels / extent` in single precision.
pub open spec fn ratio(pixels: nat, extent: Number<Fraction>) -> Ratio<Fraction> {
    match extent {
        Number::Nan => Ratio::Nan,
        Number::Negative => Ratio::Low,
        Number::NegativeZero => if pixels == 0 {
            Ratio::Nan
        } else {
            Ratio::Low
        },
        Number::Zero => if pixels == 0 {
            Ratio::Nan
        } else {
            Ratio::Infinite
        },
        Number::Infinite => Ratio::Low,
        Number::Finite(extent) => if pixels == 0 {
            Ratio::Low
        } else {
            let q = quotient(round(pixels, 1, SINGLE as nat), extent, SINGLE as nat);
            // The largest finite number has exponent 104.
            if q.exponent > 104 {
                Ratio::Infinite
            } else {
                Ratio::Finite(q)
            }
        },
    }
}

/// The smaller of two quotients; one that is no number gives way to the other.
pub open spec fn smaller_ratio(a: Ratio<Fraction>, b: Ratio<Fraction>) -> Ratio<Fraction> {
    match (a, b) {
        (Ratio::Nan, _) => b,
        (_, Ratio::Nan) => a,
        (Ratio::Low, _) => Ratio::Low,
        (_, Ratio::Low) => Ratio::Low,
        (Ratio::Infinite, _) => b,
        (_, Ratio::Infinite) => a,
        (Ratio::Finite(x), Ratio::Finite(y)) => Ratio::Finite(lesser(x, y)),
    }
}

/// The least factor by which a page is ever fitted: 0.01 in single precision.
pub open spec fn least_scale() -> Fraction {
    round(1, 100, SINGLE as nat)
}

/// The factor that fits a page to a viewport.
pub open spec fn fit_scale(
    page: (Number<Fraction>, Number<Fraction>),
    viewport: (nat, nat),
) -> Scale<Fraction> {
    match smaller_ratio(ratio(viewport.0, page.0), ratio(viewport.1, page.1)) {
        Ratio::Nan => Scale::Finite(least_scale()),
        Ratio::Low => Scale::Finite(least_scale()),
        Ratio::Infinite => Scale::Infinite,
        Ratio::Finite(f) => Scale::Finite(greater(f, least_scale())),
    }
}

/// The factor of a fixed zoom: 96 pixels to 72 points at 100 percent.
pub open spec fn fixed_scale(percent: nat) -> Scale<Fraction> {
    let limit = SINGLE as nat;
    if percent == 0 {
        Scale::Zero
    } else {
        let per_point = quotient(round(96, 1, limit), round(72, 1, limit), limit);
        let scaled = product(per_point, round(percent, 1, limit), limit);
        Scale::Finite(quotient(scaled, round(100, 1, limit), limit))
    }
}

pub open spec fn clamp(value: int, low: int, high: int) -> int {
    if value < low {
        low
    } else if value > high {
        high
    } else {
        value
    }
}

/// A page extent times a factor, as a whole number of pixels: at least one.
pub open spec fn scaled_extent(extent: Number<Fraction>, scale: Scale<Fraction>) -> int {
    match (extent, scale) {
        (Number::Finite(e), Scale::Finite(s)) => clamp(
            nearest(product(e, s, SINGLE as nat)),
            1,
            u32::MAX as int,
        ),
        (Number::Finite(_), Scale::Infinite) => u32::MAX as int,
        (Number::Infinite, Scale::Finite(_)) => u32::MAX as int,
        (Number::Infinite, Scale::Infinite) => u32::MAX as int,
        _ => 1,
    }
}

/// A factor as a percentage of 96 pixels to the inch.
pub open spec fn scale_percent(scale: Scale<Fraction>) -> int {
    match scale {
        Scale::Zero => 1,
        Scale::Infinite => u16::MAX as int,
        Scale::Finite(s) => clamp(
            nearest(product(s, round(75, 1, SINGLE as nat), SINGLE as nat)),
            1,
            u16::MAX as int,
        ),
    }
}

/// A value whose mantissa has single precision.
pub open spec fn is_single(b: Binary, bound: int) -> bool {
    full_width(b@, SINGLE as nat) && -bound <= b.exponent <= bound
}

impl Number<Binary> {
    pub open spec fn valid(&self) -> bool {
        self matches Number::Finite(b) ==> is_single(*b, 300)
    }
}

impl Ratio<Binary> {
    pub open spec fn valid(&self) -> bool {
        self matches Ratio::Finite(b) ==> is_single(*b, 600)
    }
}

impl Scale<Binary> {
    pub open spec fn valid(&self) -> bool {
        self matches Scale::Finite(b) ==> is_single(*b, 900)
    }
}

impl Single {
    /// The number that the bits stand for.
    pub fn number(self) -> (r: Number<Binary>)
        ensures
            r@ == self@,
            r.valid(),
    {
        let negative: bool = self.bits >= 0x8000_0000;
        let exponent: u32 = (self.bits / 0x80_0000) % 0x100;
        let mantissa: u32 = self.bits % 0x80_0000;
        if exponent == 0xff && mantissa != 0 {
            Number::Nan
        } else if exponent == 0 && mantissa == 0 {
            if negative {
                Number::NegativeZero
            } else {
                Number::Zero
            }
        } else if negative {
            Number::Negative
        } else if exponent == 0xff {
            Number::Infinite
        } else if exponent == 0 {
            let r = Binary::from_integer(mantissa, SINGLE);
            Number::Finite(Binary { mantissa: r.mantissa, exponent: r.exponent - 149 })
        } else {
            Number::Finite(
                Binary { mantissa: 0x80_0000 + mantissa as u64, exponent: exponent as i32 - 150 },
            )
        }
    }
}

fn compute_ratio(pixels: u32, extent: &Number<Binary>) -> (r: Ratio<Binary>)
    requires
        extent.valid(),
    ensures
        r@ == ratio(pixels as nat, extent@),
        r.valid(),
{
    match extent {
        Number::Nan => Ratio::Nan,
        Number::Negative => Ratio::Low,
        Number::NegativeZero => if pixels == 0 {
            Ratio::Nan
        } else {
            Ratio::Low
        },
        Number::Zero => if pixels == 0 {
            Ratio::Nan
        } else {
            Ratio::Infinite
        },
        Number::Infinite => Ratio::Low,
        Number::Finite(extent) => if pixels == 0 {
            Ratio::Low
        } else {
            let q = Binary::from_integer(pixels, SINGLE).divide(*extent, SINGLE);
            if q.exponent > 104 {
                Ratio::Infinite
            } else {
                Ratio::Finite(q)
            }
        },
    }
}

fn compute_smaller(a: Ratio<Binary>, b: Ratio<Binary>) -> (r: Ratio<Binary>)
    requires
        a.valid(),
        b.valid(),
    ensures
        r@ == smaller_ratio(a@, b@),
        r.valid(),
{
    match (a, b) {
        (Ratio::Nan, b) => b,
        (a, Ratio::Nan) => a,
        (Ratio::Low, _) => Ratio::Low,
        (_, Ratio::Low) => Ratio::Low,
        (Ratio::Infinite, b) => b,
        (a, Ratio::Infinite) => a,
        (Ratio::Finite(x), Ratio::Finite(y)) => Ratio::Finite(x.min(y)),
    }
}

/// The factor that fits a page to a viewport.
pub fn compute_fit_scale(
    page: (&Number<Binary>, &Number<Binary>),
    viewport: (u32, u32),
) -> (r: Scale<Binary>)
    requires
        page.0.valid(),
        page.1.valid(),
    ensures
        r@ == fit_scale((page.0@, page.1@), (viewport.0 as nat, viewport.1 as nat)),
        r.valid(),
{
    let across = compute_ratio(viewport.0, page.0);
    let down = compute_ratio(viewport.1, page.1);
    let least = round_ratio(1, 100, SINGLE);
    match compute_smaller(across, down) {
        Ratio::Nan => Scale::Finite(least),
        Ratio::Low => Scale::Finite(least),
        Ratio::Infinite => Scale::Infinite,
        Ratio::Finite(f) => Scale::Finite(f.max(least)),
    }
}

/// The factor of a fixed zoom.
pub fn compute_fixed_scale(percent: u16) -> (r: Scale<Binary>)
    ensures
        r@ == fixed_scale(percent as nat),
        r.valid(),
{
    if percent == 0 {
        Scale::Zero
    } else {
        let per_point = Binary::from_integer(96, SINGLE).divide(
            Binary::from_integer(72, SINGLE),
            SINGLE,
        );
        let scaled = per_point.multiply(Binary::from_integer(percent as u32, SINGLE), SINGLE);
        Scale::Finite(scaled.divide(Binary::from_integer(100, SINGLE), SINGLE))
    }
}

/// A page extent times a factor, in pixels.
pub fn compute_extent(extent: &Number<Binary>, scale: &Scale<Binary>) -> (r: u32)
    requires
        extent.valid(),
        scale.valid(),
    ensures
        r == scaled_extent(extent@, scale@),
{
    match (extent, scale) {
        (Number::Finite(e), Scale::Finite(s)) => {
            let pixels = e.multiply(*s, SINGLE).to_integer();
            if pixels < 1 {
                1
            } else {
                pixels
            }
        },
        (Number::Finite(_), Scale::Infinite) => u32::MAX,
        (Number::Infinite, Scale::Finite(_)) => u32::MAX,
        (Number::Infinite, Scale::Infinite) => u32::MAX,
        _ => 1,
    }
}

/// A factor as a percentage.
pub fn compute_percent(scale: &Scale<Binary>) -> (r: u16)
    requires
        scale.valid(),
    ensures
        r == scale_percent(scale@),
{
    match scale {
        Scale::Zero => 1,
        Scale::Infinite => u16::MAX,
        Scale::Finite(s) => {
            let percent = s.multiply(Binary::from_integer(75, SINGLE), SINGLE).to_integer();
            if percent < 1 {
                1
            } else if percent > 0xffff {
                u16::MAX
            } else {
                percent as u16
            }
        },
    }
}

} // verus!
