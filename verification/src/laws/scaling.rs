//! How far rounding carries a scaled extent.

use crate::float::{
    at_most, fits, full_width, greater, grow, half_even, is_limit, lemma_grow_bound,
    lemma_grow_pos, lemma_grow_step, lemma_scale_unique, lesser, nearest, product, quotient,
    round, scale_of, Fraction, DOUBLE, SINGLE,
};
use crate::app::{spec_render_dimensions, zoom_scale, AppState, ZoomMode};
use crate::layout::{
    fixed_scale, least_scale, ratio, scaled_extent, smaller_ratio, Number, Ratio, Scale, Single,
};
use crate::terminal::size::{at_least_one, capped_extent, TerminalSize};
use vstd::arithmetic::power2::{lemma_pow2_adds, lemma_pow2_pos, pow2};
use vstd::prelude::*;

verus! {

/// One, in the unit of `magnitude`.
pub open spec fn one() -> nat {
    pow2(4096)
}

/// A value in units of `2^-4096`.
pub open spec fn magnitude(f: Fraction) -> int {
    f.mantissa * pow2((f.exponent + 4096) as nat)
}

/// The quotient `n / d` can be rounded without leaving the range of exponents.
pub open spec fn roundable(n: nat, d: nat, limit: nat) -> bool {
    &&& 0 < n < 0x1_0000_0000_0000_0000_0000_0000_0000
    &&& 0 < d < 0x1_0000_0000_0000_0000
    &&& is_limit(limit)
    &&& limit <= DOUBLE
}

proof fn lemma_scale_down(n: nat, d: nat, limit: nat, k: int) -> (e: int)
    requires
        roundable(n, d, limit),
        0 <= k < 117,
        n * grow(k) < limit * d,
    ensures
        fits(n, d, limit, e),
        -117 < e <= -k,
    decreases 117 - k,
{
    let g = grow(k);
    if 2 * (n * g) >= limit * d {
        assert(d * grow(-k) == d);
        -k
    } else {
        lemma_grow_step(k);
        assert(n * (2 * g) == 2 * (n * g)) by (nonlinear_arith);
        assert(n * (2 * g) >= 2 * g) by (nonlinear_arith)
            requires
                n >= 1,
                g >= 0,
        ;
        assert(limit * d <= 0x20_0000_0000_0000 * 0x1_0000_0000_0000_0000) by (nonlinear_arith)
            requires
                limit <= 0x20_0000_0000_0000,
                d < 0x1_0000_0000_0000_0000,
        ;
        lemma_grow_bound(k + 1);
        lemma_scale_down(n, d, limit, k + 1)
    }
}

proof fn lemma_scale_up(n: nat, d: nat, limit: nat, k: int) -> (e: int)
    requires
        roundable(n, d, limit),
        0 <= k < 117,
        limit * (d * grow(k)) <= 2 * n,
    ensures
        fits(n, d, limit, e),
        k <= e < 117,
    decreases 117 - k,
{
    let g = grow(k);
    if n < limit * (d * g) {
        assert(n * grow(-k) == n);
        k
    } else {
        lemma_grow_step(k);
        assert(limit * (d * (2 * g)) == 2 * (limit * (d * g))) by (nonlinear_arith);
        lemma_grow_pos(k);
        assert(limit * (d * g) >= g) by (nonlinear_arith)
            requires
                limit >= 4,
                d >= 1,
                g >= 1,
        ;
        lemma_grow_bound(k + 1);
        lemma_scale_up(n, d, limit, k + 1)
    }
}

/// Every quotient has an exponent at which its mantissa has full width.
proof fn lemma_scale_exists(n: nat, d: nat, limit: nat)
    requires
        roundable(n, d, limit),
    ensures
        fits(n, d, limit, scale_of(n, d, limit)),
        -117 < scale_of(n, d, limit) < 117,
{
    assert(grow(0) == 1);
    let e = if n < limit * d {
        lemma_scale_down(n, d, limit, 0)
    } else {
        lemma_scale_up(n, d, limit, 0)
    };
    lemma_scale_unique(n, d, limit, e);
}

/// The rounded quotient is off by less than one part in `limit`.
proof fn lemma_round_error(n: nat, d: nat, limit: nat)
    requires
        roundable(n, d, limit),
    ensures
        full_width(round(n, d, limit), limit),
        -117 < round(n, d, limit).exponent <= 117,
        limit * (d * magnitude(round(n, d, limit))) <= (limit + 1) * (n * one()),
        (limit - 1) * (n * one()) <= limit * (d * magnitude(round(n, d, limit))),
{
    lemma_scale_exists(n, d, limit);
    let e = scale_of(n, d, limit);
    let up = grow(e);
    let down = grow(-e);
    lemma_grow_pos(e);
    lemma_grow_pos(-e);
    let num = n * down;
    let den = d * up;
    assert(den > 0) by (nonlinear_arith)
        requires
            den == d * up,
            d > 0,
            up > 0,
    ;
    let m = half_even(num, den);
    let q = (num / den) as int;
    let r = (num % den) as int;
    vstd::arithmetic::div_mod::lemma_fundamental_div_mod(num as int, den as int);
    assert(num == den * q + r);
    // The mantissa has full width, and is off by half at most.
    assert(2 * (m * den - num) <= den && 2 * (num - m * den) <= den) by (nonlinear_arith)
        requires
            num == den * q + r,
            0 <= r < den,
            (m == q && 2 * r <= den) || (m == q + 1 && 2 * r >= den),
    ;
    let half = limit / 2;
    assert(half <= m <= limit) by (nonlinear_arith)
        requires
            num == den * q + r,
            0 <= r < den,
            m == q || m == q + 1,
            limit == 2 * half,
            limit * den <= 2 * num,
            num < limit * den,
    ;
    assert(limit * (m * den) <= (limit + 1) * num && (limit - 1) * num <= limit * (m * den))
        by (nonlinear_arith)
        requires
            limit > 0,
            2 * (m * den - num) <= den,
            2 * (num - m * den) <= den,
            limit * den <= 2 * num,
    ;
    // The same over the unit of `magnitude`.
    let f = round(n, d, limit);
    let w = pow2((e + 4096) as nat);
    if m == limit {
        lemma_pow2_adds(1, (e + 4096) as nat);
        vstd::arithmetic::power2::lemma2_to64();
        assert(half * (2 * w) == m * w) by (nonlinear_arith)
            requires
                m == 2 * half,
        ;
    }
    assert(magnitude(f) == m * w);
    if e >= 0 {
        lemma_pow2_adds(e as nat, 4096);
        if e == 0 {
            vstd::arithmetic::power2::lemma2_to64();
        }
        let u = one();
        assert(w == up * u);
        assert(num == n);
        assert(limit * (d * (m * w)) == limit * (m * den) * u) by (nonlinear_arith)
            requires
                w == up * u,
                den == d * up,
        ;
        assert(limit * (m * den) * u <= (limit + 1) * num * u && (limit - 1) * num * u <= limit * (m
            * den) * u) by (nonlinear_arith)
            requires
                limit * (m * den) <= (limit + 1) * num,
                (limit - 1) * num <= limit * (m * den),
                u >= 0,
        ;
        assert((limit + 1) * num * u == (limit + 1) * (n * u)) by (nonlinear_arith)
            requires
                num == n,
        ;
        assert((limit - 1) * num * u == (limit - 1) * (n * u)) by (nonlinear_arith)
            requires
                num == n,
        ;
    } else {
        lemma_pow2_adds(-e as nat, (e + 4096) as nat);
        assert(one() == down * w);
        assert(den == d);
        let u = one();
        assert(limit * (d * (m * w)) == limit * (m * den) * w) by (nonlinear_arith)
            requires
                den == d,
        ;
        assert(limit * (m * den) * w <= (limit + 1) * num * w && (limit - 1) * num * w <= limit * (m
            * den) * w) by (nonlinear_arith)
            requires
                limit * (m * den) <= (limit + 1) * num,
                (limit - 1) * num <= limit * (m * den),
                w >= 0,
        ;
        assert((limit + 1) * num * w == (limit + 1) * (n * u)) by (nonlinear_arith)
            requires
                num == n * down,
                u == down * w,
        ;
        assert((limit - 1) * num * w == (limit - 1) * (n * u)) by (nonlinear_arith)
            requires
                num == n * down,
                u == down * w,
        ;
    }
}

proof fn lemma_one_positive()
    ensures
        one() > 0,
{
    lemma_pow2_pos(4096);
}

/// An exponent that leaves room for the operations below.
pub open spec fn moderate(f: Fraction) -> bool {
    -1900 < f.exponent < 1900
}

proof fn lemma_quotient_error(a: Fraction, b: Fraction, limit: nat)
    requires
        is_limit(limit),
        limit <= DOUBLE,
        full_width(a, limit),
        full_width(b, limit),
        moderate(a),
        moderate(b),
    ensures
        full_width(quotient(a, b, limit), limit),
        a.exponent - b.exponent - 117 < quotient(a, b, limit).exponent <= a.exponent - b.exponent
            + 117,
        limit * (magnitude(b) * magnitude(quotient(a, b, limit))) <= (limit + 1) * (magnitude(a)
            * one()),
        (limit - 1) * (magnitude(a) * one()) <= limit * (magnitude(b) * magnitude(
            quotient(a, b, limit),
        )),
{
    let r = round(a.mantissa as nat, b.mantissa as nat, limit);
    lemma_round_error(a.mantissa as nat, b.mantissa as nat, limit);
    let q = quotient(a, b, limit);
    let pa = pow2((a.exponent + 4096) as nat);
    let pb = pow2((b.exponent + 4096) as nat);
    let pr = pow2((r.exponent + 4096) as nat);
    let pq = pow2((q.exponent + 4096) as nat);
    lemma_pow2_adds((q.exponent + 4096) as nat, (b.exponent + 4096) as nat);
    lemma_pow2_adds((r.exponent + 4096) as nat, (a.exponent + 4096) as nat);
    lemma_pow2_pos((a.exponent + 4096) as nat);
    let u = one();
    let (am, bm, rm) = (a.mantissa, b.mantissa, r.mantissa);
    let inner = bm * (rm * pr);
    let outer = am * u;
    assert((bm * pb) * (rm * pq) == inner * pa) by (nonlinear_arith)
        requires
            pq * pb == pr * pa,
            inner == bm * (rm * pr),
    ;
    assert((am * pa) * u == outer * pa) by (nonlinear_arith)
        requires
            outer == am * u,
    ;
    assert(limit * (inner * pa) <= (limit + 1) * (outer * pa) && (limit - 1) * (outer * pa)
        <= limit * (inner * pa)) by (nonlinear_arith)
        requires
            limit * inner <= (limit + 1) * outer,
            (limit - 1) * outer <= limit * inner,
            pa >= 0,
    ;
}

proof fn lemma_product_error(a: Fraction, b: Fraction, limit: nat)
    requires
        is_limit(limit),
        limit <= DOUBLE,
        full_width(a, limit),
        full_width(b, limit),
        moderate(a),
        moderate(b),
    ensures
        full_width(product(a, b, limit), limit),
        a.exponent + b.exponent - 117 < product(a, b, limit).exponent <= a.exponent + b.exponent
            + 117,
        limit * (magnitude(product(a, b, limit)) * one()) <= (limit + 1) * (magnitude(a)
            * magnitude(b)),
        (limit - 1) * (magnitude(a) * magnitude(b)) <= limit * (magnitude(product(a, b, limit))
            * one()),
{
    let (am, bm) = (a.mantissa, b.mantissa);
    assert(0 < am * bm < 0x1_0000_0000_0000_0000_0000_0000_0000) by (nonlinear_arith)
        requires
            0 < am < 0x20_0000_0000_0000,
            0 < bm < 0x20_0000_0000_0000,
    ;
    let r = round((am * bm) as nat, 1, limit);
    lemma_round_error((am * bm) as nat, 1, limit);
    lemma_one_positive();
    let p = product(a, b, limit);
    let pa = pow2((a.exponent + 4096) as nat);
    let pb = pow2((b.exponent + 4096) as nat);
    let pr = pow2((r.exponent + 4096) as nat);
    let pp = pow2((p.exponent + 4096) as nat);
    let u = one();
    lemma_pow2_adds((a.exponent + 4096) as nat, (b.exponent + 4096) as nat);
    lemma_pow2_adds(
        (r.exponent + 4096) as nat,
        (a.exponent + 4096 + b.exponent + 4096) as nat,
    );
    lemma_pow2_adds(4096, 4096);
    lemma_pow2_adds((p.exponent + 4096) as nat, 8192);
    lemma_pow2_pos((a.exponent + 4096) as nat);
    lemma_pow2_pos((b.exponent + 4096) as nat);
    let rm = r.mantissa;
    let inner = rm * pr;
    let outer = (am * bm) * u;
    assert(1 * magnitude(r) == inner);
    let pab = pa * pb;
    assert(pr * pab == pp * (u * u));
    assert(limit * (inner * pab) <= (limit + 1) * (outer * pab) && (limit - 1) * (outer * pab)
        <= limit * (inner * pab)) by (nonlinear_arith)
        requires
            limit * inner <= (limit + 1) * outer,
            (limit - 1) * outer <= limit * inner,
            pab >= 0,
    ;
    let x = limit * ((rm * pp) * u);
    let y = (am * pa) * (bm * pb);
    assert(limit * (inner * pab) == x * u) by (nonlinear_arith)
        requires
            inner == rm * pr,
            pr * pab == pp * (u * u),
            x == limit * ((rm * pp) * u),
    ;
    assert(outer * pab == y * u) by (nonlinear_arith)
        requires
            outer == (am * bm) * u,
            pab == pa * pb,
            y == (am * pa) * (bm * pb),
    ;
    assert(x <= (limit + 1) * y) by (nonlinear_arith)
        requires
            x * u <= (limit + 1) * (y * u),
            u > 0,
    ;
    assert((limit - 1) * y <= x) by (nonlinear_arith)
        requires
            (limit - 1) * (y * u) <= x * u,
            u > 0,
    ;
}

/// The order of mantissas and exponents is that of the values.
proof fn lemma_order(a: Fraction, b: Fraction, limit: nat)
    requires
        full_width(a, limit),
        full_width(b, limit),
        moderate(a),
        moderate(b),
        at_most(a, b),
    ensures
        magnitude(a) <= magnitude(b),
{
    let pa = pow2((a.exponent + 4096) as nat);
    let pb = pow2((b.exponent + 4096) as nat);
    let (am, bm) = (a.mantissa, b.mantissa);
    lemma_pow2_pos((a.exponent + 4096) as nat);
    if a.exponent == b.exponent {
        assert(am * pa <= bm * pa) by (nonlinear_arith)
            requires
                am <= bm,
                pa >= 0,
        ;
    } else {
        let t = (b.exponent - a.exponent - 1) as nat;
        lemma_pow2_adds((a.exponent + 4096) as nat, 1);
        lemma_pow2_adds((a.exponent + 4097) as nat, t);
        lemma_pow2_pos(t);
        vstd::arithmetic::power2::lemma2_to64();
        let g = pow2(t);
        assert(pb == (pa * 2) * g);
        assert(am * pa <= bm * pb) by (nonlinear_arith)
            requires
                am <= 2 * bm,
                pb == (pa * 2) * g,
                g >= 1,
                pa >= 0,
                bm >= 0,
        ;
    }
}

/// An integer that fits is held without loss.
proof fn lemma_integer_exact(value: nat, limit: nat)
    requires
        roundable(value, 1, limit),
        value < limit,
    ensures
        magnitude(round(value, 1, limit)) == value * one(),
{
    lemma_scale_exists(value, 1, limit);
    let e = scale_of(value, 1, limit);
    if e > 0 {
        lemma_grow_step(e - 1);
        lemma_grow_pos(e - 1);
        let g = grow(e);
        assert(limit * (1 * g) >= 2 * limit) by (nonlinear_arith)
            requires
                g >= 2,
        ;
        assert(grow(-e) == 1);
        assert(limit * (1 * g) <= 2 * (value * grow(-e)));
    }
    assert(e <= 0);
    let down = grow(-e);
    let num = value * down;
    assert(half_even(num, 1) == num);
    let w = pow2((e + 4096) as nat);
    if e < 0 {
        lemma_pow2_adds((-e) as nat, (e + 4096) as nat);
    } else {
        assert(down * w == w) by (nonlinear_arith)
            requires
                down == 1,
        ;
    }
    assert(one() == down * w);
    let f = round(value, 1, limit);
    assert(1 * grow(e) == 1);
    assert(limit * (1 * grow(e)) == limit) by (nonlinear_arith)
        requires
            1 * grow(e) == 1,
    ;
    assert(num < limit);
    assert(f.mantissa == num && f.exponent == e);
    assert(magnitude(f) == num * w);
    assert(num * w == value * (down * w)) by (nonlinear_arith)
        requires
            num == value * down,
    ;
}

/// A value below `bound + 1/2` is rounded to `bound` at most.
proof fn lemma_nearest_at_most(f: Fraction, bound: int)
    requires
        moderate(f),
        f.mantissa >= 0,
        bound >= 0,
        2 * magnitude(f) < (2 * bound + 1) * one(),
    ensures
        nearest(f) <= bound,
{
    let m = f.mantissa;
    let w = pow2((f.exponent + 4096) as nat);
    let u = one();
    lemma_one_positive();
    if f.exponent >= 0 {
        lemma_pow2_adds(f.exponent as nat, 4096);
        if f.exponent == 0 {
            vstd::arithmetic::power2::lemma2_to64();
        }
        let g = grow(f.exponent);
        assert(w == g * u);
        let v = m * g;
        assert(m * w == v * u) by (nonlinear_arith)
            requires
                w == g * u,
                v == m * g,
        ;
        assert(2 * v < 2 * bound + 1) by (nonlinear_arith)
            requires
                2 * (v * u) < (2 * bound + 1) * u,
                u > 0,
        ;
    } else {
        lemma_pow2_adds(-f.exponent as nat, (f.exponent + 4096) as nat);
        let g = grow(-f.exponent);
        assert(u == g * w);
        lemma_pow2_pos((f.exponent + 4096) as nat);
        lemma_grow_pos(-f.exponent);
        assert(2 * m < (2 * bound + 1) * g) by (nonlinear_arith)
            requires
                2 * (m * w) < (2 * bound + 1) * u,
                u == g * w,
                w > 0,
        ;
        let x = 2 * m + g;
        let y = 2 * g as int;
        assert(x < (bound + 1) * y) by (nonlinear_arith)
            requires
                2 * m < (2 * bound + 1) * g,
                x == 2 * m + g,
                y == 2 * g,
        ;
        vstd::arithmetic::div_mod::lemma_fundamental_div_mod(x, y);
        let q = x / y;
        let r = x % y;
        assert(q < bound + 1) by (nonlinear_arith)
            requires
                x == y * q + r,
                0 <= r,
                y > 0,
                x < (bound + 1) * y,
        ;
    }
}

/// A value is rounded to an integer by half at most.
proof fn lemma_nearest_error(f: Fraction)
    requires
        moderate(f),
        f.mantissa >= 0,
    ensures
        2 * (nearest(f) * one()) <= 2 * magnitude(f) + one(),
        2 * magnitude(f) <= 2 * (nearest(f) * one()) + one(),
{
    let m = f.mantissa;
    let w = pow2((f.exponent + 4096) as nat);
    let u = one();
    lemma_one_positive();
    if f.exponent >= 0 {
        lemma_pow2_adds(f.exponent as nat, 4096);
        if f.exponent == 0 {
            vstd::arithmetic::power2::lemma2_to64();
        }
        let g = grow(f.exponent);
        assert(w == g * u);
        assert(m * w == (m * g) * u) by (nonlinear_arith)
            requires
                w == g * u,
        ;
    } else {
        lemma_pow2_adds((-f.exponent) as nat, (f.exponent + 4096) as nat);
        let g = grow(-f.exponent);
        lemma_pow2_pos((f.exponent + 4096) as nat);
        lemma_grow_pos(-f.exponent);
        let x = 2 * m + g;
        let y = 2 * g as int;
        vstd::arithmetic::div_mod::lemma_fundamental_div_mod(x, y);
        let q = x / y;
        let r = x % y;
        assert(2 * (q * u) <= 2 * (m * w) + u && 2 * (m * w) <= 2 * (q * u) + u)
            by (nonlinear_arith)
            requires
                u == g * w,
                x == y * q + r,
                0 <= r < y,
                x == 2 * m + g,
                y == 2 * g,
                w > 0,
        {
            // 2 m = 2 g q + r - g, so 2 m w = 2 u q + (r - g) w.
            assert(2 * (m * w) == 2 * (q * u) + (r - g) * w);
            assert(-(g * w) <= (r - g) * w <= g * w);
        }
    }
}

proof fn lemma_magnitude_positive(f: Fraction)
    requires
        f.mantissa > 0,
    ensures
        magnitude(f) > 0,
{
    lemma_pow2_pos((f.exponent + 4096) as nat);
    let (m, w) = (f.mantissa, pow2((f.exponent + 4096) as nat));
    assert(m * w > 0) by (nonlinear_arith)
        requires
            m > 0,
            w > 0,
    ;
}

/// An extent times a factor that is above `bound / extent` by one part in
/// `limit` at most, rounded, is `bound` at most.
proof fn lemma_scaled_at_most(p: Fraction, s: Fraction, bound: nat, limit: nat)
    requires
        is_limit(limit),
        limit <= DOUBLE,
        2 * (bound * (2 * limit + 1)) < limit * limit,
        full_width(p, limit),
        full_width(s, limit),
        -600 < p.exponent < 600,
        -600 < s.exponent < 600,
        limit * (magnitude(p) * magnitude(s)) <= (limit + 1) * ((bound * one()) * one()),
    ensures
        nearest(product(p, s, limit)) <= bound,
{
    lemma_product_error(p, s, limit);
    lemma_one_positive();
    let r = product(p, s, limit);
    let u = one();
    let (x, mr) = (magnitude(p) * magnitude(s), magnitude(r));
    let l = limit as int;
    let v = bound as int;
    let ll = l * l;
    let kk = (l + 1) * (l + 1);
    assert(ll * mr <= kk * (v * u)) by (nonlinear_arith)
        requires
            l * (mr * u) <= (l + 1) * x,
            l * x <= (l + 1) * ((v * u) * u),
            ll == l * l,
            kk == (l + 1) * (l + 1),
            l > 0,
            u > 0,
    {
        assert(l * (l * (mr * u)) <= l * ((l + 1) * x));
        assert(l * ((l + 1) * x) == (l + 1) * (l * x));
        assert((l + 1) * (l * x) <= (l + 1) * ((l + 1) * ((v * u) * u)));
        assert((ll * mr) * u == l * (l * (mr * u)));
        assert((kk * (v * u)) * u == (l + 1) * ((l + 1) * ((v * u) * u)));
    }
    assert(2 * (kk * v) < ll * (2 * v + 1)) by (nonlinear_arith)
        requires
            ll == l * l,
            kk == (l + 1) * (l + 1),
            2 * (v * (2 * l + 1)) < l * l,
    {
        assert(kk * v == ll * v + v * (2 * l + 1));
    }
    assert(2 * mr < (2 * v + 1) * u) by (nonlinear_arith)
        requires
            ll * mr <= kk * (v * u),
            2 * (kk * v) < ll * (2 * v + 1),
            ll > 0,
            u > 0,
    {
        assert(2 * (ll * mr) <= 2 * (kk * (v * u)));
        assert(2 * (kk * (v * u)) == (2 * (kk * v)) * u);
        assert((2 * (kk * v)) * u < (ll * (2 * v + 1)) * u);
        assert((ll * (2 * v + 1)) * u == ll * ((2 * v + 1) * u));
        assert(ll * (2 * mr) < ll * ((2 * v + 1) * u));
    }
    lemma_nearest_at_most(r, v);
}

/// An extent times a factor that is below `bound / extent` by one part in
/// `limit` at most, rounded, is `bound` at least.
proof fn lemma_scaled_at_least(p: Fraction, s: Fraction, bound: nat, limit: nat)
    requires
        is_limit(limit),
        limit <= DOUBLE,
        2 * (bound * (2 * limit + 1)) < limit * limit,
        full_width(p, limit),
        full_width(s, limit),
        -600 < p.exponent < 600,
        -600 < s.exponent < 600,
        (limit - 1) * ((bound * one()) * one()) <= limit * (magnitude(p) * magnitude(s)),
    ensures
        nearest(product(p, s, limit)) >= bound,
{
    lemma_product_error(p, s, limit);
    lemma_one_positive();
    let r = product(p, s, limit);
    lemma_nearest_error(r);
    let u = one();
    let (x, mr, n) = (magnitude(p) * magnitude(s), magnitude(r), nearest(r));
    let l = limit as int;
    let v = bound as int;
    let ll = l * l;
    let kk = (l - 1) * (l - 1);
    assert(kk * (v * u) <= ll * mr) by (nonlinear_arith)
        requires
            (l - 1) * x <= l * (mr * u),
            (l - 1) * ((v * u) * u) <= l * x,
            ll == l * l,
            kk == (l - 1) * (l - 1),
            l > 1,
            u > 0,
    {
        assert(l * ((l - 1) * x) <= l * (l * (mr * u)));
        assert(l * ((l - 1) * x) == (l - 1) * (l * x));
        assert((l - 1) * ((l - 1) * ((v * u) * u)) <= (l - 1) * (l * x));
        assert((ll * mr) * u == l * (l * (mr * u)));
        assert((kk * (v * u)) * u == (l - 1) * ((l - 1) * ((v * u) * u)));
    }
    assert(ll * (2 * v - 1) < 2 * (kk * v)) by (nonlinear_arith)
        requires
            ll == l * l,
            kk == (l - 1) * (l - 1),
            2 * (v * (2 * l + 1)) < l * l,
            v >= 0,
    {
        assert(kk * v == ll * v - v * (2 * l - 1));
        assert(v * (2 * l - 1) <= v * (2 * l + 1));
    }
    assert((2 * v - 1) * u < 2 * mr) by (nonlinear_arith)
        requires
            kk * (v * u) <= ll * mr,
            ll * (2 * v - 1) < 2 * (kk * v),
            ll > 0,
            u > 0,
    {
        assert((ll * (2 * v - 1)) * u < (2 * (kk * v)) * u);
        assert((2 * (kk * v)) * u == 2 * (kk * (v * u)));
        assert((ll * (2 * v - 1)) * u == ll * ((2 * v - 1) * u));
        assert(ll * ((2 * v - 1) * u) < ll * (2 * mr));
    }
    assert(v - 1 < n) by (nonlinear_arith)
        requires
            (2 * v - 1) * u < 2 * mr,
            2 * mr <= 2 * (n * u) + u,
            u > 0,
    {
        assert((2 * v - 1) * u < (2 * n + 1) * u);
    }
}

/// An extent times a factor that is at most `bound / extent`, rounded, is
/// `bound` at most.
proof fn lemma_scaled_within(p: Fraction, s: Fraction, bound: nat, limit: nat)
    requires
        roundable(bound, 1, limit),
        2 * (bound * (2 * limit + 1)) < limit * limit,
        bound < limit,
        full_width(p, limit),
        full_width(s, limit),
        -400 < p.exponent < 400,
        -400 < s.exponent < 400,
        at_most(s, quotient(round(bound, 1, limit), p, limit)),
    ensures
        nearest(product(p, s, limit)) <= bound,
{
    let b = round(bound, 1, limit);
    lemma_round_error(bound, 1, limit);
    lemma_integer_exact(bound, limit);
    lemma_quotient_error(b, p, limit);
    let q = quotient(b, p, limit);
    lemma_order(s, q, limit);
    lemma_magnitude_positive(p);
    let (mp, ms, mq, l) = (magnitude(p), magnitude(s), magnitude(q), limit as int);
    assert(l * (mp * ms) <= l * (mp * mq)) by (nonlinear_arith)
        requires
            mp > 0,
            ms <= mq,
            l > 0,
    {
        assert(mp * ms <= mp * mq);
    }
    lemma_scaled_at_most(p, s, bound, limit);
}

/// An extent times `bound / extent`, both rounded, is `bound`.
proof fn lemma_scaled_exactly(p: Fraction, bound: nat, limit: nat)
    requires
        roundable(bound, 1, limit),
        2 * (bound * (2 * limit + 1)) < limit * limit,
        bound < limit,
        full_width(p, limit),
        -400 < p.exponent < 400,
        -400 < quotient(round(bound, 1, limit), p, limit).exponent < 400,
    ensures
        nearest(product(p, quotient(round(bound, 1, limit), p, limit), limit)) == bound,
{
    let b = round(bound, 1, limit);
    lemma_round_error(bound, 1, limit);
    lemma_integer_exact(bound, limit);
    lemma_quotient_error(b, p, limit);
    lemma_scaled_at_most(p, quotient(b, p, limit), bound, limit);
    lemma_scaled_at_least(p, quotient(b, p, limit), bound, limit);
}

proof fn lemma_cap_quotient(maximum: nat, extent: nat) -> (q: Fraction)
    requires
        0 < maximum < 0x1_0000_0000,
        0 < extent < 0x1_0000_0000,
    ensures
        q == quotient(round(maximum, 1, DOUBLE as nat), round(extent, 1, DOUBLE as nat), DOUBLE as nat),
        full_width(q, DOUBLE as nat),
        -400 < q.exponent < 400,
{
    let limit = DOUBLE as nat;
    lemma_round_error(maximum, 1, limit);
    lemma_round_error(extent, 1, limit);
    lemma_quotient_error(round(maximum, 1, limit), round(extent, 1, limit), limit);
    quotient(round(maximum, 1, limit), round(extent, 1, limit), limit)
}

/// The lesser of two is at most either.
proof fn lemma_lesser(a: Fraction, b: Fraction)
    ensures
        at_most(lesser(a, b), a),
        at_most(lesser(a, b), b),
{
}

proof fn lemma_capped_extent(extent: nat, maximum: nat, scale: Fraction)
    requires
        extent < 0x1_0000_0000,
        0 < maximum < 0x4_0000,
        full_width(scale, DOUBLE as nat),
        -400 < scale.exponent < 400,
        at_most(
            scale,
            quotient(
                round(maximum, 1, DOUBLE as nat),
                round(at_least_one(extent as int) as nat, 1, DOUBLE as nat),
                DOUBLE as nat,
            ),
        ),
        at_most(scale, round(1, 1, DOUBLE as nat)),
    ensures
        1 <= capped_extent(extent, scale) <= maximum,
        capped_extent(extent, scale) <= at_least_one(extent as int),
{
    if extent > 0 {
        let limit = DOUBLE as nat;
        let p = round(extent, 1, limit);
        lemma_round_error(extent, 1, limit);
        lemma_integer_exact(extent, limit);
        lemma_room_for_pixels(maximum);
        lemma_scaled_within(p, scale, maximum, limit);
        // A factor of one at most does not enlarge.
        lemma_round_error(1, 1, limit);
        lemma_integer_exact(1, limit);
        lemma_order(scale, round(1, 1, limit), limit);
        lemma_product_error(p, scale, limit);
        lemma_one_positive();
        let r = product(p, scale, limit);
        let (ms, mr, u, l, w) = (
            magnitude(scale),
            magnitude(r),
            one(),
            limit as int,
            extent as int,
        );
        assert(magnitude(p) == w * u);
        assert(2 * mr < (2 * w + 1) * u) by (nonlinear_arith)
            requires
                l * (mr * u) <= (l + 1) * ((w * u) * ms),
                ms <= 1 * u,
                0 < w,
                2 * w < l,
                u > 0,
        {
            assert((w * u) * ms <= (w * u) * u);
            assert((l + 1) * ((w * u) * ms) <= (l + 1) * ((w * u) * u));
            assert((l * mr) * u <= ((l + 1) * (w * u)) * u);
            assert(l * mr <= (l + 1) * (w * u));
            assert(2 * (l * mr) <= (2 * (l + 1) * w) * u);
            assert(2 * (l + 1) * w < l * (2 * w + 1));
            assert((2 * (l + 1) * w) * u < (l * (2 * w + 1)) * u);
            assert(l * (2 * mr) < l * ((2 * w + 1) * u));
        }
        lemma_nearest_at_most(r, w);
    }
}

/// In zellij a raster is no larger than twice the viewport in either direction,
/// and no larger than it was asked for.
pub proof fn law_cap_bounds_rasters(size: TerminalSize, width: u32, height: u32)
    requires
        size.zellij,
    ensures
        1 <= size.spec_cap_render_dimensions(width, height).0 <= size.spec_maximum().0,
        1 <= size.spec_cap_render_dimensions(width, height).1 <= size.spec_maximum().1,
        size.spec_cap_render_dimensions(width, height).0 <= at_least_one(width as int),
        size.spec_cap_render_dimensions(width, height).1 <= at_least_one(height as int),
{
    let limit = DOUBLE as nat;
    let maximum = size.spec_maximum();
    let (w, h) = (at_least_one(width as int) as nat, at_least_one(height as int) as nat);
    let across = lemma_cap_quotient(maximum.0 as nat, w);
    let down = lemma_cap_quotient(maximum.1 as nat, h);
    let unit = round(1, 1, limit);
    lemma_round_error(1, 1, limit);
    lemma_lesser(across, down);
    lemma_lesser(lesser(across, down), unit);
    let scale = lesser(lesser(across, down), unit);
    lemma_capped_extent(width as nat, maximum.0 as nat, scale);
    lemma_capped_extent(height as nat, maximum.1 as nat, scale);
}

/// No pixel count comes near where double precision is coarser than a pixel.
proof fn lemma_room_for_pixels(pixels: nat)
    requires
        pixels < 0x1_0000_0000,
    ensures
        2 * (pixels * (2 * DOUBLE as nat + 1)) < DOUBLE as nat * DOUBLE as nat,
{
    let limit = DOUBLE as nat;
    assert(2 * (pixels * (2 * limit + 1)) < limit * limit) by (nonlinear_arith)
        requires
            limit == 0x20_0000_0000_0000,
            pixels < 0x1_0000_0000,
    ;
}

/// A factor that is one, or below it by one part in `DOUBLE` at most, leaves a
/// pixel count as it is.
proof fn lemma_cap_keeps(extent: nat, scale: Fraction)
    requires
        0 < extent < 0x1_0000_0000,
        full_width(scale, DOUBLE as nat),
        -400 < scale.exponent < 400,
        (DOUBLE as nat - 1) * one() <= DOUBLE as nat * magnitude(scale),
        magnitude(scale) <= one(),
    ensures
        capped_extent(extent, scale) == extent,
{
    let limit = DOUBLE as nat;
    let p = round(extent, 1, limit);
    lemma_round_error(extent, 1, limit);
    lemma_integer_exact(extent, limit);
    lemma_room_for_pixels(extent);
    lemma_one_positive();
    let (ms, u, l, v) = (magnitude(scale), one() as int, limit as int, extent as int);
    assert(magnitude(p) == v * u);
    assert(l * ((v * u) * ms) <= (l + 1) * ((v * u) * u) && (l - 1) * ((v * u) * u) <= l * ((v * u)
        * ms)) by (nonlinear_arith)
        requires
            (l - 1) * u <= l * ms,
            ms <= u,
            v > 0,
            u > 0,
            l > 0,
    {
        let k = v * u;
        assert(k * ms <= k * u);
        assert(l * (k * ms) <= l * (k * u));
        assert(k * ((l - 1) * u) <= k * (l * ms));
        assert((l - 1) * (k * u) == k * ((l - 1) * u));
        assert(l * (k * ms) == k * (l * ms));
        assert((l + 1) * (k * u) == l * (k * u) + k * u);
        assert(k * u >= 0);
    }
    lemma_scaled_at_most(p, scale, extent, limit);
    lemma_scaled_at_least(p, scale, extent, limit);
}

/// The quotient of a maximum and a pixel count within it is one at least, but
/// for one part in `DOUBLE`.
proof fn lemma_cap_quotient_above(maximum: nat, extent: nat)
    requires
        0 < extent <= maximum < 0x4_0000,
    ensures
        (DOUBLE as nat - 1) * one() <= DOUBLE as nat * magnitude(
            quotient(
                round(maximum, 1, DOUBLE as nat),
                round(extent, 1, DOUBLE as nat),
                DOUBLE as nat,
            ),
        ),
{
    let limit = DOUBLE as nat;
    let (a, b) = (round(maximum, 1, limit), round(extent, 1, limit));
    lemma_round_error(maximum, 1, limit);
    lemma_round_error(extent, 1, limit);
    lemma_integer_exact(maximum, limit);
    lemma_integer_exact(extent, limit);
    lemma_quotient_error(a, b, limit);
    lemma_one_positive();
    let (mq, u, l) = (magnitude(quotient(a, b, limit)), one() as int, limit as int);
    let (m, v) = (maximum as int, extent as int);
    assert((l - 1) * u <= l * mq) by (nonlinear_arith)
        requires
            (l - 1) * ((m * u) * u) <= l * ((v * u) * mq),
            0 < v <= m,
            u > 0,
            l > 1,
    {
        let k = v * u;
        assert(k > 0);
        assert(k * u <= (m * u) * u);
        assert((l - 1) * (k * u) <= (l - 1) * ((m * u) * u));
        assert(k * ((l - 1) * u) == (l - 1) * (k * u));
        assert(k * (l * mq) == l * (k * mq));
        assert(k * ((l - 1) * u) <= k * (l * mq));
    }
}

/// In zellij a raster that is within twice the viewport is left as it is. Of any
/// other, one side comes to its maximum exactly, so that no larger raster of the
/// same shape would do.
pub proof fn law_cap_is_no_tighter_than_needed(size: TerminalSize, width: u32, height: u32)
    requires
        size.zellij,
        width >= 1,
        height >= 1,
    ensures
        ({
            let (w, h) = size.spec_cap_render_dimensions(width, height);
            let (most_w, most_h) = size.spec_maximum();
            if width <= most_w && height <= most_h {
                w == width && h == height
            } else {
                1 <= w <= most_w && 1 <= h <= most_h && (w == most_w || h == most_h)
            }
        }),
{
    law_cap_bounds_rasters(size, width, height);
    let limit = DOUBLE as nat;
    let maximum = size.spec_maximum();
    let (most_w, most_h) = (maximum.0 as nat, maximum.1 as nat);
    let across = lemma_cap_quotient(most_w, width as nat);
    let down = lemma_cap_quotient(most_h, height as nat);
    let unit = round(1, 1, limit);
    lemma_round_error(1, 1, limit);
    lemma_integer_exact(1, limit);
    lemma_one_positive();
    lemma_lesser(lesser(across, down), unit);
    let scale = lesser(lesser(across, down), unit);
    lemma_order(scale, unit, limit);
    let (u, l) = (one() as int, limit as int);
    assert((l - 1) * u <= l * u) by (nonlinear_arith)
        requires
            u > 0,
    ;
    if width <= most_w && height <= most_h {
        lemma_cap_quotient_above(most_w, width as nat);
        lemma_cap_quotient_above(most_h, height as nat);
        lemma_cap_keeps(width as nat, scale);
        lemma_cap_keeps(height as nat, scale);
    } else if scale == across {
        let p = round(width as nat, 1, limit);
        lemma_round_error(width as nat, 1, limit);
        lemma_room_for_pixels(most_w);
        lemma_scaled_exactly(p, most_w, limit);
    } else if scale == down {
        let p = round(height as nat, 1, limit);
        lemma_round_error(height as nat, 1, limit);
        lemma_room_for_pixels(most_h);
        lemma_scaled_exactly(p, most_h, limit);
    } else {
        lemma_cap_keeps(width as nat, scale);
        lemma_cap_keeps(height as nat, scale);
    }
}

/// Capping a raster twice is capping it once.
pub proof fn law_capping_twice_is_capping_once(size: TerminalSize, width: u32, height: u32)
    ensures
        ({
            let (w, h) = size.spec_cap_render_dimensions(width, height);
            size.spec_cap_render_dimensions(w as u32, h as u32) == (w, h)
        }),
{
    if size.zellij {
        let (w, h) = size.spec_cap_render_dimensions(width, height);
        law_cap_bounds_rasters(size, width, height);
        law_cap_is_no_tighter_than_needed(size, w as u32, h as u32);
    }
}

/// A pixel count times a factor of one at most is off by less than one pixel.
proof fn lemma_capped_error(extent: nat, s: Fraction)
    requires
        0 < extent < 0x1_0000_0000,
        full_width(s, DOUBLE as nat),
        -400 < s.exponent < 400,
        magnitude(s) <= one(),
    ensures
        capped_extent(extent, s) * one() < extent * magnitude(s) + one(),
        extent * magnitude(s) < (capped_extent(extent, s) + 1) * one(),
{
    let limit = DOUBLE as nat;
    let p = round(extent, 1, limit);
    lemma_round_error(extent, 1, limit);
    lemma_integer_exact(extent, limit);
    lemma_product_error(p, s, limit);
    let r = product(p, s, limit);
    lemma_nearest_error(r);
    lemma_one_positive();
    lemma_magnitude_positive(s);
    let (u, l, n, mr) = (one() as int, limit as int, nearest(r), magnitude(r));
    let (v, ms) = (extent as int, magnitude(s));
    let x = v * ms;
    assert(0 < x <= 0x1_0000_0000 * u && x <= v * u) by (nonlinear_arith)
        requires
            x == v * ms,
            0 < v < 0x1_0000_0000,
            0 < ms <= u,
    ;
    assert(l * mr <= (l + 1) * x && (l - 1) * x <= l * mr) by (nonlinear_arith)
        requires
            l * (mr * u) <= (l + 1) * ((v * u) * ms),
            (l - 1) * ((v * u) * ms) <= l * (mr * u),
            x == v * ms,
            u > 0,
    {
        assert((v * u) * ms == x * u);
        assert((l * mr) * u <= ((l + 1) * x) * u);
        assert(((l - 1) * x) * u <= (l * mr) * u);
    }
    // Sixteen times the error of the product is one at most.
    assert(16 * mr <= 16 * x + u && 16 * x <= 16 * mr + u) by (nonlinear_arith)
        requires
            l == 0x20_0000_0000_0000,
            l * mr <= (l + 1) * x,
            (l - 1) * x <= l * mr,
            x <= 0x1_0000_0000 * u,
    ;
    assert(16 * (n * u) <= 16 * x + 9 * u && 16 * x <= 16 * (n * u) + 9 * u);
    assert(0 <= n <= v) by (nonlinear_arith)
        requires
            16 * (n * u) <= 16 * x + 9 * u,
            16 * x <= 16 * (n * u) + 9 * u,
            0 < x <= v * u,
            u > 0,
    ;
    let e = capped_extent(extent, s);
    assert(e == n || (n == 0 && e == 1));
    assert(e * u < x + u && x < (e + 1) * u) by (nonlinear_arith)
        requires
            16 * (n * u) <= 16 * x + 9 * u,
            16 * x <= 16 * (n * u) + 9 * u,
            x > 0,
            u > 0,
            e == n || (n == 0 && e == 1),
    ;
}

/// Of two extents that were scaled by one factor, each to within a pixel, the
/// cross products differ by the sum of the extents at most.
proof fn lemma_cross_products(w: int, h: int, width: int, height: int, factor: int, unit: int)
    requires
        unit > 0,
        width >= 0,
        height >= 0,
        w * unit <= width * factor + unit,
        height * factor <= (h + 1) * unit,
    ensures
        w * height <= h * width + width + height,
{
    assert(w * height <= h * width + width + height) by (nonlinear_arith)
        requires
            unit > 0,
            width >= 0,
            height >= 0,
            w * unit <= width * factor + unit,
            height * factor <= (h + 1) * unit,
    {
        assert((w * unit) * height <= (width * factor + unit) * height);
        assert((height * factor) * width <= ((h + 1) * unit) * width);
        assert((width * factor + unit) * height == (height * factor) * width + unit * height);
        assert((w * height) * unit == (w * unit) * height);
        assert((h * width + width + height) * unit == ((h + 1) * unit) * width + unit * height);
        assert((w * height) * unit <= (h * width + width + height) * unit);
    }
}

/// A capped raster has the shape of the raster that was asked for: each side is
/// off by a pixel at most.
pub proof fn law_cap_keeps_proportions(size: TerminalSize, width: u32, height: u32)
    ensures
        ({
            let (w, h) = size.spec_cap_render_dimensions(width, height);
            -(width + height) <= w * height - h * width <= width + height
        }),
{
    let (w, h) = size.spec_cap_render_dimensions(width, height);
    let (a, b) = (width as int, height as int);
    if !size.zellij {
        assert(a * b == b * a) by (nonlinear_arith);
    } else if width == 0 || height == 0 {
        assert(width == 0 ==> w == 1 && h * a == 0) by (nonlinear_arith)
            requires
                a == width,
                width == 0 ==> w == 1,
        ;
        assert(height == 0 ==> h == 1 && w * b == 0) by (nonlinear_arith)
            requires
                b == height,
                height == 0 ==> h == 1,
        ;
    } else {
        let limit = DOUBLE as nat;
        let maximum = size.spec_maximum();
        let across = lemma_cap_quotient(maximum.0 as nat, width as nat);
        let down = lemma_cap_quotient(maximum.1 as nat, height as nat);
        let unit = round(1, 1, limit);
        lemma_round_error(1, 1, limit);
        lemma_integer_exact(1, limit);
        lemma_one_positive();
        lemma_lesser(lesser(across, down), unit);
        let scale = lesser(lesser(across, down), unit);
        lemma_order(scale, unit, limit);
        lemma_capped_error(width as nat, scale);
        lemma_capped_error(height as nat, scale);
        lemma_cross_products(w, h, a, b, magnitude(scale), one() as int);
        lemma_cross_products(h, w, b, a, magnitude(scale), one() as int);
    }
}

/// In zellij the raster of a page at a fixed zoom is no larger than twice the
/// viewport in either direction.
pub proof fn law_fixed_zoom_is_capped(app: AppState)
    requires
        app.terminal.zellij,
        app.zoom is Fixed,
    ensures
        1 <= app.dimensions().0 <= at_least_one(2 * app.viewport().0),
        1 <= app.dimensions().1 <= at_least_one(2 * app.viewport().1),
{
    let (width, height, _) = spec_render_dimensions(
        app.page_size_points,
        app.viewport(),
        app.zoom,
    );
    law_cap_bounds_rasters(app.terminal, width as u32, height as u32);
}

/// Outside zellij a raster is left as it is.
pub proof fn law_no_cap_outside_zellij(size: TerminalSize, width: u32, height: u32)
    requires
        !size.zellij,
    ensures
        size.spec_cap_render_dimensions(width, height) == (width as int, height as int),
{
}

/// A page extent has a full-width mantissa and a bounded exponent.
proof fn lemma_single(page: Single)
    ensures
        page@ matches Number::Finite(p) ==> full_width(p, SINGLE as nat) && -300 < p.exponent
            <= 104,
{
    let exponent = (page.bits as int / 0x80_0000) % 0x100;
    let mantissa = page.bits as int % 0x80_0000;
    if exponent == 0 && mantissa != 0 {
        lemma_round_error(mantissa as nat, 1, SINGLE as nat);
    }
}

/// A quotient of pixels and page extent has a full-width mantissa and a bounded
/// exponent.
proof fn lemma_ratio(page: Single, pixels: nat)
    requires
        pixels < 0x1_0000_0000,
    ensures
        ratio(pixels, page@) matches Ratio::Finite(q) ==> full_width(q, SINGLE as nat) && -400
            < q.exponent <= 104,
{
    let limit = SINGLE as nat;
    lemma_single(page);
    if pixels > 0 {
        lemma_round_error(pixels, 1, limit);
        if let Number::Finite(p) = page@ {
            lemma_quotient_error(round(pixels, 1, limit), p, limit);
        }
    }
}

/// These pixel counts do not come near where single precision is coarser than a
/// pixel.
proof fn lemma_room_for_single(pixels: nat)
    requires
        pixels < 0x40_0000,
    ensures
        2 * (pixels * (2 * SINGLE as nat + 1)) < SINGLE as nat * SINGLE as nat,
{
    let limit = SINGLE as nat;
    assert(2 * (pixels * (2 * limit + 1)) < limit * limit) by (nonlinear_arith)
        requires
            limit == 0x100_0000,
            pixels < 0x40_0000,
    ;
}

/// A fitted extent does not leave the viewport.
proof fn lemma_fitted_extent(page: Single, pixels: nat, scale: Fraction)
    requires
        0 < pixels < 0x40_0000,
        full_width(scale, SINGLE as nat),
        -400 < scale.exponent <= 104,
        ratio(pixels, page@) !is Low,
        ratio(pixels, page@) matches Ratio::Finite(q) ==> at_most(scale, q),
    ensures
        1 <= scaled_extent(page@, Scale::Finite(scale)) <= pixels,
{
    lemma_single(page);
    match page@ {
        Number::Finite(p) => {
            let limit = SINGLE as nat;
            let q = quotient(round(pixels, 1, limit), p, limit);
            assert(at_most(scale, q));
            lemma_room_for_single(pixels);
            lemma_scaled_within(p, scale, pixels, limit);
        },
        _ => {},
    }
}

/// An extent that decides the factor comes to the pixels of the viewport.
proof fn lemma_filled_extent(page: Single, pixels: nat, scale: Fraction)
    requires
        0 < pixels < 0x40_0000,
        -400 < scale.exponent <= 104,
        ratio(pixels, page@) == Ratio::Finite(scale),
    ensures
        scaled_extent(page@, Scale::Finite(scale)) == pixels,
{
    lemma_single(page);
    lemma_room_for_single(pixels);
    lemma_scaled_exactly(page@->Finite_0, pixels, SINGLE as nat);
}

/// A page that is fitted lies within the viewport, and fills it in one direction.
///
/// Left out are the viewports without pixels, those with so many that single
/// precision is coarser than half a pixel, and the pages for which the factor is
/// not the quotient of viewport and page: those that would have to shrink below
/// the least factor, and those so small that the quotient overflows.
pub proof fn law_fit_stays_within_viewport(page: (Single, Single), viewport: (nat, nat))
    requires
        0 < viewport.0 < 0x40_0000,
        0 < viewport.1 < 0x40_0000,
        smaller_ratio(ratio(viewport.0, page.0@), ratio(viewport.1, page.1@)) matches Ratio::Finite(
            f,
        ) && at_most(least_scale(), f),
    ensures
        ({
            let r = spec_render_dimensions(
                page,
                (viewport.0 as int, viewport.1 as int),
                ZoomMode::Fit,
            );
            &&& 1 <= r.0 <= viewport.0
            &&& 1 <= r.1 <= viewport.1
            &&& r.0 == viewport.0 || r.1 == viewport.1
        }),
{
    let limit = SINGLE as nat;
    let (across, down) = (ratio(viewport.0, page.0@), ratio(viewport.1, page.1@));
    let f = smaller_ratio(across, down)->Finite_0;
    lemma_round_error(1, 100, limit);
    lemma_ratio(page.0, viewport.0);
    lemma_ratio(page.1, viewport.1);
    assert(full_width(f, limit) && -400 < f.exponent <= 104);
    assert(at_most(f, f));
    let scale = greater(f, least_scale());
    assert(at_most(scale, f));
    lemma_fitted_extent(page.0, viewport.0, scale);
    lemma_fitted_extent(page.1, viewport.1, scale);
    assert(scale == f);
    if across == Ratio::Finite(f) {
        lemma_filled_extent(page.0, viewport.0, f);
    } else {
        lemma_filled_extent(page.1, viewport.1, f);
    }
}

/// The least factor does not take an extent that it need not shrink further out
/// of the viewport.
proof fn lemma_least_scale_within(page: Single, p: Fraction, pixels: nat)
    requires
        page@ == Number::Finite(p),
        0 < pixels < 0x40_0000,
        magnitude(p) <= 100 * (pixels * one()),
    ensures
        SINGLE as nat * (magnitude(p) * magnitude(least_scale())) <= (SINGLE as nat + 1) * ((pixels
            * one()) * one()),
        nearest(product(p, least_scale(), SINGLE as nat)) <= pixels,
{
    let limit = SINGLE as nat;
    let least = least_scale();
    lemma_single(page);
    lemma_round_error(1, 100, limit);
    lemma_magnitude_positive(p);
    lemma_magnitude_positive(least);
    lemma_one_positive();
    lemma_room_for_single(pixels);
    let (mp, ml, u, l, v) = (
        magnitude(p),
        magnitude(least),
        one() as int,
        limit as int,
        pixels as int,
    );
    assert(l * (mp * ml) <= (l + 1) * ((v * u) * u)) by (nonlinear_arith)
        requires
            l * (100 * ml) <= (l + 1) * (1 * u),
            mp <= 100 * (v * u),
            ml > 0,
            l > 0,
            v > 0,
            u > 0,
    {
        let k = v * u;
        assert(mp * ml <= (100 * k) * ml);
        assert(l * (mp * ml) <= l * ((100 * k) * ml));
        assert(l * ((100 * k) * ml) == k * (l * (100 * ml)));
        assert(k * (l * (100 * ml)) <= k * ((l + 1) * u));
        assert(k * ((l + 1) * u) == (l + 1) * (k * u));
    }
    lemma_scaled_at_most(p, least, pixels, limit);
}

/// A page side from 1 to 14400 points.
pub open spec fn is_page_side(side: Single) -> bool {
    side@ matches Number::Finite(p) && one() <= magnitude(p) <= 14400 * one()
}

/// A number without a fraction is no smaller than its mantissa.
proof fn lemma_large(f: Fraction)
    requires
        full_width(f, SINGLE as nat),
        f.exponent >= 0,
    ensures
        magnitude(f) >= 0x80_0000 * one(),
{
    lemma_one_positive();
    lemma_pow2_adds(f.exponent as nat, 4096);
    lemma_pow2_pos(f.exponent as nat);
    let (m, g, u) = (f.mantissa, pow2(f.exponent as nat), one());
    assert(m * (g * u) >= 0x80_0000 * u) by (nonlinear_arith)
        requires
            m >= 0x80_0000,
            g >= 1,
            u > 0,
    {
        assert(g * u >= u);
        assert(m * (g * u) >= 0x80_0000 * (g * u));
    }
}

/// The quotient of pixels and a page side does not overflow.
proof fn lemma_side_ratio(page: Single, p: Fraction, pixels: nat)
    requires
        page@ == Number::Finite(p),
        one() <= magnitude(p),
        0 < pixels <= 0xffff,
    ensures
        ratio(pixels, page@) == Ratio::Finite(
            quotient(round(pixels, 1, SINGLE as nat), p, SINGLE as nat),
        ),
{
    let limit = SINGLE as nat;
    lemma_single(page);
    lemma_round_error(pixels, 1, limit);
    lemma_integer_exact(pixels, limit);
    let q = quotient(round(pixels, 1, limit), p, limit);
    lemma_quotient_error(round(pixels, 1, limit), p, limit);
    if q.exponent > 104 {
        lemma_one_positive();
        lemma_large(q);
        let (mp, mq, u, l, v) = (
            magnitude(p),
            magnitude(q),
            one() as int,
            limit as int,
            pixels as int,
        );
        assert(l * mq <= (l + 1) * (v * u)) by (nonlinear_arith)
            requires
                l * (mp * mq) <= (l + 1) * ((v * u) * u),
                mp >= u,
                mq >= 0,
                l > 0,
                u > 0,
        {
            assert(u * mq <= mp * mq);
            assert(l * (u * mq) <= l * (mp * mq));
            assert((l * mq) * u <= ((l + 1) * (v * u)) * u);
        }
        assert(false) by (nonlinear_arith)
            requires
                l * mq <= (l + 1) * (v * u),
                mq >= 0x80_0000 * u,
                l == 0x100_0000,
                v <= 0xffff,
                u > 0,
        {
            assert(v * u <= 0xffff * u);
        }
    }
}

/// A page whose sides are from 1 to 14400 points, fitted to a pane of 144 to
/// 65535 pixels in either direction, lies within the pane and fills it in one
/// direction.
pub proof fn law_fit_fills_the_pane(page: (Single, Single), pane: (u16, u16))
    requires
        is_page_side(page.0),
        is_page_side(page.1),
        pane.0 >= 144,
        pane.1 >= 144,
    ensures
        ({
            let r = spec_render_dimensions(page, (pane.0 as int, pane.1 as int), ZoomMode::Fit);
            &&& 1 <= r.0 <= pane.0
            &&& 1 <= r.1 <= pane.1
            &&& r.0 == pane.0 || r.1 == pane.1
        }),
{
    let limit = SINGLE as nat;
    let (v, w) = (pane.0 as nat, pane.1 as nat);
    let (p, q) = (page.0@->Finite_0, page.1@->Finite_0);
    lemma_side_ratio(page.0, p, v);
    lemma_side_ratio(page.1, q, w);
    lemma_ratio(page.0, v);
    lemma_ratio(page.1, w);
    let across = quotient(round(v, 1, limit), p, limit);
    let down = quotient(round(w, 1, limit), q, limit);
    let f = lesser(across, down);
    let least = least_scale();
    if at_most(least, f) {
        law_fit_stays_within_viewport(page, (v, w));
    } else {
        // By rounding alone the quotient could be below the least factor, so
        // that factor does as well.
        lemma_one_positive();
        let u = one() as int;
        assert(14400 * u <= 100 * (v * u)) by (nonlinear_arith)
            requires
                v >= 144,
                u > 0,
        ;
        assert(14400 * u <= 100 * (w * u)) by (nonlinear_arith)
            requires
                w >= 144,
                u > 0,
        ;
        lemma_least_scale_within(page.0, p, v);
        lemma_least_scale_within(page.1, q, w);
        if f == across {
            lemma_least_scale_fills(page.0, p, v);
        } else {
            lemma_least_scale_fills(page.1, q, w);
        }
    }
}

/// Where the quotient of pixels and extent, rounded, is at most the least factor,
/// that factor brings the extent to the pixels at least.
proof fn lemma_least_scale_fills(page: Single, p: Fraction, pixels: nat)
    requires
        page@ == Number::Finite(p),
        0 < pixels < 0x40_0000,
        -400 < quotient(round(pixels, 1, SINGLE as nat), p, SINGLE as nat).exponent <= 104,
        at_most(quotient(round(pixels, 1, SINGLE as nat), p, SINGLE as nat), least_scale()),
    ensures
        nearest(product(p, least_scale(), SINGLE as nat)) >= pixels,
{
    let limit = SINGLE as nat;
    let least = least_scale();
    let b = round(pixels, 1, limit);
    lemma_single(page);
    lemma_round_error(1, 100, limit);
    lemma_round_error(pixels, 1, limit);
    lemma_integer_exact(pixels, limit);
    lemma_quotient_error(b, p, limit);
    let q = quotient(b, p, limit);
    lemma_order(q, least, limit);
    lemma_magnitude_positive(p);
    lemma_room_for_single(pixels);
    let (mp, mq, ml, l) = (magnitude(p), magnitude(q), magnitude(least), limit as int);
    assert(l * (mp * mq) <= l * (mp * ml)) by (nonlinear_arith)
        requires
            mp > 0,
            mq <= ml,
            l > 0,
    {
        assert(mp * mq <= mp * ml);
    }
    lemma_scaled_at_least(p, least, pixels, limit);
}

/// The factor has a full-width mantissa and a bounded exponent.
proof fn lemma_zoom_scale(page: (Single, Single), viewport: (u32, u32), zoom: ZoomMode)
    ensures
        zoom_scale(page, (viewport.0 as int, viewport.1 as int), zoom) matches Scale::Finite(s)
            ==> full_width(s, SINGLE as nat) && -900 < s.exponent < 900,
{
    let limit = SINGLE as nat;
    match zoom {
        ZoomMode::Fit => {
            lemma_round_error(1, 100, limit);
            lemma_ratio(page.0, viewport.0 as nat);
            lemma_ratio(page.1, viewport.1 as nat);
        },
        ZoomMode::Fixed(percent) => {
            if percent > 0 {
                lemma_round_error(96, 1, limit);
                lemma_round_error(72, 1, limit);
                lemma_round_error(100, 1, limit);
                lemma_round_error(percent as nat, 1, limit);
                let per_point = quotient(round(96, 1, limit), round(72, 1, limit), limit);
                lemma_quotient_error(round(96, 1, limit), round(72, 1, limit), limit);
                lemma_product_error(per_point, round(percent as nat, 1, limit), limit);
                let scaled = product(per_point, round(percent as nat, 1, limit), limit);
                lemma_quotient_error(scaled, round(100, 1, limit), limit);
            }
        },
    }
}

/// A scaled extent is off by less than one pixel, up to a million pixels.
proof fn lemma_extent_error(page: Single, p: Fraction, s: Fraction)
    requires
        page@ == Number::Finite(p),
        full_width(s, SINGLE as nat),
        -900 < s.exponent < 900,
        magnitude(p) * magnitude(s) <= 0x10_0000 * (one() * one()),
    ensures
        scaled_extent(page@, Scale::Finite(s)) * (one() * one()) < magnitude(p) * magnitude(s)
            + one() * one(),
        magnitude(p) * magnitude(s) < (scaled_extent(page@, Scale::Finite(s)) + 1) * (one()
            * one()),
{
    let limit = SINGLE as nat;
    lemma_single(page);
    lemma_product_error(p, s, limit);
    let r = product(p, s, limit);
    lemma_nearest_error(r);
    lemma_one_positive();
    lemma_pow2_pos((p.exponent + 4096) as nat);
    lemma_pow2_pos((s.exponent + 4096) as nat);
    let (u, l, n, mr) = (one() as int, limit as int, nearest(r), magnitude(r));
    let (wp, ws) = (pow2((p.exponent + 4096) as nat), pow2((s.exponent + 4096) as nat));
    let (pm, sm) = (p.mantissa, s.mantissa);
    let x = magnitude(p) * magnitude(s);
    assert(x > 0) by (nonlinear_arith)
        requires
            x == (pm * wp) * (sm * ws),
            pm > 0,
            wp > 0,
            sm > 0,
            ws > 0,
    ;
    let uu = u * u;
    assert(uu > 0) by (nonlinear_arith)
        requires
            uu == u * u,
            u > 0,
    ;
    // Sixteen times the error of the product is one at most.
    assert(16 * (mr * u) <= 16 * x + uu && 16 * x <= 16 * (mr * u) + uu) by (nonlinear_arith)
        requires
            l == 0x100_0000,
            l * (mr * u) <= (l + 1) * x,
            (l - 1) * x <= l * (mr * u),
            x <= 0x10_0000 * uu,
    ;
    assert(2 * (n * uu) <= 2 * (mr * u) + uu && 2 * (mr * u) <= 2 * (n * uu) + uu)
        by (nonlinear_arith)
        requires
            2 * (n * u) <= 2 * mr + u,
            2 * mr <= 2 * (n * u) + u,
            uu == u * u,
            u > 0,
    {
        assert((2 * (n * u)) * u <= (2 * mr + u) * u);
        assert((2 * mr) * u <= (2 * (n * u) + u) * u);
    }
    assert(16 * (n * uu) <= 16 * x + 9 * uu && 16 * x <= 16 * (n * uu) + 9 * uu);
    assert(0 <= n < 0x20_0000) by (nonlinear_arith)
        requires
            16 * (n * uu) <= 16 * x + 9 * uu,
            16 * x <= 16 * (n * uu) + 9 * uu,
            0 < x <= 0x10_0000 * uu,
            uu > 0,
    ;
    let e = scaled_extent(page@, Scale::Finite(s));
    assert(e == n || (n == 0 && e == 1));
    assert(e * uu < x + uu && x < (e + 1) * uu) by (nonlinear_arith)
        requires
            16 * (n * uu) <= 16 * x + 9 * uu,
            16 * x <= 16 * (n * uu) + 9 * uu,
            x > 0,
            uu > 0,
            e == n || (n == 0 && e == 1),
    ;
}

/// Width and height of a raster are those of the page times one factor, each to
/// within a pixel, so a page keeps its proportions.
///
/// The law speaks of extents up to a million pixels; beyond that, single
/// precision is coarser than a pixel.
pub proof fn law_one_factor_for_both_extents(
    page: (Single, Single),
    viewport: (u32, u32),
    zoom: ZoomMode,
    width: Fraction,
    height: Fraction,
    scale: Fraction,
)
    requires
        page.0@ == Number::Finite(width),
        page.1@ == Number::Finite(height),
        zoom_scale(page, (viewport.0 as int, viewport.1 as int), zoom) == Scale::Finite(scale),
        magnitude(width) * magnitude(scale) <= 0x10_0000 * (one() * one()),
        magnitude(height) * magnitude(scale) <= 0x10_0000 * (one() * one()),
    ensures
        ({
            let r = spec_render_dimensions(page, (viewport.0 as int, viewport.1 as int), zoom);
            let unit = one() * one();
            &&& r.0 * unit < magnitude(width) * magnitude(scale) + unit
            &&& magnitude(width) * magnitude(scale) < (r.0 + 1) * unit
            &&& r.1 * unit < magnitude(height) * magnitude(scale) + unit
            &&& magnitude(height) * magnitude(scale) < (r.1 + 1) * unit
        }),
{
    lemma_zoom_scale(page, viewport, zoom);
    lemma_extent_error(page.0, width, scale);
    lemma_extent_error(page.1, height, scale);
}

/// The factor of a fixed zoom is the percentage over 75, but for four parts in
/// `SINGLE`.
proof fn lemma_fixed_scale(percent: u16, s: Fraction)
    requires
        percent > 0,
        fixed_scale(percent as nat) == Scale::Finite(s),
    ensures
        full_width(s, SINGLE as nat),
        -900 < s.exponent < 900,
        75 * (SINGLE as int * magnitude(s)) <= (SINGLE as int + 4) * (percent * one()),
        (SINGLE as int - 4) * (percent * one()) <= 75 * (SINGLE as int * magnitude(s)),
{
    let limit = SINGLE as nat;
    let (a, b, c, d) = (
        round(96, 1, limit),
        round(72, 1, limit),
        round(percent as nat, 1, limit),
        round(100, 1, limit),
    );
    lemma_round_error(96, 1, limit);
    lemma_round_error(72, 1, limit);
    lemma_round_error(percent as nat, 1, limit);
    lemma_round_error(100, 1, limit);
    lemma_integer_exact(96, limit);
    lemma_integer_exact(72, limit);
    lemma_integer_exact(percent as nat, limit);
    lemma_integer_exact(100, limit);
    lemma_one_positive();
    let per_point = quotient(a, b, limit);
    lemma_quotient_error(a, b, limit);
    let scaled = product(per_point, c, limit);
    lemma_product_error(per_point, c, limit);
    lemma_quotient_error(scaled, d, limit);
    lemma_magnitude_positive(per_point);
    let (u, l, p) = (one() as int, limit as int, percent as int);
    let (mq, mr, ms) = (magnitude(per_point), magnitude(scaled), magnitude(s));
    assert(72 * (l * mq) <= (l + 1) * (96 * u) && (l - 1) * (96 * u) <= 72 * (l * mq))
        by (nonlinear_arith)
        requires
            l * ((72 * u) * mq) <= (l + 1) * ((96 * u) * u),
            (l - 1) * ((96 * u) * u) <= l * ((72 * u) * mq),
            u > 0,
    {
        assert(l * ((72 * u) * mq) == (72 * (l * mq)) * u);
        assert((l + 1) * ((96 * u) * u) == ((l + 1) * (96 * u)) * u);
        assert((l - 1) * ((96 * u) * u) == ((l - 1) * (96 * u)) * u);
    }
    let y = p * mq;
    let pu = p * u;
    assert(72 * (l * y) <= (l + 1) * (96 * pu) && (l - 1) * (96 * pu) <= 72 * (l * y))
        by (nonlinear_arith)
        requires
            72 * (l * mq) <= (l + 1) * (96 * u),
            (l - 1) * (96 * u) <= 72 * (l * mq),
            y == p * mq,
            pu == p * u,
            p > 0,
    {
        assert(p * (72 * (l * mq)) == 72 * (l * y));
        assert(p * ((l + 1) * (96 * u)) == (l + 1) * (96 * pu));
        assert(p * ((l - 1) * (96 * u)) == (l - 1) * (96 * pu));
    }
    assert(l * mr <= (l + 1) * y && (l - 1) * y <= l * mr) by (nonlinear_arith)
        requires
            l * (mr * u) <= (l + 1) * (mq * (p * u)),
            (l - 1) * (mq * (p * u)) <= l * (mr * u),
            y == p * mq,
            u > 0,
    {
        assert(mq * (p * u) == y * u);
        assert((l * mr) * u <= ((l + 1) * y) * u);
        assert(((l - 1) * y) * u <= (l * mr) * u);
    }
    assert(100 * (l * ms) <= (l + 1) * mr && (l - 1) * mr <= 100 * (l * ms)) by (nonlinear_arith)
        requires
            l * ((100 * u) * ms) <= (l + 1) * (mr * u),
            (l - 1) * (mr * u) <= l * ((100 * u) * ms),
            u > 0,
    {
        assert(l * ((100 * u) * ms) == (100 * (l * ms)) * u);
        assert((l + 1) * (mr * u) == ((l + 1) * mr) * u);
        assert((l - 1) * (mr * u) == ((l - 1) * mr) * u);
    }
    assert(l == 0x100_0000);
    assert(y > 0) by (nonlinear_arith)
        requires
            y == p * mq,
            p > 0,
            mq > 0,
    ;
}

/// At a fixed zoom a side of the raster is the percentage of 96 pixels to the
/// inch that it says, to within a pixel and a third, up to some 900000 pixels.
pub proof fn law_fixed_zoom_is_the_percentage(app: AppState, percent: u16, sides: (Fraction, Fraction))
    requires
        percent > 0,
        app.zoom == ZoomMode::Fixed(percent),
        !app.terminal.zellij,
        app.page_size_points.0@ == Number::Finite(sides.0),
        app.page_size_points.1@ == Number::Finite(sides.1),
        percent * magnitude(sides.0) <= 0x400_0000 * one(),
        percent * magnitude(sides.1) <= 0x400_0000 * one(),
    ensures
        -100 * one() < 75 * (app.dimensions().0 * one()) - percent * magnitude(sides.0) < 100
            * one(),
        -100 * one() < 75 * (app.dimensions().1 * one()) - percent * magnitude(sides.1) < 100
            * one(),
{
    let s = fixed_scale(percent as nat)->Finite_0;
    lemma_fixed_scale(percent, s);
    lemma_fixed_extent(app.page_size_points.0, sides.0, percent, s);
    lemma_fixed_extent(app.page_size_points.1, sides.1, percent, s);
}

proof fn lemma_fixed_extent(page: Single, side: Fraction, percent: u16, s: Fraction)
    requires
        percent > 0,
        page@ == Number::Finite(side),
        percent * magnitude(side) <= 0x400_0000 * one(),
        full_width(s, SINGLE as nat),
        -900 < s.exponent < 900,
        75 * (SINGLE as int * magnitude(s)) <= (SINGLE as int + 4) * (percent * one()),
        (SINGLE as int - 4) * (percent * one()) <= 75 * (SINGLE as int * magnitude(s)),
    ensures
        -100 * one() < 75 * (scaled_extent(page@, Scale::Finite(s)) * one()) - percent * magnitude(
            side,
        ) < 100 * one(),
{
    lemma_single(page);
    lemma_magnitude_positive(side);
    lemma_one_positive();
    let (u, l, p) = (one() as int, SINGLE as int, percent as int);
    let (m, ms) = (magnitude(side), magnitude(s));
    let (x, w, uu) = (m * ms, (p * m) * u, u * u);
    assert(75 * (l * x) <= (l + 4) * w && (l - 4) * w <= 75 * (l * x)) by (nonlinear_arith)
        requires
            75 * (l * ms) <= (l + 4) * (p * u),
            (l - 4) * (p * u) <= 75 * (l * ms),
            x == m * ms,
            w == (p * m) * u,
            m > 0,
    {
        assert(m * (75 * (l * ms)) == 75 * (l * x));
        assert(m * ((l + 4) * (p * u)) == (l + 4) * w);
        assert(m * ((l - 4) * (p * u)) == (l - 4) * w);
    }
    assert(w <= 0x400_0000 * uu && uu > 0) by (nonlinear_arith)
        requires
            p * m <= 0x400_0000 * u,
            w == (p * m) * u,
            uu == u * u,
            u > 0,
    ;
    assert(16777216 * (75 * x) <= 16777220 * w && 16777212 * w <= 16777216 * (75 * x))
        by (nonlinear_arith)
        requires
            75 * (l * x) <= (l + 4) * w,
            (l - 4) * w <= 75 * (l * x),
            l == 16777216,
    ;
    assert(x <= 0x10_0000 * uu);
    lemma_extent_error(page, side, s);
    let e = scaled_extent(page@, Scale::Finite(s));
    let eu = e * u;
    assert(e * uu == eu * u) by (nonlinear_arith)
        requires
            uu == u * u,
            eu == e * u,
    ;
    assert((e + 1) * uu == eu * u + uu) by (nonlinear_arith)
        requires
            uu == u * u,
            eu == e * u,
    ;
    assert(-100 * uu < 75 * (eu * u) - w < 100 * uu);
    assert(-100 * u < 75 * eu - p * m < 100 * u) by (nonlinear_arith)
        requires
            -100 * uu < 75 * (eu * u) - w < 100 * uu,
            w == (p * m) * u,
            uu == u * u,
            u > 0,
    {
        assert((-100 * u) * u < (75 * eu - p * m) * u);
        assert((75 * eu - p * m) * u < (100 * u) * u);
    }
}

/// A zoom of nothing leaves one pixel.
pub proof fn law_no_zoom_leaves_one_pixel(app: AppState)
    requires
        app.zoom == ZoomMode::Fixed(0),
    ensures
        app.dimensions().0 == 1,
        app.dimensions().1 == 1,
{
    if app.terminal.zellij {
        law_cap_bounds_rasters(app.terminal, 1, 1);
    }
}

/// The percentage that fitting comes to is that of the fitted raster: as many
/// hundredths of 96 pixels as the raster has to the inch, to within one and a
/// pixel.
pub proof fn law_fit_percentage_is_of_the_raster(
    page: (Single, Single),
    viewport: (u32, u32),
    width: Fraction,
    scale: Fraction,
)
    requires
        page.0@ == Number::Finite(width),
        zoom_scale(page, (viewport.0 as int, viewport.1 as int), ZoomMode::Fit) == Scale::Finite(
            scale,
        ),
        magnitude(width) * magnitude(scale) <= 0x10_0000 * (one() * one()),
        one() <= 75 * magnitude(scale) <= 65000 * one(),
    ensures
        ({
            let r = spec_render_dimensions(
                page,
                (viewport.0 as int, viewport.1 as int),
                ZoomMode::Fit,
            );
            let off = r.2 * magnitude(width) - 75 * (r.0 * one());
            -(magnitude(width) + 75 * one()) < off < magnitude(width) + 75 * one()
        }),
{
    let limit = SINGLE as nat;
    lemma_zoom_scale(page, viewport, ZoomMode::Fit);
    lemma_extent_error(page.0, width, scale);
    lemma_round_error(75, 1, limit);
    lemma_integer_exact(75, limit);
    let factor = round(75, 1, limit);
    lemma_product_error(scale, factor, limit);
    let t = product(scale, factor, limit);
    lemma_nearest_error(t);
    lemma_one_positive();
    lemma_single(page.0);
    lemma_magnitude_positive(width);
    let (u, l, n, mt) = (one() as int, limit as int, nearest(t), magnitude(t));
    let (m, ms) = (magnitude(width), magnitude(scale));
    assert(l * mt <= (l + 1) * (75 * ms) && (l - 1) * (75 * ms) <= l * mt) by (nonlinear_arith)
        requires
            l * (mt * u) <= (l + 1) * (ms * (75 * u)),
            (l - 1) * (ms * (75 * u)) <= l * (mt * u),
            u > 0,
    {
        assert(ms * (75 * u) == (75 * ms) * u);
        assert((l * mt) * u <= ((l + 1) * (75 * ms)) * u);
        assert(((l - 1) * (75 * ms)) * u <= (l * mt) * u);
    }
    assert(l == 0x100_0000);
    let nu = n * u;
    assert(-u < nu - 75 * ms < u);
    assert(0 < n < 65535) by (nonlinear_arith)
        requires
            nu == n * u,
            -u < nu - 75 * ms < u,
            u <= 75 * ms <= 65000 * u,
            u > 0,
    ;
    let r = spec_render_dimensions(page, (viewport.0 as int, viewport.1 as int), ZoomMode::Fit);
    assert(r.2 == n);
    let (e, x) = (r.0, m * ms);
    assert(-(m + 75 * u) < n * m - 75 * (e * u) < m + 75 * u) by (nonlinear_arith)
        requires
            nu == n * u,
            -u < nu - 75 * ms < u,
            x == m * ms,
            e * (u * u) < x + u * u,
            x < (e + 1) * (u * u),
            m > 0,
            u > 0,
    {
        assert((nu - 75 * ms) * m < u * m);
        assert((nu - 75 * ms) * m > -u * m);
        assert((nu - 75 * ms) * m == (n * m) * u - 75 * x);
        assert((e * u) * u == e * (u * u));
        assert((n * m - 75 * (e * u)) * u == ((nu - 75 * ms) * m) + 75 * (x - e * (u * u)));
        assert((n * m - 75 * (e * u)) * u < (m + 75 * u) * u);
        assert((n * m - 75 * (e * u)) * u > (-(m + 75 * u)) * u);
    }
}

/// A quotient is rounded to an integer that is off by half at most, and to the
/// even one where two are.
pub proof fn law_halves_go_to_even(n: nat, d: nat)
    requires
        d > 0,
    ensures
        -(d as int) <= 2 * (half_even(n, d) * d - n) <= d,
        2 * (half_even(n, d) * d - n) == d || 2 * (half_even(n, d) * d - n) == -(d as int)
            ==> half_even(n, d) % 2 == 0,
{
    let (q, r, m) = ((n / d) as int, (n % d) as int, half_even(n, d));
    vstd::arithmetic::div_mod::lemma_fundamental_div_mod(n as int, d as int);
    assert(m * d - n == (m - q) * d - r) by (nonlinear_arith)
        requires
            n == d * q + r,
    ;
    assert((m == q && (m - q) * d == 0) || (m == q + 1 && (m - q) * d == d)) by (nonlinear_arith)
        requires
            m == q || m == q + 1,
    ;
}

/// A positive value is rounded to an integer that is off by half at most, and up
/// where two are.
pub proof fn law_halves_of_pixels_go_up(f: Fraction)
    requires
        -1900 < f.exponent < 1900,
        f.mantissa > 0,
    ensures
        2 * (nearest(f) * one()) <= 2 * magnitude(f) + one(),
        2 * magnitude(f) < 2 * (nearest(f) * one()) + one(),
{
    lemma_nearest_error(f);
    let (n, m, u) = (nearest(f), magnitude(f), one() as int);
    lemma_one_positive();
    if 2 * m == 2 * (n * u) + u {
        let w = pow2((f.exponent + 4096) as nat);
        lemma_pow2_pos((f.exponent + 4096) as nat);
        if f.exponent >= 0 {
            lemma_pow2_adds(f.exponent as nat, 4096);
            if f.exponent == 0 {
                vstd::arithmetic::power2::lemma2_to64();
            }
            let g = grow(f.exponent);
            assert(f.mantissa * (g * u) == (f.mantissa * g) * u) by (nonlinear_arith);
        } else {
            lemma_pow2_adds((-f.exponent) as nat, (f.exponent + 4096) as nat);
            let g = grow(-f.exponent);
            lemma_grow_pos(-f.exponent);
            let (a, x, y) = (f.mantissa, 2 * f.mantissa + g, 2 * g as int);
            vstd::arithmetic::div_mod::lemma_fundamental_div_mod(x, y);
            let r = x % y;
            assert(false) by (nonlinear_arith)
                requires
                    2 * (a * w) == 2 * (n * u) + u,
                    u == g * w,
                    x == y * n + r,
                    0 <= r < y,
                    x == 2 * a + g,
                    y == 2 * g,
                    w > 0,
            {
                assert(2 * (a * w) == (2 * a) * w);
                assert((2 * a) * w == (2 * g * n + r - g) * w);
                assert(2 * (n * u) + u == (2 * g * n + g) * w);
                assert((2 * g * n + r - g) * w == (2 * g * n + g) * w);
                assert(r - g == g);
            }
        }
    }
}

/// Rounding, dividing and multiplying are off by less than one part in the
/// number of mantissas.
pub proof fn law_arithmetic_is_close(a: Fraction, b: Fraction, limit: nat)
    requires
        is_limit(limit),
        limit <= DOUBLE,
        full_width(a, limit),
        full_width(b, limit),
        -1900 < a.exponent < 1900,
        -1900 < b.exponent < 1900,
    ensures
        full_width(quotient(a, b, limit), limit),
        full_width(product(a, b, limit), limit),
        limit * (magnitude(b) * magnitude(quotient(a, b, limit))) <= (limit + 1) * (magnitude(a)
            * one()),
        (limit - 1) * (magnitude(a) * one()) <= limit * (magnitude(b) * magnitude(
            quotient(a, b, limit),
        )),
        limit * (magnitude(product(a, b, limit)) * one()) <= (limit + 1) * (magnitude(a)
            * magnitude(b)),
        (limit - 1) * (magnitude(a) * magnitude(b)) <= limit * (magnitude(product(a, b, limit))
            * one()),
        at_most(a, b) ==> magnitude(a) <= magnitude(b),
        !at_most(a, b) ==> magnitude(b) <= magnitude(a),
{
    lemma_quotient_error(a, b, limit);
    lemma_product_error(a, b, limit);
    if at_most(a, b) {
        lemma_order(a, b, limit);
    } else {
        lemma_order(b, a, limit);
    }
}

/// A page that would have to shrink to less than a hundredth has a factor of one
/// hundredth.
proof fn lemma_too_large(page: Single, side: Fraction, pixels: nat)
    requires
        page@ == Number::Finite(side),
        pixels < 0x40_0000,
        101 * (pixels * one()) <= magnitude(side),
    ensures
        ratio(pixels, page@) matches Ratio::Low || (ratio(pixels, page@) matches Ratio::Finite(q)
            && !at_most(least_scale(), q)),
{
    let limit = SINGLE as nat;
    lemma_single(page);
    if pixels > 0 {
        let b = round(pixels, 1, limit);
        let q = quotient(b, side, limit);
        let least = least_scale();
        lemma_round_error(pixels, 1, limit);
        lemma_integer_exact(pixels, limit);
        lemma_round_error(1, 100, limit);
        lemma_quotient_error(b, side, limit);
        lemma_one_positive();
        lemma_magnitude_positive(q);
        let (u, l, v) = (one() as int, limit as int, pixels as int);
        let (m, mq, ml) = (magnitude(side), magnitude(q), magnitude(least));
        assert(101 * (l * mq) <= (l + 1) * u) by (nonlinear_arith)
            requires
                l * (m * mq) <= (l + 1) * ((v * u) * u),
                101 * (v * u) <= m,
                mq > 0,
                l > 0,
                v > 0,
                u > 0,
        {
            let k = v * u;
            assert(k > 0);
            assert((101 * k) * mq <= m * mq);
            assert(l * ((101 * k) * mq) <= l * (m * mq));
            assert(l * ((101 * k) * mq) == k * (101 * (l * mq)));
            assert((l + 1) * (k * u) == k * ((l + 1) * u));
            assert(k * (101 * (l * mq)) <= k * ((l + 1) * u));
        }
        assert((l - 1) * u <= l * (100 * ml));
        assert(mq < ml) by (nonlinear_arith)
            requires
                101 * (l * mq) <= (l + 1) * u,
                (l - 1) * u <= l * (100 * ml),
                l == 0x100_0000,
                u > 0,
        ;
        if q.exponent > 104 {
            lemma_large(q);
            assert(false) by (nonlinear_arith)
                requires
                    mq >= 0x80_0000 * u,
                    101 * (l * mq) <= (l + 1) * u,
                    l == 0x100_0000,
                    u > 0,
            ;
        } else if at_most(least, q) {
            lemma_order(least, q, limit);
        }
    }
}

/// A page that is more than a hundred times as large as the pane, in one direction,
/// is shrunk to a hundredth and no further: each side of the raster has a hundredth
/// of the points, to within two pixels, up to some 600000 pixels.
pub proof fn law_fit_shrinks_to_a_hundredth_at_most(
    page: (Single, Single),
    viewport: (nat, nat),
    sides: (Fraction, Fraction),
)
    requires
        page.0@ == Number::Finite(sides.0),
        page.1@ == Number::Finite(sides.1),
        viewport.0 < 0x40_0000,
        viewport.1 < 0x40_0000,
        101 * (viewport.0 * one()) <= magnitude(sides.0) || 101 * (viewport.1 * one())
            <= magnitude(sides.1),
        magnitude(sides.0) <= 0x400_0000 * one(),
        magnitude(sides.1) <= 0x400_0000 * one(),
    ensures
        ({
            let r = spec_render_dimensions(
                page,
                (viewport.0 as int, viewport.1 as int),
                ZoomMode::Fit,
            );
            &&& -200 * one() < 100 * (r.0 * one()) - magnitude(sides.0) < 200 * one()
            &&& -200 * one() < 100 * (r.1 * one()) - magnitude(sides.1) < 200 * one()
        }),
{
    if 101 * (viewport.0 * one()) <= magnitude(sides.0) {
        lemma_too_large(page.0, sides.0, viewport.0);
    } else {
        lemma_too_large(page.1, sides.1, viewport.1);
    }
    assert(zoom_scale(page, (viewport.0 as int, viewport.1 as int), ZoomMode::Fit)
        == Scale::Finite(least_scale()));
    lemma_hundredth(page.0, sides.0);
    lemma_hundredth(page.1, sides.1);
}

proof fn lemma_hundredth(page: Single, side: Fraction)
    requires
        page@ == Number::Finite(side),
        magnitude(side) <= 0x400_0000 * one(),
    ensures
        -200 * one() < 100 * (scaled_extent(page@, Scale::Finite(least_scale())) * one())
            - magnitude(side) < 200 * one(),
{
    let least = least_scale();
    lemma_round_error(1, 100, SINGLE as nat);
    lemma_single(page);
    lemma_magnitude_positive(side);
    lemma_one_positive();
    let (u, l, m, ml) = (one() as int, SINGLE as int, magnitude(side), magnitude(least));
    let (x, w, uu) = (m * ml, m * u, u * u);
    assert(16777216 * (100 * x) <= 16777217 * w && 16777215 * w <= 16777216 * (100 * x))
        by (nonlinear_arith)
        requires
            l * (100 * ml) <= (l + 1) * (1 * u),
            (l - 1) * (1 * u) <= l * (100 * ml),
            l == 16777216,
            x == m * ml,
            w == m * u,
            m > 0,
    {
        assert(m * (l * (100 * ml)) == l * (100 * x));
        assert(m * ((l + 1) * (1 * u)) == (l + 1) * w);
        assert(m * ((l - 1) * (1 * u)) == (l - 1) * w);
    }
    assert(w <= 0x400_0000 * uu && uu > 0) by (nonlinear_arith)
        requires
            m <= 0x400_0000 * u,
            w == m * u,
            uu == u * u,
            u > 0,
    ;
    assert(x <= 0x10_0000 * uu);
    lemma_extent_error(page, side, least);
    let e = scaled_extent(page@, Scale::Finite(least));
    let eu = e * u;
    assert(e * uu == eu * u && (e + 1) * uu == eu * u + uu) by (nonlinear_arith)
        requires
            uu == u * u,
            eu == e * u,
    ;
    assert(-200 * uu < 100 * (eu * u) - w < 200 * uu);
    assert(-200 * u < 100 * eu - m < 200 * u) by (nonlinear_arith)
        requires
            -200 * uu < 100 * (eu * u) - w < 200 * uu,
            w == m * u,
            uu == u * u,
            u > 0,
    {
        assert((-200 * u) * u < (100 * eu - m) * u);
        assert((100 * eu - m) * u < (200 * u) * u);
    }
}

} // verus!
