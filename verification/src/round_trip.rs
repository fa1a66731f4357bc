//! Nothing is lost on the way from red, green and blue to hue, saturation
//! and lightness: the proof that every colour comes back exactly.

use crate::color::{
    channel, channel_share, chroma_room, chroma_span, hi_of, hsl_of, hue_of, lemma_hsl_of_valid,
    lemma_round_div_bounds, lightness_of, lo_of, rgb_at, round_div, saturation_of, sextant_of,
    sextant_offset, Color, FULL, SEXTANT,
};
use vstd::prelude::*;

verus! {

/// A quotient rounds to `v` when it is less than a half away from it.
pub proof fn lemma_round_div_near(a: int, b: int, v: int)
    requires
        b > 0,
        -b <= 2 * (a - v * b) < b,
    ensures
        round_div(a, b) == v,
{
    let n = 2 * a + b;
    let d = 2 * b;
    assert(n == d * v + (n - d * v));
    assert(0 <= n - d * v < d) by (nonlinear_arith)
        requires
            n == 2 * a + b,
            d == 2 * b,
            -b <= 2 * (a - v * b) < b,
    ;
    vstd::arithmetic::div_mod::lemma_fundamental_div_mod_converse(n, d, v, n - d * v);
}

/// A number within `k` of nought, times a number that is not negative, is
/// within `k` times that number of nought.
proof fn lemma_scaled_bound(a: int, k: int, m: int)
    requires
        -k <= a <= k,
        0 <= m,
    ensures
        -(k * m) <= a * m <= k * m,
{
    assert(-(k * m) <= a * m <= k * m) by (nonlinear_arith)
        requires
            -k <= a <= k,
            0 <= m,
    ;
}

/// A grey keeps its level: with no saturation every channel is the
/// lightness, and the lightness of a grey of level `v` rounds back to `v`.
proof fn lemma_grey_recovers(v: int, t: int)
    requires
        0 <= v <= 255,
        0 <= t <= SEXTANT,
    ensures
        channel(0, round_div(FULL * (v + v), 510), t) == v,
{
    let l = round_div(FULL * (v + v), 510);
    lemma_round_div_bounds(FULL * (v + v), 510);
    let a = 510 * l - 200_000 * v;
    assert(-255 <= a <= 255);
    assert(chroma_span(l) * 0 == 0);
    let share = channel_share(0, l, t);
    assert(share == 2 * l * 100_000 * 60_000) by (nonlinear_arith)
        requires
            share == (2 * l * 100_000 - 0) * 60_000 + 2 * 0 * t,
    ;
    let den = 2 * FULL * FULL * SEXTANT;
    assert(den == 1_200_000_000_000_000) by (nonlinear_arith)
        requires
            den == 2 * 100_000 * 100_000 * 60_000,
    ;
    assert(255 * share - v * den == a * 6_000_000_000);
    lemma_round_div_near(255 * share, den, v);
}

/// A colour with unequal channels keeps each of them: the channel that
/// stands `x` steps above the lowest one (`lo`) comes back as `lo + x` from
/// the saturation and the lightness of the colour and from any `t` that is
/// `SEXTANT * x / (hi - lo)`, rounded.
proof fn lemma_channel_recovers(lo: int, hi: int, x: int, t: int)
    requires
        0 <= lo < hi <= 255,
        0 <= x <= hi - lo,
        0 <= t <= SEXTANT,
        -(hi - lo) <= 2 * ((hi - lo) * t - SEXTANT * x) <= hi - lo,
    ensures
        channel(
            round_div(FULL * (hi - lo), chroma_room(hi + lo)),
            round_div(FULL * (hi + lo), 510),
            t,
        ) == lo + x,
{
    let c = hi - lo;
    let sum = hi + lo;
    let d = chroma_room(sum);
    let l = round_div(FULL * sum, 510);
    let s = round_div(FULL * c, d);
    let v = lo + x;
    assert(0 < c <= d <= 255);
    lemma_round_div_bounds(FULL * sum, 510);
    lemma_round_div_bounds(FULL * c, d);
    // What the three roundings are off by.
    let a = 510 * l - 100_000 * sum;
    assert(-255 <= a <= 255);
    let b = d * s - 100_000 * c;
    assert(-d <= 2 * b <= d) by (nonlinear_arith)
        requires
            b == d * s - 100_000 * c,
            2 * d * s <= 2 * (100_000 * c) + d < 2 * d * s + 2 * d,
    ;
    let e = c * t - 60_000 * x;
    assert(-c <= 2 * e <= c);
    let span = chroma_span(l);
    let ap = 255 * span - 100_000 * d;
    assert(-255 <= ap <= 255);
    let p = span * s;
    // 255 * d * p is the exact chroma, but for a small remainder.
    let q = 255 * d * p;
    let u = 255 * span;
    let w = d * s;
    assert(q == u * w) by (nonlinear_arith)
        requires
            q == 255 * d * p,
            p == span * s,
            u == 255 * span,
            w == d * s,
    ;
    let rest = q - 10_000_000_000 * (d * c);
    assert(rest == 100_000 * (d * b) + 100_000 * (ap * c) + ap * b) by (nonlinear_arith)
        requires
            rest == u * w - 10_000_000_000 * (d * c),
            u == 100_000 * d + ap,
            w == 100_000 * c + b,
    ;
    lemma_scaled_bound(2 * b, d, d);
    lemma_scaled_bound(ap, 255, c);
    lemma_scaled_bound(ap, 255, d);
    lemma_scaled_bound(2 * b, d, 255);
    assert(-(255 * d) <= 2 * (ap * b) <= 255 * d) by (nonlinear_arith)
        requires
            -255 <= ap <= 255,
            -d <= 2 * b <= d,
    ;
    assert(2 * b * d == 2 * (d * b)) by (nonlinear_arith);
    assert(d * d <= 255 * d && 255 * c <= 255 * d) by (nonlinear_arith)
        requires
            0 < c <= d <= 255,
    ;
    assert(-(76_500_255 * d) <= 2 * rest <= 76_500_255 * d);
    // The distance of the exact channel from `v`, times d * c.
    let share = channel_share(s, l, t);
    let den = 2 * FULL * FULL * SEXTANT;
    assert(den == 1_200_000_000_000_000) by (nonlinear_arith)
        requires
            den == 2 * 100_000 * 100_000 * 60_000,
    ;
    let off = 255 * share - v * den;
    assert(off == a * 6_000_000_000 + (c - 2 * x) * 600_000_000_000_000 - 15_300_000 * p + 510
        * (p * t)) by (nonlinear_arith)
        requires
            off == 255 * ((2 * l * 100_000 - p) * 60_000 + 2 * p * t) - v * 1_200_000_000_000_000,
            a == 510 * l - 100_000 * sum,
            2 * v == sum - c + 2 * x,
    ;
    let m = d * c;
    let y = 2 * x - c;
    assert(m * off == 6_000_000_000 * (a * m) - 600_000_000_000_000 * (m * y) - 15_300_000 * (m
        * p) + 510 * (m * (p * t))) by (nonlinear_arith)
        requires
            off == a * 6_000_000_000 + (c - 2 * x) * 600_000_000_000_000 - 15_300_000 * p + 510 * (
            p * t),
            y == 2 * x - c,
    ;
    assert(255 * (m * p) == q * c) by (nonlinear_arith)
        requires
            m == d * c,
            q == 255 * d * p,
    ;
    assert(255 * (m * (p * t)) == q * (c * t)) by (nonlinear_arith)
        requires
            m == d * c,
            q == 255 * d * p,
    ;
    assert(q * (c * t) == 60_000 * (q * x) + q * e) by (nonlinear_arith)
        requires
            c * t == 60_000 * x + e,
    ;
    assert(rest * y == 2 * (q * x) - q * c - 10_000_000_000 * (m * y)) by (nonlinear_arith)
        requires
            rest == q - 10_000_000_000 * m,
            y == 2 * x - c,
    ;
    assert(m * off == 6_000_000_000 * (a * m) + 60_000 * (rest * y) + 2 * (q * e));
    assert(0 < m) by (nonlinear_arith)
        requires
            m == d * c,
            0 < c,
            0 < d,
    ;
    lemma_scaled_bound(a, 255, m);
    assert(-(76_500_255 * m) <= 2 * (rest * y) <= 76_500_255 * m) by (nonlinear_arith)
        requires
            -(76_500_255 * d) <= 2 * rest <= 76_500_255 * d,
            -c <= y <= c,
            m == d * c,
            0 < c,
            0 < d,
    ;
    assert(0 <= 2 * q <= 5_100_076_500_255 * d) by (nonlinear_arith)
        requires
            2 * q == 2 * rest + 20_000_000_000 * (d * c),
            -(76_500_255 * d) <= 2 * rest <= 76_500_255 * d,
            0 < c <= 255,
            0 < d,
            0 <= q,
    ;
    assert(-(5_100_076_500_255 * m) <= 4 * (q * e) <= 5_100_076_500_255 * m) by (nonlinear_arith)
        requires
            0 <= 2 * q <= 5_100_076_500_255 * d,
            -c <= 2 * e <= c,
            m == d * c,
            0 < c,
            0 < d,
    ;
    assert(-(1_200_000_000_000_000 * m) < 2 * (m * off) < 1_200_000_000_000_000 * m);
    assert(-den < 2 * off < den) by (nonlinear_arith)
        requires
            -(1_200_000_000_000_000 * m) < 2 * (m * off) < 1_200_000_000_000_000 * m,
            0 < m,
            den == 1_200_000_000_000_000,
    ;
    lemma_round_div_near(255 * share, den, v);
}

/// The conversion to hue, saturation and lightness loses nothing: every RGB
/// colour comes back from its HSL form exactly, so converting there, back
/// and there again gives the same HSL form as converting once.
pub proof fn lemma_rgb_round_trip(c: Color)
    ensures
        hsl_of(c).valid(),
        hsl_of(c).rgb() == c,
        hsl_of(hsl_of(c).rgb()) == hsl_of(c),
{
    lemma_hsl_of_valid(c);
    let r = c.r as int;
    let g = c.g as int;
    let b = c.b as int;
    let hi = hi_of(r, g, b);
    let lo = lo_of(r, g, b);
    let h = hue_of(r, g, b);
    let s = saturation_of(r, g, b);
    let l = lightness_of(r, g, b);
    let sixth = SEXTANT as int;
    assert(hsl_of(c).rgb() == rgb_at(h, s, l));
    if hi == lo {
        lemma_grey_recovers(hi, 0);
        lemma_grey_recovers(hi, sixth);
        assert(h / sixth == 0 && h % sixth == 0);
    } else {
        let span = hi - lo;
        let k = sextant_of(r, g, b);
        let y = sextant_offset(r, g, b);
        let f = round_div(SEXTANT * y, span);
        assert(0 <= y < span);
        lemma_round_div_bounds(SEXTANT * y, span);
        assert(0 <= f < sixth) by (nonlinear_arith)
            requires
                0 <= y < span,
                span <= 255,
                sixth == 60_000,
                2 * span * f <= 2 * (60_000 * y) + span < 2 * span * f + 2 * span,
        ;
        assert(h == sixth * k + f) by (nonlinear_arith)
            requires
                h == k * sixth + f,
        ;
        vstd::arithmetic::div_mod::lemma_fundamental_div_mod_converse(h, sixth, k, f);
        let t = if k % 2 == 0 { f } else { sixth - f };
        let x = if k % 2 == 0 { y } else { span - y };
        assert(-span <= 2 * (span * t - 60_000 * x) <= span) by (nonlinear_arith)
            requires
                2 * span * f <= 2 * (60_000 * y) + span < 2 * span * f + 2 * span,
                (t == f && x == y) || (t == 60_000 - f && x == span - y),
        ;
        assert(span * sixth - 60_000 * span == 0) by (nonlinear_arith)
            requires
                sixth == 60_000,
        ;
        assert(span * 0 - 60_000 * 0 == 0);
        lemma_channel_recovers(lo, hi, 0, 0);
        lemma_channel_recovers(lo, hi, x, t);
        lemma_channel_recovers(lo, hi, span, sixth);
        assert(channel(s, l, 0) == lo);
        assert(channel(s, l, t) == lo + x);
        assert(channel(s, l, sixth) == hi);
    }
}

} // verus!
