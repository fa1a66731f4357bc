//! What the colour of a glyph comes to, fade after fade: it gets darker,
//! reaches the floor of its hue, and rests there.

use crate::color::{
    channel, channel_share, hi_of, hsl_of, hue_of, lemma_channel_range, lemma_hsl_of_valid,
    lemma_round_div_bounds, lightness_of, lo_of, rgb_at, round_div, saturation_of, sextant_of,
    sextant_offset, Color, HslColor, FULL, SEXTANT, TURN,
};
use crate::fade::{fade_of, FLOOR};
use crate::glyph::faded_color;
use crate::round_trip::lemma_round_div_near;
use vstd::prelude::*;

verus! {

/// How far, at most, the lightness of a colour moves when the colour is
/// written in red, green and blue and read back.
pub const LIGHTNESS_SLACK: u32 = 196;

/// After this many fades, at the latest, the colour of a glyph rests.
pub const FADES_TO_REST: u32 = 24;

/// The colour of a glyph after `n` fades.
pub open spec fn faded_color_times(c: Color, n: nat) -> Color
    decreases n,
{
    if n == 0 {
        c
    } else {
        faded_color(faded_color_times(c, (n - 1) as nat))
    }
}

/// The colour of hue `h` with saturation and lightness at the floor.
pub open spec fn floor_color(h: int) -> Color {
    rgb_at(h, FLOOR as int, FLOOR as int)
}

/// Whether `c` is the colour of its own hue at the floor.
pub open spec fn at_rest(c: Color) -> bool {
    c == floor_color(hue_of(c.r as int, c.g as int, c.b as int))
}

/// The largest lightness that `n` fades can leave to a colour that does not
/// rest yet.
pub open spec fn dim_cap(n: nat) -> int
    decreases n,
{
    if n == 0 {
        FULL as int
    } else {
        dim_cap((n - 1) as nat) * 9 / 10 + LIGHTNESS_SLACK
    }
}

/// The larger of two numbers has the larger rounded quotient.
proof fn lemma_round_div_monotone(a1: int, a2: int, b: int)
    requires
        b > 0,
        a1 <= a2,
    ensures
        round_div(a1, b) <= round_div(a2, b),
{
    lemma_round_div_bounds(a1, b);
    lemma_round_div_bounds(a2, b);
    let q1 = round_div(a1, b);
    let q2 = round_div(a2, b);
    assert(q1 <= q2) by (nonlinear_arith)
        requires
            b > 0,
            2 * b * q1 <= 2 * a1 + b,
            2 * a2 + b < 2 * b * q2 + 2 * b,
            a1 <= a2,
    ;
}

/// A channel that stands higher on the way from the lowest to the highest
/// has the larger value.
proof fn lemma_channel_monotone(s: int, l: int, t1: int, t2: int)
    requires
        0 <= s <= FULL,
        0 <= l <= FULL,
        0 <= t1 <= t2 <= SEXTANT,
    ensures
        0 <= channel(s, l, t1) <= channel(s, l, t2) <= 255,
{
    lemma_channel_range(s, l, t1);
    lemma_channel_range(s, l, t2);
    let p = crate::color::chroma_span(l) * s;
    assert(2 * p * t1 <= 2 * p * t2) by (nonlinear_arith)
        requires
            0 <= p,
            t1 <= t2,
    ;
    lemma_round_div_monotone(
        255 * channel_share(s, l, t1),
        255 * channel_share(s, l, t2),
        2 * FULL * FULL * SEXTANT,
    );
}

/// The largest channel of a colour made from hue, saturation and lightness
/// is the one at the end of the way, the smallest the one at its start.
proof fn lemma_rgb_extremes(h: int, s: int, l: int)
    requires
        0 <= h < TURN,
        0 <= s <= FULL,
        0 <= l <= FULL,
    ensures
        hi_of(rgb_at(h, s, l).r as int, rgb_at(h, s, l).g as int, rgb_at(h, s, l).b as int)
            == channel(s, l, SEXTANT as int),
        lo_of(rgb_at(h, s, l).r as int, rgb_at(h, s, l).g as int, rgb_at(h, s, l).b as int)
            == channel(s, l, 0),
{
    let sixth = SEXTANT as int;
    let k = h / sixth;
    let f = h % sixth;
    assert(0 <= k <= 5 && 0 <= f < sixth);
    let t = if k % 2 == 0 { f } else { sixth - f };
    lemma_channel_monotone(s, l, 0, t);
    lemma_channel_monotone(s, l, t, sixth);
}

/// Written in red, green and blue and read back, a colour keeps its
/// lightness to within `LIGHTNESS_SLACK`.
pub proof fn lemma_lightness_survives(c: HslColor)
    requires
        c.valid(),
    ensures
        c.l - LIGHTNESS_SLACK <= hsl_of(c.rgb()).l <= c.l + LIGHTNESS_SLACK,
{
    let s = c.s as int;
    let l = c.l as int;
    let rgb = c.rgb();
    assert(c.normalized() == c);
    lemma_rgb_extremes(c.h as int, s, l);
    lemma_hsl_of_valid(rgb);
    let hi = channel(s, l, SEXTANT as int);
    let lo = channel(s, l, 0);
    lemma_channel_range(s, l, SEXTANT as int);
    lemma_channel_range(s, l, 0);
    let top = channel_share(s, l, SEXTANT as int);
    let bottom = channel_share(s, l, 0);
    let p = crate::color::chroma_span(l) * s;
    assert(top + bottom == 24_000_000_000 * l) by (nonlinear_arith)
        requires
            top == (2 * l * 100_000 - p) * 60_000 + 2 * p * 60_000,
            bottom == (2 * l * 100_000 - p) * 60_000 + 2 * p * 0,
    ;
    let den = 2 * FULL * FULL * SEXTANT;
    assert(den == 1_200_000_000_000_000) by (nonlinear_arith)
        requires
            den == 2 * 100_000 * 100_000 * 60_000,
    ;
    lemma_round_div_bounds(255 * top, den);
    lemma_round_div_bounds(255 * bottom, den);
    assert(2 * den * hi == 2_400_000_000_000_000 * hi && 2 * den * lo == 2_400_000_000_000_000
        * lo) by (nonlinear_arith)
        requires
            den == 1_200_000_000_000_000,
    ;
    lemma_round_div_bounds(FULL * (hi + lo), 510);
    assert(hsl_of(rgb).l == round_div(FULL * (hi + lo), 510));
}

/// Until the floor is hit, a fade makes the colour of a glyph darker.
pub proof fn lemma_fade_darkens(c: Color)
    ensures
        fade_of(hsl_of(c)).at_floor() || hsl_of(faded_color(c)).l < hsl_of(c).l,
{
    lemma_hsl_of_valid(c);
    let dim = fade_of(hsl_of(c));
    if !dim.at_floor() {
        lemma_lightness_survives(dim);
    }
}

/// At the floor the lowest channel is 23 and the highest 28, and the six
/// steps between them stand at every fifth of the way.
proof fn lemma_floor_channels(x: int)
    requires
        0 <= x <= 5,
    ensures
        channel(FLOOR as int, FLOOR as int, 12_000 * x) == 23 + x,
{
    let t = 12_000 * x;
    let share = channel_share(10_000, 10_000, t);
    assert(share == 108_000_000_000_000 + 400_000_000 * t) by (nonlinear_arith)
        requires
            share == (2 * 10_000 * 100_000 - 20_000 * 10_000) * 60_000 + 2 * (20_000 * 10_000) * t,
    ;
    let den = 2 * FULL * FULL * SEXTANT;
    assert(den == 1_200_000_000_000_000) by (nonlinear_arith)
        requires
            den == 2 * 100_000 * 100_000 * 60_000,
    ;
    lemma_round_div_near(255 * share, den, 23 + x);
}

/// A colour whose channels span from 23 to 28 is the colour of its own hue
/// at the floor, and a fade leaves it as it is.
proof fn lemma_floor_span_rests(c: Color)
    requires
        hi_of(c.r as int, c.g as int, c.b as int) == 28,
        lo_of(c.r as int, c.g as int, c.b as int) == 23,
    ensures
        at_rest(c),
        hsl_of(c).l == FLOOR,
        faded_color(c) == c,
{
    let r = c.r as int;
    let g = c.g as int;
    let b = c.b as int;
    let sixth = SEXTANT as int;
    let k = sextant_of(r, g, b);
    let y = sextant_offset(r, g, b);
    assert(0 <= y < 5);
    lemma_round_div_near(SEXTANT * y, 5, 12_000 * y);
    let h = hue_of(r, g, b);
    assert(h == sixth * k + 12_000 * y) by (nonlinear_arith)
        requires
            h == k * sixth + 12_000 * y,
    ;
    vstd::arithmetic::div_mod::lemma_fundamental_div_mod_converse(h, sixth, k, 12_000 * y);
    let x = if k % 2 == 0 { y } else { 5 - y };
    lemma_floor_channels(0);
    lemma_floor_channels(x);
    lemma_floor_channels(5);
    assert(floor_color(h) == c);
    lemma_round_div_near(FULL * 51, 510, 10_000);
    lemma_round_div_near(FULL * 5, 51, 9_804);
    assert(lightness_of(r, g, b) == 10_000);
    assert(saturation_of(r, g, b) == 9_804);
    assert(hsl_of(c) == (HslColor { h: h as u32, s: 9_804, l: 10_000 }));
    assert(fade_of(hsl_of(c)) == (HslColor { h: h as u32, s: FLOOR, l: FLOOR }));
}

/// The colour of any hue at the floor rests: it is the colour of its own
/// hue at the floor, and a fade leaves it as it is.
pub proof fn lemma_floor_color_rests(h: int)
    requires
        0 <= h < TURN,
    ensures
        at_rest(floor_color(h)),
        hsl_of(floor_color(h)).l == FLOOR,
        faded_color(floor_color(h)) == floor_color(h),
{
    lemma_rgb_extremes(h, FLOOR as int, FLOOR as int);
    lemma_floor_channels(0);
    lemma_floor_channels(5);
    lemma_floor_span_rests(floor_color(h));
}

/// A colour that rests stays as it is under a fade.
pub proof fn lemma_rest_is_fixed(c: Color)
    requires
        at_rest(c),
    ensures
        faded_color(c) == c,
{
    lemma_hsl_of_valid(c);
    lemma_floor_color_rests(hue_of(c.r as int, c.g as int, c.b as int));
}

/// After `n` fades the colour of a glyph rests or is no lighter than
/// `dim_cap(n)`.
proof fn lemma_fades_capped(c: Color, n: nat)
    ensures
        at_rest(faded_color_times(c, n)) || hsl_of(faded_color_times(c, n)).l <= dim_cap(n),
    decreases n,
{
    if n == 0 {
        lemma_hsl_of_valid(c);
    } else {
        let before = faded_color_times(c, (n - 1) as nat);
        lemma_fades_capped(c, (n - 1) as nat);
        lemma_hsl_of_valid(before);
        let dim = fade_of(hsl_of(before));
        if at_rest(before) {
            lemma_rest_is_fixed(before);
        } else if dim.at_floor() {
            assert(dim.normalized() == dim);
            lemma_floor_color_rests(dim.h as int);
        } else {
            lemma_lightness_survives(dim);
        }
    }
}

/// After one fade short of `FADES_TO_REST` what is left of the lightness is
/// so little that the next fade hits the floor.
proof fn lemma_dim_cap_end()
    ensures
        dim_cap(23) == 10_645,
{
    assert(dim_cap(0) == 100_000);
    assert(dim_cap(1) == 90_196);
    assert(dim_cap(2) == 81_372);
    assert(dim_cap(3) == 73_430);
    assert(dim_cap(4) == 66_283);
    assert(dim_cap(5) == 59_850);
    assert(dim_cap(6) == 54_061);
    assert(dim_cap(7) == 48_850);
    assert(dim_cap(8) == 44_161);
    assert(dim_cap(9) == 39_940);
    assert(dim_cap(10) == 36_142);
    assert(dim_cap(11) == 32_723);
    assert(dim_cap(12) == 29_646);
    assert(dim_cap(13) == 26_877);
    assert(dim_cap(14) == 24_385);
    assert(dim_cap(15) == 22_142);
    assert(dim_cap(16) == 20_123);
    assert(dim_cap(17) == 18_306);
    assert(dim_cap(18) == 16_671);
    assert(dim_cap(19) == 15_199);
    assert(dim_cap(20) == 13_875);
    assert(dim_cap(21) == 12_683);
    assert(dim_cap(22) == 11_610);
    assert(dim_cap(23) == 10_645);
}

/// The colour of a glyph converges: after `FADES_TO_REST` fades it is the
/// colour of its own hue at the floor, and every further fade leaves it
/// exactly there.
pub proof fn lemma_glyph_color_comes_to_rest(c: Color, n: nat)
    requires
        n >= FADES_TO_REST,
    ensures
        at_rest(faded_color_times(c, n)),
        faded_color_times(c, n) == faded_color_times(c, FADES_TO_REST as nat),
        faded_color(faded_color_times(c, n)) == faded_color_times(c, n),
    decreases n,
{
    if n == FADES_TO_REST {
        let before = faded_color_times(c, 23);
        lemma_fades_capped(c, 23);
        lemma_hsl_of_valid(before);
        let dim = fade_of(hsl_of(before));
        if at_rest(before) {
            lemma_rest_is_fixed(before);
        } else {
            lemma_dim_cap_end();
            assert(hsl_of(before).l <= 10_645);
            assert(dim.at_floor());
            assert(dim.normalized() == dim);
            lemma_floor_color_rests(dim.h as int);
        }
        lemma_rest_is_fixed(faded_color_times(c, n));
    } else {
        lemma_glyph_color_comes_to_rest(c, (n - 1) as nat);
    }
}

} // verus!
