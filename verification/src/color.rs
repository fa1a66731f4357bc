//! RGB colours and their hue / saturation / lightness form.
//!
//! Hue is held in thousandths of a degree, saturation and lightness in
//! thousandths of a percent, so that every conversion is integer arithmetic
//! with a single rounding per stored number.

use vstd::prelude::*;

verus! {

/// Saturation or lightness of 100 %, in thousandths of a percent.
pub const FULL: u32 = 100_000;

/// One sixth of the hue circle (60 degrees), in thousandths of a degree.
pub const SEXTANT: u32 = 60_000;

/// The whole hue circle (360 degrees), in thousandths of a degree.
pub const TURN: u32 = 360_000;

/// A colour as red, green and blue channels.
#[derive(Clone, Copy, Debug, PartialEq, Eq, Structural)]
pub struct Color {
    pub r: u8,
    pub g: u8,
    pub b: u8,
}

/// A colour as hue, saturation and lightness, in the fixed-point units of
/// this module.
#[derive(Clone, Copy, Debug, PartialEq, Eq, Structural)]
pub struct HslColor {
    pub h: u32,
    pub s: u32,
    pub l: u32,
}

/// `a / b` rounded to the nearest integer, halves upwards.
pub open spec fn round_div(a: int, b: int) -> int {
    (2 * a + b) / (2 * b)
}

/// The largest of three numbers.
pub open spec fn hi_of(r: int, g: int, b: int) -> int {
    if r >= g && r >= b {
        r
    } else if g >= b {
        g
    } else {
        b
    }
}

/// The smallest of three numbers.
pub open spec fn lo_of(r: int, g: int, b: int) -> int {
    if r <= g && r <= b {
        r
    } else if g <= b {
        g
    } else {
        b
    }
}

/// Which sixth of the hue circle a colour with unequal channels lies in:
/// 0 from red to yellow, 1 from yellow to green, and so on round to 5, from
/// magenta back to red. Each sixth holds its starting corner and not its end.
pub open spec fn sextant_of(r: int, g: int, b: int) -> int {
    if r > g && g >= b {
        0
    } else if g >= r && r > b {
        1
    } else if g > b && b >= r {
        2
    } else if b >= g && g > r {
        3
    } else if b > r && r >= g {
        4
    } else {
        5
    }
}

/// How far the colour has moved from the starting corner of its sextant,
/// counted in channel steps: the middle channel rises in the even sextants
/// and falls in the odd ones.
pub open spec fn sextant_offset(r: int, g: int, b: int) -> int {
    let k = sextant_of(r, g, b);
    if k == 0 {
        g - b
    } else if k == 1 {
        g - r
    } else if k == 2 {
        b - r
    } else if k == 3 {
        b - g
    } else if k == 4 {
        r - g
    } else {
        r - b
    }
}

/// Lightness of an RGB colour: the mean of its largest and smallest channel,
/// as a share of 255.
pub open spec fn lightness_of(r: int, g: int, b: int) -> int {
    round_div(FULL * (hi_of(r, g, b) + lo_of(r, g, b)), 510)
}

/// What the chroma of a colour with this channel sum can at most be.
pub open spec fn chroma_room(sum: int) -> int {
    if sum <= 255 {
        sum
    } else {
        510 - sum
    }
}

/// Saturation of an RGB colour: its chroma as a share of the largest chroma
/// that its lightness leaves room for; zero for a grey.
pub open spec fn saturation_of(r: int, g: int, b: int) -> int {
    let hi = hi_of(r, g, b);
    let lo = lo_of(r, g, b);
    if hi == lo {
        0
    } else {
        round_div(FULL * (hi - lo), chroma_room(hi + lo))
    }
}

/// Hue of an RGB colour; zero for a grey.
pub open spec fn hue_of(r: int, g: int, b: int) -> int {
    let hi = hi_of(r, g, b);
    let lo = lo_of(r, g, b);
    if hi == lo {
        0
    } else {
        sextant_of(r, g, b) * SEXTANT + round_div(SEXTANT * sextant_offset(r, g, b), hi - lo)
    }
}

/// The hue / saturation / lightness form of an RGB colour.
pub open spec fn hsl_of(c: Color) -> HslColor {
    HslColor {
        h: hue_of(c.r as int, c.g as int, c.b as int) as u32,
        s: saturation_of(c.r as int, c.g as int, c.b as int) as u32,
        l: lightness_of(c.r as int, c.g as int, c.b as int) as u32,
    }
}

/// The share of full chroma that a lightness leaves room for, times `FULL`.
pub open spec fn chroma_span(l: int) -> int {
    if 2 * l <= FULL {
        2 * l
    } else {
        2 * FULL - 2 * l
    }
}

/// The number that `channel` rounds, before it is scaled to 255: it lies
/// between nought and one, in units of `1 / (2 * FULL * FULL * SEXTANT)`.
pub open spec fn channel_share(s: int, l: int, t: int) -> int {
    let p = chroma_span(l) * s;
    (2 * l * FULL - p) * SEXTANT + 2 * p * t
}

/// The value, out of 255, of a channel that stands `t` thousandths of a
/// degree above the lowest channel on the way to the highest one
/// (`0 <= t <= SEXTANT`), for saturation `s` and lightness `l`.
///
/// With chroma `c = (1 - |2l - 1|) * s` in real numbers, the channel is
/// `l - c / 2 + c * t / 60`; this is that number times 255, rounded once.
pub open spec fn channel(s: int, l: int, t: int) -> int {
    round_div(255 * channel_share(s, l, t), 2 * FULL * FULL * SEXTANT)
}

/// The RGB colour of a hue, a saturation and a lightness that are in range.
pub open spec fn rgb_at(h: int, s: int, l: int) -> Color {
    let k = h / (SEXTANT as int);
    let f = h % (SEXTANT as int);
    let t = if k % 2 == 0 { f } else { SEXTANT - f };
    let lo = channel(s, l, 0) as u8;
    let mid = channel(s, l, t) as u8;
    let hi = channel(s, l, SEXTANT as int) as u8;
    if k == 0 {
        Color { r: hi, g: mid, b: lo }
    } else if k == 1 {
        Color { r: mid, g: hi, b: lo }
    } else if k == 2 {
        Color { r: lo, g: hi, b: mid }
    } else if k == 3 {
        Color { r: lo, g: mid, b: hi }
    } else if k == 4 {
        Color { r: mid, g: lo, b: hi }
    } else {
        Color { r: hi, g: lo, b: mid }
    }
}

impl HslColor {
    /// Hue below a full turn, saturation and lightness at most 100 %.
    pub open spec fn valid(self) -> bool {
        self.h < TURN && self.s <= FULL && self.l <= FULL
    }

    /// The same colour with its hue taken round the circle and its
    /// saturation and lightness cut off at 100 %.
    pub open spec fn normalized(self) -> HslColor {
        HslColor {
            h: self.h % TURN,
            s: if self.s <= FULL { self.s } else { FULL },
            l: if self.l <= FULL { self.l } else { FULL },
        }
    }

    /// The RGB colour that this colour stands for.
    pub open spec fn rgb(self) -> Color {
        let n = self.normalized();
        rgb_at(n.h as int, n.s as int, n.l as int)
    }

    /// A colour of the given hue, saturation and lightness, brought into
    /// range.
    pub fn new(h: u32, s: u32, l: u32) -> (hsl: HslColor)
        ensures
            hsl == (HslColor { h, s, l }).normalized(),
            hsl.valid(),
    {
        HslColor {
            h: h % TURN,
            s: if s <= FULL { s } else { FULL },
            l: if l <= FULL { l } else { FULL },
        }
    }
}

/// What rounding a quotient to the nearest integer means: twice the
/// remainder lies within the divisor.
pub proof fn lemma_round_div_bounds(a: int, b: int)
    requires
        b > 0,
    ensures
        2 * b * round_div(a, b) <= 2 * a + b < 2 * b * round_div(a, b) + 2 * b,
{
    let n = 2 * a + b;
    let d = 2 * b;
    vstd::arithmetic::div_mod::lemma_fundamental_div_mod(n, d);
    vstd::arithmetic::div_mod::lemma_mod_bound(n, d);
    assert(d * (n / d) == 2 * b * round_div(a, b)) by (nonlinear_arith)
        requires
            d == 2 * b,
            n / d == round_div(a, b),
    ;
}

/// The three numbers of `hsl_of` are in range for every RGB colour.
pub proof fn lemma_hsl_of_valid(c: Color)
    ensures
        0 <= hue_of(c.r as int, c.g as int, c.b as int) < TURN,
        0 <= saturation_of(c.r as int, c.g as int, c.b as int) <= FULL,
        0 <= lightness_of(c.r as int, c.g as int, c.b as int) <= FULL,
        hsl_of(c).valid(),
        hsl_of(c).normalized() == hsl_of(c),
{
    let r = c.r as int;
    let g = c.g as int;
    let b = c.b as int;
    let hi = hi_of(r, g, b);
    let lo = lo_of(r, g, b);
    let sum = hi + lo;
    let span = hi - lo;
    lemma_round_div_bounds(FULL * sum, 510);
    if hi != lo {
        let room = chroma_room(sum);
        let y = sextant_offset(r, g, b);
        let k = sextant_of(r, g, b);
        assert(0 < span <= room);
        assert(0 <= y < span);
        lemma_round_div_bounds(FULL * span, room);
        let s = round_div(FULL * span, room);
        assert(0 <= s <= FULL) by (nonlinear_arith)
            requires
                0 < span <= room,
                2 * room * s <= 2 * (FULL * span) + room < 2 * room * s + 2 * room,
        ;
        lemma_round_div_bounds(SEXTANT * y, span);
        let f = round_div(SEXTANT * y, span);
        assert(0 <= f < SEXTANT) by (nonlinear_arith)
            requires
                0 <= y < span,
                span <= 255,
                2 * span * f <= 2 * (SEXTANT * y) + span < 2 * span * f + 2 * span,
        ;
        assert(0 <= k <= 5);
        assert(0 <= k * SEXTANT + f < TURN);
    }
}

/// A channel of a colour in range is a share between nought and one, so its
/// value fits in a byte.
pub proof fn lemma_channel_range(s: int, l: int, t: int)
    requires
        0 <= s <= FULL,
        0 <= l <= FULL,
        0 <= t <= SEXTANT,
    ensures
        0 <= chroma_span(l) <= FULL,
        0 <= chroma_span(l) * s <= 2 * l * FULL,
        chroma_span(l) * s <= FULL * FULL,
        0 <= channel_share(s, l, t) <= 2 * FULL * FULL * SEXTANT,
        channel(s, l, t) == round_div(255 * channel_share(s, l, t), 2 * FULL * FULL * SEXTANT),
        0 <= channel(s, l, t) <= 255,
{
    let span = chroma_span(l);
    let p = span * s;
    let full = FULL as int;
    let x = SEXTANT as int;
    assert(0 <= p <= span * full) by (nonlinear_arith)
        requires
            p == span * s,
            0 <= span,
            0 <= s <= full,
    ;
    assert(span * full <= 2 * l * full && span * full <= full * full && span * full + 2 * l * full
        <= 2 * full * full) by (nonlinear_arith)
        requires
            0 <= span <= 2 * l,
            span <= full,
            span + 2 * l <= 2 * full,
            0 <= full,
    ;
    let base = 2 * l * full - p;
    assert(0 <= base * x && 0 <= 2 * p * t <= 2 * p * x && base * x + 2 * p * x <= 2 * full * full
        * x) by (nonlinear_arith)
        requires
            0 <= base,
            0 <= p,
            0 <= t <= x,
            base + 2 * p <= 2 * full * full,
    ;
    let share = channel_share(s, l, t);
    assert(share == base * x + 2 * p * t);
    let den = 2 * full * full * x;
    assert(den == 1_200_000_000_000_000) by (nonlinear_arith)
        requires
            den == 2 * full * full * x,
            full == 100_000,
            x == 60_000,
    ;
    lemma_round_div_bounds(255 * share, den);
    let q = round_div(255 * share, den);
    assert(0 <= q <= 255) by (nonlinear_arith)
        requires
            0 <= share <= den,
            0 < den,
            2 * den * q <= 2 * (255 * share) + den < 2 * den * q + 2 * den,
    ;
}

/// `a / b` rounded to the nearest integer, halves upwards.
fn rounded_quotient(a: u64, b: u64) -> (q: u64)
    requires
        b > 0,
        2 * a + 2 * b <= u64::MAX,
    ensures
        q == round_div(a as int, b as int),
{
    (2 * a + b) / (2 * b)
}

/// The value of one channel: see `channel`.
fn channel_value(s: u64, l: u64, t: u64) -> (v: u8)
    requires
        s <= FULL,
        l <= FULL,
        t <= SEXTANT,
    ensures
        v == channel(s as int, l as int, t as int),
{
    proof {
        lemma_channel_range(s as int, l as int, t as int);
    }
    let full: u64 = FULL as u64;
    let span: u64 = if 2 * l <= full { 2 * l } else { 2 * full - 2 * l };
    assert(span * s <= 10_000_000_000 && 2 * l * full <= 20_000_000_000) by (nonlinear_arith)
        requires
            span * s <= FULL * FULL,
            l <= full,
            full == 100_000,
    ;
    let p: u64 = span * s;
    let base: u64 = 2 * l * full - p;
    assert(base * SEXTANT <= 1_200_000_000_000_000 && 2 * p * t <= 1_200_000_000_000_000)
        by (nonlinear_arith)
        requires
            base <= 20_000_000_000,
            p <= 10_000_000_000,
            t <= 60_000,
    ;
    let share: u64 = base * SEXTANT as u64 + 2 * p * t;
    assert(share <= 1_200_000_000_000_000 && 2 * FULL * FULL * SEXTANT == 1_200_000_000_000_000)
        by (nonlinear_arith)
        requires
            share <= 2 * FULL * FULL * SEXTANT,
    ;
    let q: u64 = rounded_quotient(255 * share, 1_200_000_000_000_000);
    q as u8
}

impl HslColor {
    /// The RGB colour that this colour stands for: each channel is the exact
    /// value of the usual conversion, rounded once to a byte.
    pub fn to_rgb(&self) -> (c: Color)
        ensures
            c == self.rgb(),
    {
        let h: u64 = (self.h % TURN) as u64;
        let s: u64 = if self.s <= FULL { self.s as u64 } else { FULL as u64 };
        let l: u64 = if self.l <= FULL { self.l as u64 } else { FULL as u64 };
        let k: u64 = h / SEXTANT as u64;
        let f: u64 = h % SEXTANT as u64;
        let t: u64 = if k % 2 == 0 { f } else { SEXTANT as u64 - f };
        let lo: u8 = channel_value(s, l, 0);
        let mid: u8 = channel_value(s, l, t);
        let hi: u8 = channel_value(s, l, SEXTANT as u64);
        if k == 0 {
            Color { r: hi, g: mid, b: lo }
        } else if k == 1 {
            Color { r: mid, g: hi, b: lo }
        } else if k == 2 {
            Color { r: lo, g: hi, b: mid }
        } else if k == 3 {
            Color { r: lo, g: mid, b: hi }
        } else if k == 4 {
            Color { r: mid, g: lo, b: hi }
        } else {
            Color { r: hi, g: lo, b: mid }
        }
    }
}

impl From<HslColor> for Color {
    /// The RGB colour that `hsl` stands for.
    fn from(hsl: HslColor) -> (c: Color) {
        hsl.to_rgb()
    }
}

impl vstd::std_specs::convert::FromSpecImpl<HslColor> for Color {
    open spec fn obeys_from_spec() -> bool {
        true
    }

    open spec fn from_spec(hsl: HslColor) -> Color {
        hsl.rgb()
    }
}

impl Color {
    /// The colour with the given channels.
    pub fn from_rgb(r: u8, g: u8, b: u8) -> (c: Color)
        ensures
            c == (Color { r, g, b }),
    {
        Color { r, g, b }
    }

    /// The hue, saturation and lightness of this colour.
    pub fn as_hsl(&self) -> (hsl: HslColor)
        ensures
            hsl == hsl_of(*self),
            hsl.valid(),
    {
        proof {
            lemma_hsl_of_valid(*self);
        }
        let r: u64 = self.r as u64;
        let g: u64 = self.g as u64;
        let b: u64 = self.b as u64;
        let hi: u64 = if r >= g && r >= b { r } else if g >= b { g } else { b };
        let lo: u64 = if r <= g && r <= b { r } else if g <= b { g } else { b };
        let sum: u64 = hi + lo;
        let l: u64 = rounded_quotient(FULL as u64 * sum, 510);
        if hi == lo {
            return HslColor { h: 0, s: 0, l: l as u32 };
        }
        let span: u64 = hi - lo;
        let room: u64 = if sum <= 255 { sum } else { 510 - sum };
        let s: u64 = rounded_quotient(FULL as u64 * span, room);
        let (k, y): (u64, u64) = if r > g && g >= b {
            (0, g - b)
        } else if g >= r && r > b {
            (1, g - r)
        } else if g > b && b >= r {
            (2, b - r)
        } else if b >= g && g > r {
            (3, b - g)
        } else if b > r && r >= g {
            (4, r - g)
        } else {
            (5, r - b)
        };
        let f: u64 = rounded_quotient(SEXTANT as u64 * y, span);
        let h: u64 = k * SEXTANT as u64 + f;
        HslColor { h: h as u32, s: s as u32, l: l as u32 }
    }
}

} // verus!
