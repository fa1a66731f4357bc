//! Fading: a colour loses a tenth of its saturation and of its lightness at
//! each step, down to a floor that it never leaves.

use crate::color::{HslColor, FULL};
use vstd::prelude::*;

verus! {

/// The saturation and the lightness below which no fade goes (10 %), in
/// thousandths of a percent.
pub const FLOOR: u32 = 10_000;

/// How many fades bring any colour to the floor.
pub const FADES_TO_FLOOR: u32 = 22;

/// One fade of a colour: saturation and lightness lose a tenth of their
/// value (what is left is cut to the unit); where either would fall below
/// the floor, both are set to the floor. The hue stays.
pub open spec fn fade_of(c: HslColor) -> HslColor {
    let n = c.normalized();
    let s = n.s * 9 / 10;
    let l = n.l * 9 / 10;
    if s < FLOOR || l < FLOOR {
        HslColor { h: n.h, s: FLOOR, l: FLOOR }
    } else {
        HslColor { h: n.h, s: s as u32, l: l as u32 }
    }
}

/// `n` fades, one after the other.
pub open spec fn fade_times(c: HslColor, n: nat) -> HslColor
    decreases n,
{
    if n == 0 {
        c
    } else {
        fade_of(fade_times(c, (n - 1) as nat))
    }
}

/// The largest saturation or lightness that `n` fades can leave above the
/// floor.
pub open spec fn fade_cap(n: nat) -> int
    decreases n,
{
    if n == 0 {
        FULL as int
    } else {
        fade_cap((n - 1) as nat) * 9 / 10
    }
}

impl HslColor {
    /// Saturation and lightness both exactly at the floor.
    pub open spec fn at_floor(self) -> bool {
        self.s == FLOOR && self.l == FLOOR
    }
}

/// A fade keeps the hue and never leaves saturation or lightness below the
/// floor.
pub proof fn lemma_fade_stays_above_floor(c: HslColor)
    ensures
        fade_of(c).valid(),
        fade_of(c).h == c.normalized().h,
        fade_of(c).s >= FLOOR,
        fade_of(c).l >= FLOOR,
{
}

/// Until the floor is hit a fade raises neither saturation nor lightness:
/// it either lowers both or sets the colour to the floor.
pub proof fn lemma_fade_never_brightens(c: HslColor)
    requires
        c.valid(),
    ensures
        fade_of(c).at_floor() || (fade_of(c).s < c.s && fade_of(c).l < c.l),
{
}

/// A colour at the floor stays exactly there.
pub proof fn lemma_fade_floor_is_fixed(c: HslColor)
    requires
        c.valid(),
        c.at_floor(),
    ensures
        fade_of(c) == c,
{
}

/// After `n` fades a colour is at the floor or has lost a tenth `n` times.
proof fn lemma_fade_times_capped(c: HslColor, n: nat)
    requires
        n >= 1,
    ensures
        fade_times(c, n).valid(),
        fade_times(c, n).h == c.normalized().h,
        fade_times(c, n).s >= FLOOR,
        fade_times(c, n).l >= FLOOR,
        fade_times(c, n).at_floor() || (fade_times(c, n).s <= fade_cap(n) && fade_times(c, n).l
            <= fade_cap(n)),
    decreases n,
{
    if n == 1 {
        assert(fade_times(c, 0) == c);
        assert(fade_cap(0) == FULL);
        assert(fade_times(c, 1) == fade_of(c));
    } else {
        lemma_fade_times_capped(c, (n - 1) as nat);
    }
}

/// After `FADES_TO_FLOOR` fades what is left is below the floor.
proof fn lemma_fade_cap_end()
    ensures
        fade_cap(22) == 9_844,
{
    assert(fade_cap(0) == 100_000);
    assert(fade_cap(1) == 90_000);
    assert(fade_cap(2) == 81_000);
    assert(fade_cap(3) == 72_900);
    assert(fade_cap(4) == 65_610);
    assert(fade_cap(5) == 59_049);
    assert(fade_cap(6) == 53_144);
    assert(fade_cap(7) == 47_829);
    assert(fade_cap(8) == 43_046);
    assert(fade_cap(9) == 38_741);
    assert(fade_cap(10) == 34_866);
    assert(fade_cap(11) == 31_379);
    assert(fade_cap(12) == 28_241);
    assert(fade_cap(13) == 25_416);
    assert(fade_cap(14) == 22_874);
    assert(fade_cap(15) == 20_586);
    assert(fade_cap(16) == 18_527);
    assert(fade_cap(17) == 16_674);
    assert(fade_cap(18) == 15_006);
    assert(fade_cap(19) == 13_505);
    assert(fade_cap(20) == 12_154);
    assert(fade_cap(21) == 10_938);
    assert(fade_cap(22) == 9_844);
}

/// Repeated fades converge: after `FADES_TO_FLOOR` fades, and after any
/// larger number of them, every colour has its own hue with saturation and
/// lightness exactly at the floor.
pub proof fn lemma_fade_converges(c: HslColor, n: nat)
    requires
        n >= FADES_TO_FLOOR,
    ensures
        fade_times(c, n) == (HslColor { h: c.normalized().h, s: FLOOR, l: FLOOR }),
    decreases n,
{
    if n == FADES_TO_FLOOR {
        lemma_fade_times_capped(c, n);
        lemma_fade_cap_end();
    } else {
        lemma_fade_converges(c, (n - 1) as nat);
    }
}

impl HslColor {
    /// This colour after one fade.
    pub fn faded(&self) -> (dim: HslColor)
        ensures
            dim == fade_of(*self),
            dim.valid(),
    {
        let n: HslColor = HslColor::new(self.h, self.s, self.l);
        let dim: HslColor = HslColor::new(n.h, n.s * 9 / 10, n.l * 9 / 10);
        if dim.s < FLOOR || dim.l < FLOOR {
            HslColor::new(n.h, FLOOR, FLOOR)
        } else {
            dim
        }
    }
}

} // verus!
