//! One cell of the screen: a character and a colour that fades.

use crate::color::{hsl_of, Color, HslColor};
use crate::fade::fade_of;
use crate::directive::Directive;
use vstd::prelude::*;

verus! {

/// A character and the colour it is drawn in.
#[derive(Clone, Copy, Debug, PartialEq, Eq, Structural)]
pub struct Glyph {
    pub character: char,
    pub color: Color,
}

/// The colour that one fade turns `c` into: `c` in hue, saturation and
/// lightness, faded there, and back in red, green and blue.
pub open spec fn faded_color(c: Color) -> Color {
    fade_of(hsl_of(c)).rgb()
}

/// The glyph that one fade turns `g` into: the same character in the faded
/// colour.
pub open spec fn faded_glyph(g: Glyph) -> Glyph {
    Glyph { character: g.character, color: faded_color(g.color) }
}

/// The two directives that draw a glyph at the cursor.
pub open spec fn glyph_directives(g: Glyph) -> Seq<Directive> {
    seq![Directive::Foreground(g.color), Directive::Print(g.character)]
}

impl Default for Glyph {
    /// A blank in pure black.
    fn default() -> (g: Glyph)
        ensures
            g == (Glyph { character: ' ', color: Color { r: 0, g: 0, b: 0 } }),
    {
        Glyph { character: ' ', color: Color::from_rgb(0, 0, 0) }
    }
}

impl Glyph {
    /// The glyph of this character and colour.
    pub fn new(character: char, color: Color) -> (g: Glyph)
        ensures
            g == (Glyph { character, color }),
    {
        Glyph { character, color }
    }

    /// Adds to `out` what draws this glyph at the cursor: its colour as the
    /// foreground, then its character.
    pub fn render(&self, out: &mut Vec<Directive>)
        ensures
            final(out)@ == old(out)@ + glyph_directives(*self),
    {
        out.push(Directive::Foreground(self.color));
        out.push(Directive::Print(self.character));
        assert(out@ =~= old(out)@ + glyph_directives(*self));
    }

    /// Fades the colour by one step and keeps the character.
    pub fn fade_color(&mut self)
        ensures
            *final(self) == faded_glyph(*old(self)),
    {
        let hsl: HslColor = self.color.as_hsl();
        self.color = hsl.faded().into();
    }
}

} // verus!
