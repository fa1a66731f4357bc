//! One column of the rain: a strip of glyphs and the row where the next
//! bright glyph goes.

use crate::alphabet::{is_symbol, symbol, symbol_at, DICT_LEN};
use crate::color::Color;
use crate::directive::Directive;
use crate::glyph::{faded_glyph, glyph_directives, Glyph};
use crate::random::draw_below;
use rand::rngs::ThreadRng;
use vstd::prelude::*;

verus! {

/// The rolls for the top row are drawn from nought up to, and without, this.
pub const ROLL_BOUND: usize = 100;

/// At the top row a roll below this puts no glyph in.
pub const SUPPRESS_BELOW: usize = 90;

/// A vertical strip of glyphs, as tall as the screen.
pub struct Column {
    height: u16,
    basic_color: Color,
    glyphs: Vec<Glyph>,
    active_index: usize,
}

/// What a column is, as plain values.
pub struct ColumnView {
    /// The number of rows.
    pub height: nat,
    /// The colour of a fresh glyph.
    pub basic_color: Color,
    /// The glyphs, from the top row down.
    pub glyphs: Seq<Glyph>,
    /// The row where the next fresh glyph goes.
    pub active_index: nat,
}

/// The blank glyph that a new column is filled with.
pub open spec fn blank() -> Glyph {
    Glyph { character: ' ', color: Color { r: 0, g: 0, b: 0 } }
}

/// Every glyph of `glyphs`, faded once.
pub open spec fn faded_all(glyphs: Seq<Glyph>) -> Seq<Glyph> {
    Seq::new(glyphs.len(), |i: int| faded_glyph(glyphs[i]))
}

impl ColumnView {
    /// There is one glyph for each row, and the active row is a row of the
    /// column (row 0 in a column without rows).
    pub open spec fn wf(self) -> bool {
        &&& self.height <= u16::MAX
        &&& self.glyphs.len() == self.height
        &&& if self.height == 0 {
            self.active_index == 0
        } else {
            self.active_index < self.height
        }
    }

    /// A new column: blank glyphs, and the top row active.
    pub open spec fn fresh(height: nat, basic_color: Color) -> ColumnView {
        ColumnView {
            height,
            basic_color,
            glyphs: Seq::new(height, |i: int| blank()),
            active_index: 0,
        }
    }

    /// Whether a step with this roll puts no glyph in: only at the top row,
    /// and there for a roll below `SUPPRESS_BELOW`.
    pub open spec fn suppressed(self, roll: int) -> bool {
        self.active_index == 0 && roll < SUPPRESS_BELOW
    }

    /// The row that is active after the active row has been written.
    pub open spec fn next_index(self) -> nat {
        if self.active_index + 1 >= self.height {
            0
        } else {
            self.active_index + 1
        }
    }

    /// The column after one step with the given roll and the given place in
    /// the alphabet: every glyph fades; then, unless the step is suppressed,
    /// the active row gets the picked symbol in the column's colour and the
    /// row below it becomes active, the top row after the last one.
    pub open spec fn stepped(self, roll: int, pick: int) -> ColumnView {
        if self.suppressed(roll) {
            ColumnView { glyphs: faded_all(self.glyphs), ..self }
        } else {
            ColumnView {
                glyphs: faded_all(self.glyphs).update(
                    self.active_index as int,
                    Glyph { character: symbol_at(pick), color: self.basic_color },
                ),
                active_index: self.next_index(),
                ..self
            }
        }
    }

    /// Whether one step turns `before` into this column, for some roll below
    /// `ROLL_BOUND` and some place in the alphabet.
    pub open spec fn is_step_of(self, before: ColumnView) -> bool {
        exists|roll: int, pick: int|
            0 <= roll < ROLL_BOUND && 0 <= pick < DICT_LEN && self == #[trigger] before.stepped(
                roll,
                pick,
            )
    }

    /// The column after one step for each of `picks`, none of them
    /// suppressed.
    pub open spec fn forced_steps(self, picks: Seq<int>) -> ColumnView
        decreases picks.len(),
    {
        if picks.len() == 0 {
            self
        } else {
            self.forced_steps(picks.drop_last()).stepped(SUPPRESS_BELOW as int, picks.last())
        }
    }
}

impl View for Column {
    type V = ColumnView;

    closed spec fn view(&self) -> ColumnView {
        ColumnView {
            height: self.height as nat,
            basic_color: self.basic_color,
            glyphs: self.glyphs@,
            active_index: self.active_index as nat,
        }
    }
}

/// A step keeps a column well formed, with its height and its colour: the
/// active row is a row of the column after any number of steps.
pub proof fn lemma_step_keeps_wf(v: ColumnView, roll: int, pick: int)
    requires
        v.wf(),
        v.height > 0,
    ensures
        v.stepped(roll, pick).wf(),
        v.stepped(roll, pick).height == v.height,
        v.stepped(roll, pick).basic_color == v.basic_color,
        v.stepped(roll, pick).active_index < v.height,
{
    assert(faded_all(v.glyphs).len() == v.height);
}

/// A step changes the character of no row but the active one, and what it
/// puts there is a symbol of the alphabet in the column's colour.
pub proof fn lemma_step_injects_symbol(v: ColumnView, roll: int, pick: int)
    requires
        v.wf(),
        v.height > 0,
        0 <= pick < DICT_LEN,
    ensures
        forall|y: int|
            0 <= y < v.height && (y != v.active_index || v.suppressed(roll)) ==> (
            #[trigger] v.stepped(roll, pick).glyphs[y]) == faded_glyph(v.glyphs[y]),
        !v.suppressed(roll) ==> is_symbol(
            v.stepped(roll, pick).glyphs[v.active_index as int].character,
        ) && v.stepped(roll, pick).glyphs[v.active_index as int].color == v.basic_color,
{
    assert(faded_all(v.glyphs).len() == v.height);
}

/// From the top row, steps that are not suppressed visit the rows in order,
/// each once: the step after `j` others writes row `j`, and after as many
/// steps as the column has rows the top row is active again.
pub proof fn lemma_forced_steps_visit_each_row(v: ColumnView, picks: Seq<int>)
    requires
        v.wf(),
        v.height > 0,
        v.active_index == 0,
        picks.len() <= v.height,
    ensures
        v.forced_steps(picks).wf(),
        v.forced_steps(picks).height == v.height,
        v.forced_steps(picks).active_index == (if picks.len() == v.height {
            0
        } else {
            picks.len()
        }),
        forall|j: int|
            0 <= j < picks.len() ==> (#[trigger] v.forced_steps(picks.take(j))).active_index == j,
    decreases picks.len(),
{
    if picks.len() > 0 {
        let before = picks.drop_last();
        lemma_forced_steps_visit_each_row(v, before);
        lemma_step_keeps_wf(v.forced_steps(before), SUPPRESS_BELOW as int, picks.last());
        assert forall|j: int| 0 <= j < picks.len() implies (#[trigger] v.forced_steps(
            picks.take(j),
        )).active_index == j by {
            if j < before.len() {
                assert(picks.take(j) =~= before.take(j));
            } else {
                assert(picks.take(j) =~= before);
            }
        }
    }
}

impl Column {
    /// See `ColumnView::wf`.
    pub open spec fn wf(&self) -> bool {
        self@.wf()
    }

    /// A column of `height` blank glyphs in pure black, with the top row
    /// active.
    pub fn new(height: u16, basic_color: Color) -> (col: Column)
        ensures
            col@ == ColumnView::fresh(height as nat, basic_color),
            col.wf(),
    {
        let mut glyphs: Vec<Glyph> = Vec::new();
        let mut y: u16 = 0;
        while y < height
            invariant
                y <= height,
                glyphs@.len() == y,
                forall|i: int| 0 <= i < y ==> glyphs@[i] == blank(),
            decreases height - y,
        {
            glyphs.push(Glyph::default());
            y += 1;
        }
        assert(glyphs@ =~= Seq::new(height as nat, |i: int| blank()));
        Column { height, basic_color, glyphs, active_index: 0 }
    }

    /// The number of rows.
    pub fn height(&self) -> (h: u16)
        ensures
            h == self@.height,
    {
        self.height
    }

    /// The colour of a fresh glyph.
    pub fn basic_color(&self) -> (c: Color)
        ensures
            c == self@.basic_color,
    {
        self.basic_color
    }

    /// The row where the next fresh glyph goes: always a row of the column.
    pub fn active_index(&self) -> (y: usize)
        requires
            self.wf(),
        ensures
            y == self@.active_index,
            self@.height > 0 ==> y < self@.height,
    {
        self.active_index
    }

    /// The glyph at row `y`.
    pub fn glyph(&self, y: u16) -> (g: Glyph)
        requires
            self.wf(),
            y < self@.height,
        ensures
            g == self@.glyphs[y as int],
    {
        self.glyphs[y as usize]
    }

    /// Adds to `out` what draws the glyph at row `y`.
    pub fn render(&self, out: &mut Vec<Directive>, y: u16)
        requires
            self.wf(),
            y < self@.height,
        ensures
            final(out)@ == old(out)@ + glyph_directives(self@.glyphs[y as int]),
    {
        self.glyphs[y as usize].render(out);
    }

    /// Fades every glyph once.
    fn fade_all(&mut self)
        requires
            old(self).wf(),
        ensures
            final(self)@ == (ColumnView { glyphs: faded_all(old(self)@.glyphs), ..old(self)@ }),
            final(self).wf(),
    {
        let n: usize = self.glyphs.len();
        let mut y: usize = 0;
        while y < n
            invariant
                y <= n,
                n == old(self)@.height,
                self.height == old(self).height,
                self.basic_color == old(self).basic_color,
                self.active_index == old(self).active_index,
                self.glyphs@.len() == n,
                forall|i: int| 0 <= i < y ==> self.glyphs@[i] == faded_glyph(old(self)@.glyphs[i]),
                forall|i: int| y <= i < n ==> self.glyphs@[i] == old(self)@.glyphs[i],
            decreases n - y,
        {
            let mut g: Glyph = self.glyphs[y];
            g.fade_color();
            self.glyphs.set(y, g);
            y += 1;
        }
        assert(self.glyphs@ =~= faded_all(old(self)@.glyphs));
    }

    /// One step with a given roll and a given place in the alphabet: see
    /// `ColumnView::stepped`. The roll counts at the top row only, and the
    /// place only where a glyph is put in.
    pub fn step_with(&mut self, roll: usize, pick: usize)
        requires
            old(self).wf(),
            old(self)@.height > 0,
            pick < DICT_LEN,
        ensures
            final(self)@ == old(self)@.stepped(roll as int, pick as int),
            final(self).wf(),
    {
        self.fade_all();
        if self.active_index == 0 && roll < SUPPRESS_BELOW {
            return ;
        }
        let fresh: Glyph = Glyph::new(symbol(pick), self.basic_color);
        self.glyphs.set(self.active_index, fresh);
        self.active_index += 1;
        if self.active_index >= self.height as usize {
            self.active_index = 0;
        }
    }

    /// One step with numbers drawn from `rng`: at the top row a roll below
    /// `ROLL_BOUND`, and, unless that roll suppresses the step, a place in
    /// the alphabet. The column ends as `step_with` leaves it for some roll
    /// and some place in range: for which, chance decides.
    pub fn step(&mut self, rng: &mut ThreadRng)
        requires
            old(self).wf(),
            old(self)@.height > 0,
        ensures
            final(self)@.is_step_of(old(self)@),
            final(self).wf(),
    {
        let roll: usize = if self.active_index == 0 {
            draw_below(rng, ROLL_BOUND)
        } else {
            SUPPRESS_BELOW
        };
        let pick: usize = if self.active_index == 0 && roll < SUPPRESS_BELOW {
            0
        } else {
            draw_below(rng, DICT_LEN)
        };
        self.step_with(roll, pick);
    }
}

} // verus!
