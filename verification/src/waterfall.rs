//! The whole screen: one column of rain for each column of cells.

use crate::alphabet::DICT_LEN;
use crate::color::Color;
use crate::column::{lemma_step_keeps_wf, Column, ColumnView, ROLL_BOUND};
use crate::directive::Directive;
use crate::glyph::glyph_directives;
use rand::rngs::ThreadRng;
use vstd::prelude::*;

verus! {

/// A grid of glyphs, held column by column.
pub struct MatrixWaterfall {
    height: u16,
    width: u16,
    basic_color: Color,
    columns: Vec<Column>,
}

/// What a waterfall is, as plain values.
pub struct WaterfallView {
    /// The number of rows.
    pub height: nat,
    /// The number of columns.
    pub width: nat,
    /// The colour of a fresh glyph.
    pub basic_color: Color,
    /// The columns, from the left.
    pub columns: Seq<ColumnView>,
}

/// What opens a frame: the cursor hidden and at the top left, on black.
pub open spec fn frame_opening() -> Seq<Directive> {
    seq![Directive::HideCursor, Directive::MoveToOrigin, Directive::BlackBackground]
}

/// What closes a frame: the terminal's own colours, the cursor shown, and
/// everything handed over.
pub open spec fn frame_closing() -> Seq<Directive> {
    seq![Directive::ResetColor, Directive::ShowCursor, Directive::Flush]
}

impl WaterfallView {
    /// There is one column for each column of cells, each well formed, as
    /// tall as the waterfall and of its colour.
    pub open spec fn wf(self) -> bool {
        &&& self.height <= u16::MAX
        &&& self.width <= u16::MAX
        &&& self.columns.len() == self.width
        &&& forall|x: int|
            0 <= x < self.width ==> {
                &&& (#[trigger] self.columns[x]).wf()
                &&& self.columns[x].height == self.height
                &&& self.columns[x].basic_color == self.basic_color
            }
    }

    /// A new waterfall: every column fresh.
    pub open spec fn fresh(height: nat, width: nat, basic_color: Color) -> WaterfallView {
        WaterfallView {
            height,
            width,
            basic_color,
            columns: Seq::new(width, |x: int| ColumnView::fresh(height, basic_color)),
        }
    }

    /// What draws the first `n` glyphs of row `y`, from the left.
    pub open spec fn row_directives(self, y: int, n: nat) -> Seq<Directive>
        decreases n,
    {
        if n == 0 {
            Seq::empty()
        } else {
            self.row_directives(y, (n - 1) as nat) + glyph_directives(self.columns[n - 1].glyphs[y])
        }
    }

    /// What draws the first `m` rows, from the top, each from the left.
    pub open spec fn rows_directives(self, m: nat) -> Seq<Directive>
        decreases m,
    {
        if m == 0 {
            Seq::empty()
        } else {
            self.rows_directives((m - 1) as nat) + self.row_directives(m - 1, self.width)
        }
    }

    /// What draws one frame: the opening, every glyph row by row, and the
    /// closing.
    pub open spec fn frame(self) -> Seq<Directive> {
        frame_opening() + self.rows_directives(self.height) + frame_closing()
    }

    /// The waterfall after one step of each column, column `x` with the roll
    /// and the place in the alphabet that `draws[x]` holds.
    pub open spec fn stepped(self, draws: Seq<(int, int)>) -> WaterfallView {
        WaterfallView {
            columns: Seq::new(
                self.width,
                |x: int| self.columns[x].stepped(draws[x].0, draws[x].1),
            ),
            ..self
        }
    }
}

impl View for MatrixWaterfall {
    type V = WaterfallView;

    closed spec fn view(&self) -> WaterfallView {
        WaterfallView {
            height: self.height as nat,
            width: self.width as nat,
            basic_color: self.basic_color,
            columns: Seq::new(self.columns@.len(), |x: int| self.columns@[x]@),
        }
    }
}

/// The first `n` glyphs of a row take two directives each, in order from the
/// left: the colour of a glyph, then its character.
pub proof fn lemma_row_cells(v: WaterfallView, y: int, n: nat)
    ensures
        v.row_directives(y, n).len() == 2 * n,
        forall|x: int|
            0 <= x < n ==> {
                &&& (#[trigger] v.row_directives(y, n)[2 * x]) == Directive::Foreground(
                    v.columns[x].glyphs[y].color,
                )
                &&& v.row_directives(y, n)[2 * x + 1] == Directive::Print(
                    v.columns[x].glyphs[y].character,
                )
            },
    decreases n,
{
    if n > 0 {
        lemma_row_cells(v, y, (n - 1) as nat);
    }
}

/// The first `m` rows take two directives for each glyph, row after row from
/// the top.
pub proof fn lemma_rows_cells(v: WaterfallView, m: nat)
    ensures
        v.rows_directives(m).len() == 2 * (m * v.width),
        forall|y: int, x: int|
            0 <= y < m && 0 <= x < v.width ==> {
                &&& (#[trigger] v.rows_directives(m)[2 * (y * v.width + x)])
                    == Directive::Foreground(v.columns[x].glyphs[y].color)
                &&& v.rows_directives(m)[2 * (y * v.width + x) + 1] == Directive::Print(
                    v.columns[x].glyphs[y].character,
                )
            },
    decreases m,
{
    let w = v.width as int;
    if m > 0 {
        let above = v.rows_directives((m - 1) as nat);
        let row = v.row_directives(m - 1, v.width);
        lemma_rows_cells(v, (m - 1) as nat);
        lemma_row_cells(v, m - 1, v.width);
        assert(m * w == (m - 1) * w + w) by (nonlinear_arith);
        assert forall|y: int, x: int| 0 <= y < m && 0 <= x < w implies {
            &&& (#[trigger] v.rows_directives(m)[2 * (y * w + x)]) == Directive::Foreground(
                v.columns[x].glyphs[y].color,
            )
            &&& v.rows_directives(m)[2 * (y * w + x) + 1] == Directive::Print(
                v.columns[x].glyphs[y].character,
            )
        } by {
            let at = 2 * (y * w + x);
            if y < m - 1 {
                assert(0 <= y * w + x < (m - 1) * w) by (nonlinear_arith)
                    requires
                        0 <= y < m - 1,
                        0 <= x < w,
                ;
                assert(above[2 * (y * w + x)] == Directive::Foreground(
                    v.columns[x].glyphs[y].color,
                ));
                assert(v.rows_directives(m)[at] == above[at]);
                assert(v.rows_directives(m)[at + 1] == above[at + 1]);
            } else {
                assert(y * w == (m - 1) * w);
                assert(row[2 * x] == Directive::Foreground(v.columns[x].glyphs[y].color));
                assert(v.rows_directives(m)[at] == row[at - above.len()]);
                assert(v.rows_directives(m)[at + 1] == row[at + 1 - above.len()]);
            }
        }
    } else {
        assert(m * w == 0) by (nonlinear_arith)
            requires
                m == 0,
        ;
    }
}

/// A frame is the opening, two directives for each glyph and the closing,
/// and the glyphs come row by row: the glyph of row `y` and column `x` is
/// drawn by the directives at places `3 + 2 * (y * width + x)` and the next.
pub proof fn lemma_frame_is_row_major(v: WaterfallView, y: int, x: int)
    requires
        0 <= y < v.height,
        0 <= x < v.width,
    ensures
        v.frame().len() == 6 + 2 * (v.height * v.width),
        v.frame().subrange(0, 3) == frame_opening(),
        v.frame().subrange(v.frame().len() - 3, v.frame().len() as int) == frame_closing(),
        v.frame()[3 + 2 * (y * v.width + x)] == Directive::Foreground(v.columns[x].glyphs[y].color),
        v.frame()[3 + 2 * (y * v.width + x) + 1] == Directive::Print(
            v.columns[x].glyphs[y].character,
        ),
{
    let w = v.width as int;
    let h = v.height as int;
    let rows = v.rows_directives(v.height);
    lemma_rows_cells(v, v.height);
    assert(0 <= y * w + x < h * w) by (nonlinear_arith)
        requires
            0 <= y < h,
            0 <= x < w,
    ;
    let at = 2 * (y * w + x);
    assert(rows[2 * (y * w + x)] == Directive::Foreground(v.columns[x].glyphs[y].color));
    assert(v.frame()[3 + at] == rows[at]);
    assert(v.frame()[3 + at + 1] == rows[at + 1]);
    assert(v.frame().subrange(0, 3) =~= frame_opening());
    assert(v.frame().subrange(v.frame().len() - 3, v.frame().len() as int) =~= frame_closing());
}

impl MatrixWaterfall {
    /// See `WaterfallView::wf`.
    pub open spec fn wf(&self) -> bool {
        self@.wf()
    }

    /// A waterfall of `width` fresh columns of `height` rows.
    pub fn new(height: u16, width: u16, basic_color: Color) -> (fall: MatrixWaterfall)
        ensures
            fall@ == WaterfallView::fresh(height as nat, width as nat, basic_color),
            fall.wf(),
    {
        let mut columns: Vec<Column> = Vec::new();
        let mut x: u16 = 0;
        while x < width
            invariant
                x <= width,
                columns@.len() == x,
                forall|i: int|
                    0 <= i < x ==> (#[trigger] columns@[i])@ == ColumnView::fresh(
                        height as nat,
                        basic_color,
                    ),
            decreases width - x,
        {
            columns.push(Column::new(height, basic_color));
            x += 1;
        }
        let fall = MatrixWaterfall { height, width, basic_color, columns };
        assert(fall@.columns =~= WaterfallView::fresh(
            height as nat,
            width as nat,
            basic_color,
        ).columns);
        fall
    }

    /// The number of rows.
    pub fn height(&self) -> (h: u16)
        ensures
            h == self@.height,
    {
        self.height
    }

    /// The number of columns.
    pub fn width(&self) -> (w: u16)
        ensures
            w == self@.width,
    {
        self.width
    }

    /// The colour of a fresh glyph.
    pub fn basic_color(&self) -> (c: Color)
        ensures
            c == self@.basic_color,
    {
        self.basic_color
    }

    /// The column at place `x`, counted from the left.
    pub fn column(&self, x: u16) -> (col: &Column)
        requires
            self.wf(),
            x < self@.width,
        ensures
            col@ == self@.columns[x as int],
            col.wf(),
    {
        &self.columns[x as usize]
    }

    /// Adds to `out` what draws one frame: the cursor hidden and at the top
    /// left, a black background, every glyph row by row from the top and in
    /// each row from the left, then the colours reset, the cursor shown and
    /// the flush.
    pub fn render(&self, out: &mut Vec<Directive>)
        requires
            self.wf(),
        ensures
            final(out)@ == old(out)@ + self@.frame(),
    {
        out.push(Directive::HideCursor);
        out.push(Directive::MoveToOrigin);
        out.push(Directive::BlackBackground);
        assert(out@ =~= old(out)@ + frame_opening());
        let n: usize = self.columns.len();
        let mut y: u16 = 0;
        while y < self.height
            invariant
                self.wf(),
                n == self@.width,
                n == self.columns@.len(),
                y <= self.height,
                out@ == old(out)@ + frame_opening() + self@.rows_directives(y as nat),
            decreases self.height - y,
        {
            let mut x: usize = 0;
            assert(out@ =~= old(out)@ + frame_opening() + self@.rows_directives(y as nat)
                + self@.row_directives(y as int, 0));
            while x < n
                invariant
                    self.wf(),
                    n == self@.width,
                    n == self.columns@.len(),
                    y < self.height,
                    x <= n,
                    out@ == old(out)@ + frame_opening() + self@.rows_directives(y as nat)
                        + self@.row_directives(y as int, x as nat),
                decreases n - x,
            {
                let ghost before = out@;
                assert(self.columns@[x as int]@ == self@.columns[x as int]);
                self.columns[x].render(out, y);
                x += 1;
                assert(out@ =~= old(out)@ + frame_opening() + self@.rows_directives(y as nat)
                    + self@.row_directives(y as int, x as nat)) by {
                    assert(self@.row_directives(y as int, x as nat) == self@.row_directives(
                        y as int,
                        (x - 1) as nat,
                    ) + glyph_directives(self@.columns[x - 1].glyphs[y as int]));
                }
            }
            y += 1;
            assert(out@ =~= old(out)@ + frame_opening() + self@.rows_directives(y as nat)) by {
                assert(self@.rows_directives(y as nat) == self@.rows_directives((y - 1) as nat)
                    + self@.row_directives(y - 1, self@.width));
            }
        }
        out.push(Directive::ResetColor);
        out.push(Directive::ShowCursor);
        out.push(Directive::Flush);
        assert(out@ =~= old(out)@ + self@.frame());
    }

    /// One step of every column, column `x` with the roll and the place in
    /// the alphabet that `draws[x]` holds: see `Column::step_with`.
    pub fn step_with(&mut self, draws: &Vec<(usize, usize)>)
        requires
            old(self).wf(),
            old(self)@.height > 0 || old(self)@.width == 0,
            draws@.len() == old(self)@.width,
            forall|x: int| 0 <= x < draws@.len() ==> (#[trigger] draws@[x]).1 < DICT_LEN,
        ensures
            final(self)@ == old(self)@.stepped(
                Seq::new(draws@.len(), |x: int| (draws@[x].0 as int, draws@[x].1 as int)),
            ),
            final(self).wf(),
    {
        let ghost plan = Seq::new(draws@.len(), |x: int| (draws@[x].0 as int, draws@[x].1 as int));
        let n: usize = self.columns.len();
        let mut x: usize = 0;
        while x < n
            invariant
                x <= n,
                n == old(self)@.width,
                n == draws@.len(),
                self.height == old(self).height,
                self.width == old(self).width,
                self.basic_color == old(self).basic_color,
                self.columns@.len() == n,
                old(self).wf(),
                old(self)@.height > 0 || n == 0,
                forall|i: int| 0 <= i < draws@.len() ==> (#[trigger] draws@[i]).1 < DICT_LEN,
                forall|i: int|
                    0 <= i < x ==> (#[trigger] self.columns@[i])@ == old(self)@.columns[i].stepped(
                        draws@[i].0 as int,
                        draws@[i].1 as int,
                    ),
                forall|i: int| x <= i < n ==> (#[trigger] self.columns@[i])@ == old(self)@.columns[i],
            decreases n - x,
        {
            assert(self.columns@[x as int]@ == old(self)@.columns[x as int]);
            let roll: usize = draws[x].0;
            let pick: usize = draws[x].1;
            self.columns[x].step_with(roll, pick);
            x += 1;
        }
        assert(self@.columns =~= old(self)@.stepped(plan).columns);
        assert forall|i: int| 0 <= i < self@.width implies {
            &&& (#[trigger] self@.columns[i]).wf()
            &&& self@.columns[i].height == self@.height
            &&& self@.columns[i].basic_color == self@.basic_color
        } by {
            lemma_step_keeps_wf(old(self)@.columns[i], draws@[i].0 as int, draws@[i].1 as int);
        }
    }

    /// One step of every column, from the left, with numbers drawn from the
    /// calling thread's generator: each column ends as `Column::step_with`
    /// leaves it for some roll and some place in range.
    pub fn step(&mut self)
        requires
            old(self).wf(),
            old(self)@.height > 0 || old(self)@.width == 0,
        ensures
            final(self).wf(),
            final(self)@.height == old(self)@.height,
            final(self)@.width == old(self)@.width,
            final(self)@.basic_color == old(self)@.basic_color,
            final(self)@.columns.len() == old(self)@.width,
            forall|x: int|
                0 <= x < old(self)@.width ==> (#[trigger] final(self)@.columns[x]).is_step_of(
                    old(self)@.columns[x],
                ),
    {
        let mut rng: ThreadRng = rand::thread_rng();
        let n: usize = self.columns.len();
        let mut x: usize = 0;
        while x < n
            invariant
                x <= n,
                n == old(self)@.width,
                self.height == old(self).height,
                self.width == old(self).width,
                self.basic_color == old(self).basic_color,
                self.columns@.len() == n,
                old(self).wf(),
                old(self)@.height > 0 || n == 0,
                forall|i: int|
                    0 <= i < x ==> (#[trigger] self.columns@[i])@.is_step_of(old(self)@.columns[i]),
                forall|i: int| x <= i < n ==> (#[trigger] self.columns@[i])@ == old(self)@.columns[i],
            decreases n - x,
        {
            assert(self.columns@[x as int]@ == old(self)@.columns[x as int]);
            self.columns[x].step(&mut rng);
            x += 1;
        }
        assert forall|i: int| 0 <= i < self@.width implies {
            &&& (#[trigger] self@.columns[i]).wf()
            &&& self@.columns[i].height == self@.height
            &&& self@.columns[i].basic_color == self@.basic_color
        } by {
            let after = self@.columns[i];
            let before = old(self)@.columns[i];
            assert(after.is_step_of(before));
            let (roll, pick) = choose|roll: int, pick: int|
                0 <= roll < ROLL_BOUND && 0 <= pick < DICT_LEN && after == #[trigger] before.stepped(
                    roll,
                    pick,
                );
            lemma_step_keeps_wf(before, roll, pick);
        }
    }
}

} // verus!
