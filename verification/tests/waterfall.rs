use matrix_waterfall::color::Color;
use matrix_waterfall::directive::Directive;
use matrix_waterfall::glyph::Glyph;
use matrix_waterfall::waterfall::MatrixWaterfall;

fn bright() -> Color {
    Color::from_rgb(0, 255, 43)
}

fn dim() -> Color {
    Color::from_rgb(28, 23, 23)
}

fn frame_of(fall: &MatrixWaterfall) -> Vec<Directive> {
    let mut out: Vec<Directive> = Vec::new();
    fall.render(&mut out);
    out
}

#[test]
fn new_waterfall_is_blank() {
    let fall = MatrixWaterfall::new(3, 2, bright());
    assert_eq!(fall.height(), 3);
    assert_eq!(fall.width(), 2);
    assert_eq!(fall.basic_color(), bright());
    for x in 0..2 {
        let col = fall.column(x);
        assert_eq!(col.height(), 3);
        assert_eq!(col.basic_color(), bright());
        assert_eq!(col.active_index(), 0);
        for y in 0..3 {
            assert_eq!(col.glyph(y), Glyph::default());
        }
    }
}

#[test]
fn frame_of_an_empty_waterfall_is_opening_and_closing() {
    let expected = vec![
        Directive::HideCursor,
        Directive::MoveToOrigin,
        Directive::BlackBackground,
        Directive::ResetColor,
        Directive::ShowCursor,
        Directive::Flush,
    ];
    assert_eq!(frame_of(&MatrixWaterfall::new(0, 0, bright())), expected);
    assert_eq!(frame_of(&MatrixWaterfall::new(0, 5, bright())), expected);
    assert_eq!(frame_of(&MatrixWaterfall::new(5, 0, bright())), expected);
}

#[test]
fn render_appends_to_what_is_there() {
    let fall = MatrixWaterfall::new(1, 1, bright());
    let mut out: Vec<Directive> = vec![Directive::Flush, Directive::Print('z')];
    fall.render(&mut out);
    assert_eq!(
        out,
        vec![
            Directive::Flush,
            Directive::Print('z'),
            Directive::HideCursor,
            Directive::MoveToOrigin,
            Directive::BlackBackground,
            Directive::Foreground(Color::from_rgb(0, 0, 0)),
            Directive::Print(' '),
            Directive::ResetColor,
            Directive::ShowCursor,
            Directive::Flush,
        ]
    );
}

#[test]
fn one_forced_step_then_render_is_row_major() {
    let mut fall = MatrixWaterfall::new(3, 2, Color::from_rgb(0, 255, 43));
    fall.step_with(&vec![(95, 0), (99, 47)]);
    for x in 0..2 {
        assert_eq!(fall.column(x).active_index(), 1);
        assert_eq!(fall.column(x).glyph(0).color, bright());
        assert_eq!(fall.column(x).glyph(1), Glyph::new(' ', dim()));
        assert_eq!(fall.column(x).glyph(2), Glyph::new(' ', dim()));
    }
    let out = frame_of(&fall);
    assert_eq!(
        out,
        vec![
            Directive::HideCursor,
            Directive::MoveToOrigin,
            Directive::BlackBackground,
            Directive::Foreground(bright()),
            Directive::Print('a'),
            Directive::Foreground(bright()),
            Directive::Print('*'),
            Directive::Foreground(dim()),
            Directive::Print(' '),
            Directive::Foreground(dim()),
            Directive::Print(' '),
            Directive::Foreground(dim()),
            Directive::Print(' '),
            Directive::Foreground(dim()),
            Directive::Print(' '),
            Directive::ResetColor,
            Directive::ShowCursor,
            Directive::Flush,
        ]
    );
    let pairs = out.iter().filter(|d| matches!(d, Directive::Print(_))).count();
    assert_eq!(pairs, 6);
}

#[test]
fn columns_step_each_with_their_own_draw() {
    let mut fall = MatrixWaterfall::new(2, 3, bright());
    fall.step_with(&vec![(0, 5), (90, 6), (89, 7)]);
    assert_eq!(fall.column(0).active_index(), 0);
    assert_eq!(fall.column(1).active_index(), 1);
    assert_eq!(fall.column(2).active_index(), 0);
    assert_eq!(fall.column(0).glyph(0), Glyph::new(' ', dim()));
    assert_eq!(fall.column(1).glyph(0), Glyph::new('g', bright()));
    assert_eq!(fall.column(2).glyph(0), Glyph::new(' ', dim()));
    fall.step_with(&vec![(95, 10), (0, 11), (95, 12)]);
    assert_eq!(fall.column(0).active_index(), 1);
    assert_eq!(fall.column(1).active_index(), 0);
    assert_eq!(fall.column(2).active_index(), 1);
    assert_eq!(fall.column(0).glyph(0), Glyph::new('k', bright()));
    assert_eq!(fall.column(1).glyph(0), Glyph::new('g', Color::from_rgb(11, 218, 46)));
    assert_eq!(fall.column(1).glyph(1), Glyph::new('l', bright()));
    assert_eq!(fall.column(2).glyph(0), Glyph::new('m', bright()));
}

#[test]
fn cell_of_row_and_column_sits_at_its_place_in_the_frame() {
    let height: u16 = 4;
    let width: u16 = 3;
    let mut fall = MatrixWaterfall::new(height, width, bright());
    for k in 0..6usize {
        fall.step_with(&vec![(90 + k, k), (k, 10 + k), (99, 20 + k)]);
    }
    let out = frame_of(&fall);
    assert_eq!(out.len(), 6 + 2 * (height as usize) * (width as usize));
    for y in 0..height {
        for x in 0..width {
            let g = fall.column(x).glyph(y);
            let at = 3 + 2 * ((y as usize) * (width as usize) + (x as usize));
            assert_eq!(out[at], Directive::Foreground(g.color));
            assert_eq!(out[at + 1], Directive::Print(g.character));
        }
    }
}

#[test]
fn random_step_keeps_the_grid_in_shape() {
    let mut fall = MatrixWaterfall::new(6, 9, bright());
    for _ in 0..300 {
        fall.step();
        assert_eq!(fall.height(), 6);
        assert_eq!(fall.width(), 9);
        assert_eq!(fall.basic_color(), bright());
        for x in 0..9 {
            assert!(fall.column(x).active_index() < 6);
            assert_eq!(fall.column(x).height(), 6);
        }
        assert_eq!(frame_of(&fall).len(), 6 + 2 * 6 * 9);
    }
}

#[test]
fn random_step_of_a_waterfall_without_columns_does_nothing() {
    let mut fall = MatrixWaterfall::new(0, 0, bright());
    fall.step();
    assert_eq!(fall.width(), 0);
    let mut tall = MatrixWaterfall::new(7, 0, bright());
    tall.step();
    assert_eq!(tall.height(), 7);
}

#[test]
fn random_step_starts_columns_at_different_times() {
    let mut fall = MatrixWaterfall::new(3, 200, bright());
    fall.step();
    let mut started = 0;
    for x in 0..200 {
        if fall.column(x).active_index() == 1 {
            started += 1;
        }
    }
    assert!(started < 200);
}
