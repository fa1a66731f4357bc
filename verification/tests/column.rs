use matrix_waterfall::alphabet::{symbol, DICT, DICT_LEN};
use matrix_waterfall::color::Color;
use matrix_waterfall::column::{Column, ROLL_BOUND, SUPPRESS_BELOW};
use matrix_waterfall::directive::Directive;
use matrix_waterfall::glyph::Glyph;

fn bright() -> Color {
    Color::from_rgb(0, 255, 43)
}

fn dim() -> Color {
    Color::from_rgb(28, 23, 23)
}

#[test]
fn alphabet_has_its_symbols_in_order() {
    assert_eq!(DICT_LEN, 48);
    assert_eq!(DICT.chars().count(), DICT_LEN);
    assert_eq!(symbol(0), 'a');
    assert_eq!(symbol(25), 'z');
    assert_eq!(symbol(26), '1');
    assert_eq!(symbol(34), '9');
    assert_eq!(symbol(35), ':');
    assert_eq!(symbol(43), '\\');
    assert_eq!(symbol(46), '"');
    assert_eq!(symbol(47), '*');
}

#[test]
fn alphabet_is_letters_digits_and_marks() {
    let marks = ":.-!<>?/\\+=\"*";
    for i in 0..DICT_LEN {
        let c = symbol(i);
        assert_eq!(Some(c), DICT.chars().nth(i));
        assert!(c.is_ascii_lowercase() || ('1'..='9').contains(&c) || marks.contains(c));
    }
    for i in 0..DICT_LEN {
        for j in 0..i {
            assert_ne!(symbol(i), symbol(j));
        }
    }
}

#[test]
fn roll_constants() {
    assert_eq!(ROLL_BOUND, 100);
    assert_eq!(SUPPRESS_BELOW, 90);
}

#[test]
fn new_column_is_blank_with_top_row_active() {
    let col = Column::new(4, bright());
    assert_eq!(col.height(), 4);
    assert_eq!(col.basic_color(), bright());
    assert_eq!(col.active_index(), 0);
    for y in 0..4 {
        assert_eq!(col.glyph(y), Glyph::default());
    }
}

#[test]
fn new_column_without_rows() {
    let col = Column::new(0, bright());
    assert_eq!(col.height(), 0);
    assert_eq!(col.active_index(), 0);
}

#[test]
fn column_render_gives_colour_then_character() {
    let mut col = Column::new(2, bright());
    col.step_with(SUPPRESS_BELOW, 3);
    let mut out: Vec<Directive> = vec![Directive::HideCursor];
    col.render(&mut out, 0);
    col.render(&mut out, 1);
    assert_eq!(
        out,
        vec![
            Directive::HideCursor,
            Directive::Foreground(bright()),
            Directive::Print('d'),
            Directive::Foreground(dim()),
            Directive::Print(' '),
        ]
    );
}

#[test]
fn glyph_render_appends_two_directives() {
    let g = Glyph::new('!', Color::from_rgb(9, 8, 7));
    let mut out: Vec<Directive> = Vec::new();
    g.render(&mut out);
    g.render(&mut out);
    let pair = [Directive::Foreground(Color::from_rgb(9, 8, 7)), Directive::Print('!')];
    assert_eq!(out, vec![pair[0], pair[1], pair[0], pair[1]]);
}

#[test]
fn suppressed_step_only_fades() {
    let mut col = Column::new(3, bright());
    for roll in [0usize, 1, 45, 89] {
        col.step_with(roll, 7);
        assert_eq!(col.active_index(), 0);
        for y in 0..3 {
            assert_eq!(col.glyph(y), Glyph::new(' ', dim()));
        }
    }
}

#[test]
fn roll_at_the_threshold_injects() {
    for roll in [90usize, 91, 99, 100, usize::MAX] {
        let mut col = Column::new(3, bright());
        col.step_with(roll, 7);
        assert_eq!(col.active_index(), 1);
        assert_eq!(col.glyph(0), Glyph::new('h', bright()));
        assert_eq!(col.glyph(1), Glyph::new(' ', dim()));
        assert_eq!(col.glyph(2), Glyph::new(' ', dim()));
    }
}

#[test]
fn roll_counts_at_the_top_row_only() {
    let mut col = Column::new(3, bright());
    col.step_with(95, 0);
    col.step_with(0, 1);
    assert_eq!(col.active_index(), 2);
    assert_eq!(col.glyph(0), Glyph::new('a', Color::from_rgb(11, 218, 46)));
    assert_eq!(col.glyph(1), Glyph::new('b', bright()));
    col.step_with(0, 2);
    assert_eq!(col.active_index(), 0);
    assert_eq!(col.glyph(0), Glyph::new('a', Color::from_rgb(19, 187, 48)));
    assert_eq!(col.glyph(1), Glyph::new('b', Color::from_rgb(11, 218, 46)));
    assert_eq!(col.glyph(2), Glyph::new('c', bright()));
    col.step_with(0, 3);
    assert_eq!(col.active_index(), 0);
    assert_eq!(col.glyph(0), Glyph::new('a', Color::from_rgb(25, 161, 48)));
    assert_eq!(col.glyph(2), Glyph::new('c', Color::from_rgb(11, 218, 46)));
}

#[test]
fn forced_steps_visit_every_row_once() {
    for height in [1u16, 2, 3, 7, 50] {
        let mut col = Column::new(height, bright());
        for k in 0..height {
            assert_eq!(col.active_index(), k as usize);
            col.step_with(SUPPRESS_BELOW, (k as usize) % DICT_LEN);
            assert_eq!(col.glyph(k), Glyph::new(symbol((k as usize) % DICT_LEN), bright()));
            assert!(col.active_index() < height as usize);
        }
        assert_eq!(col.active_index(), 0);
    }
}

#[test]
fn column_of_one_row_stays_at_row_nought() {
    let mut col = Column::new(1, bright());
    col.step_with(99, 47);
    assert_eq!(col.active_index(), 0);
    assert_eq!(col.glyph(0), Glyph::new('*', bright()));
    col.step_with(5, 0);
    assert_eq!(col.glyph(0), Glyph::new('*', Color::from_rgb(11, 218, 46)));
}

#[test]
fn random_step_keeps_the_active_row_in_range() {
    let mut rng = rand::thread_rng();
    let mut col = Column::new(5, bright());
    for _ in 0..2000 {
        col.step(&mut rng);
        assert!(col.active_index() < 5);
        assert_eq!(col.height(), 5);
        assert_eq!(col.basic_color(), bright());
    }
}

#[test]
fn random_step_injects_only_symbols() {
    let mut rng = rand::thread_rng();
    let mut col = Column::new(4, bright());
    let mut seen: Vec<char> = Vec::new();
    for _ in 0..5000 {
        let row = col.active_index();
        col.step(&mut rng);
        if col.active_index() != row {
            let g = col.glyph(row as u16);
            assert_eq!(g.color, bright());
            assert!(DICT.contains(g.character));
            if !seen.contains(&g.character) {
                seen.push(g.character);
            }
        }
    }
    assert!(seen.len() > 1);
    for y in 0..4 {
        let c = col.glyph(y).character;
        assert!(c == ' ' || DICT.contains(c));
    }
}

#[test]
fn random_step_injects_at_the_top_about_one_time_in_ten() {
    let mut rng = rand::thread_rng();
    let trials = 20_000;
    let mut injected = 0;
    for _ in 0..trials {
        let mut col = Column::new(2, bright());
        col.step(&mut rng);
        if col.active_index() == 1 {
            injected += 1;
            assert_eq!(col.glyph(0).color, bright());
        } else {
            assert_eq!(col.glyph(0), Glyph::new(' ', dim()));
        }
    }
    assert!(injected > trials / 20, "{} of {}", injected, trials);
    assert!(injected < trials * 3 / 20, "{} of {}", injected, trials);
}

#[test]
fn random_step_below_the_top_always_injects() {
    let mut rng = rand::thread_rng();
    for _ in 0..500 {
        let mut col = Column::new(3, bright());
        col.step_with(SUPPRESS_BELOW, 0);
        col.step(&mut rng);
        assert_eq!(col.active_index(), 2);
        assert!(DICT.contains(col.glyph(1).character));
    }
}
