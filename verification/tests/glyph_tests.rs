use my_cava::color::{hsv_to_rgb, Color};
use my_cava::column::{plan_row, CellPlan, GradientAt, Shade};
use my_cava::glyph::{block_char, upper_block};

#[test]
fn block_char_levels() {
    let expected = [' ', '▁', '▂', '▃', '▄', '▅', '▆', '▇', '█'];
    for level in 0..9 {
        assert_eq!(block_char(level), expected[level]);
    }
}

#[test]
fn upper_block_levels() {
    let expected = [
        ' ',
        '\u{2594}',
        '\u{1fb82}',
        '\u{1fb83}',
        '\u{2580}',
        '\u{1fb84}',
        '\u{1fb85}',
        '\u{1fb86}',
        '\u{2588}',
    ];
    for fill in 0..9 {
        assert_eq!(upper_block(fill), expected[fill]);
    }
}

#[test]
fn glyphs_differ_between_levels() {
    for a in 0..9 {
        for b in 0..9 {
            assert_eq!(block_char(a) == block_char(b), a == b);
            assert_eq!(upper_block(a) == upper_block(b), a == b);
            assert_eq!(block_char(a) == upper_block(b), a == b && (a == 0 || a == 8));
        }
    }
}

fn rgb(degrees: f32) -> Color {
    let h = degrees.rem_euclid(360.0);
    let x = 1.0 - ((h / 60.0) % 2.0 - 1.0f32).abs();
    let (r, g, b) = hsv_to_rgb(h as u32, 1.0f32, x, 0.0, |w: f32| (w * 255.0).round() as u8);
    Color::Rgb { r, g, b }
}

#[test]
fn hue_wheel() {
    assert_eq!(rgb(0.0), Color::Rgb { r: 255, g: 0, b: 0 });
    assert_eq!(rgb(60.0), Color::Rgb { r: 255, g: 255, b: 0 });
    assert_eq!(rgb(90.0), Color::Rgb { r: 128, g: 255, b: 0 });
    assert_eq!(rgb(120.0), Color::Rgb { r: 0, g: 255, b: 0 });
    assert_eq!(rgb(180.0), Color::Rgb { r: 0, g: 255, b: 255 });
    assert_eq!(rgb(240.0), Color::Rgb { r: 0, g: 0, b: 255 });
    assert_eq!(rgb(300.0), Color::Rgb { r: 255, g: 0, b: 255 });
    assert_eq!(rgb(330.0), Color::Rgb { r: 255, g: 0, b: 128 });
    assert_eq!(rgb(-120.0), Color::Rgb { r: 0, g: 0, b: 255 });
}

#[test]
fn hue_sectors_place_the_weights() {
    let at = |degrees: u32| hsv_to_rgb(degrees, 3u8, 2, 1, |w: u8| w);
    assert_eq!(at(0), (3, 2, 1));
    assert_eq!(at(59), (3, 2, 1));
    assert_eq!(at(60), (2, 3, 1));
    assert_eq!(at(120), (1, 3, 2));
    assert_eq!(at(180), (1, 2, 3));
    assert_eq!(at(240), (2, 1, 3));
    assert_eq!(at(300), (3, 1, 2));
    assert_eq!(at(360), (3, 1, 2));
}

fn blank() -> CellPlan {
    CellPlan { ch: ' ', fg: Shade::Reset, bg: Shade::Reset }
}

fn cap(ch: char) -> CellPlan {
    CellPlan { ch, fg: Shade::Gradient(GradientAt::Peak), bg: Shade::Reset }
}

#[test]
fn row_without_bar_or_cap_is_blank() {
    assert_eq!(plan_row(false, 0, 0, 0), blank());
    assert_eq!(plan_row(true, 16, 0, 0), blank());
    assert_eq!(plan_row(true, 16, 16, 4), blank());
}

#[test]
fn full_row_shows_two_colours() {
    assert_eq!(
        plan_row(false, 0, 100, 3),
        CellPlan {
            ch: '▀',
            fg: Shade::Gradient(GradientAt::Eighths(30)),
            bg: Shade::Gradient(GradientAt::Eighths(26)),
        }
    );
}

#[test]
fn top_row_of_a_bar_is_exact_to_an_eighth() {
    for level in 1..8usize {
        assert_eq!(
            plan_row(false, 0, 16 + level, 2),
            CellPlan {
                ch: block_char(level),
                fg: Shade::Gradient(GradientAt::Eighths(16 + level)),
                bg: Shade::Reset,
            }
        );
    }
}

#[test]
fn cap_lies_in_one_row_or_in_two() {
    // On the edge of a row: one full block.
    assert_eq!(plan_row(true, 8, 8, 1), cap('█'));
    assert_eq!(plan_row(true, 8, 0, 0), blank());
    assert_eq!(plan_row(true, 8, 0, 2), blank());
    // Three eighths above the edge: five eighths in the lower row, three in the upper one.
    assert_eq!(plan_row(true, 11, 0, 1), cap(upper_block(5)));
    assert_eq!(plan_row(true, 11, 0, 2), cap(block_char(3)));
    assert_eq!(plan_row(true, 11, 0, 3), blank());
}

#[test]
fn cap_hides_the_bar_behind_it() {
    assert_eq!(plan_row(true, 3, 100, 0), cap(upper_block(5)));
    assert_eq!(plan_row(true, 0, 100, 0), cap('█'));
}

#[test]
fn inactive_cap_is_hidden() {
    for height in 0..40 {
        for dist in 0..6 {
            assert_eq!(plan_row(false, height, 13, dist), plan_row(false, 0, 13, dist));
        }
    }
}

#[test]
fn extreme_heights() {
    assert_eq!(plan_row(false, 0, usize::MAX, 65535).ch, '▀');
    assert_eq!(plan_row(true, usize::MAX - 8, 0, 65535), blank());
}

/// The eighths of a cell that a glyph of a cap fills.
fn eighths(ch: char) -> usize {
    (0..9).find(|n| block_char(*n) == ch || upper_block(*n) == ch).unwrap()
}

#[test]
fn cap_is_shown_whole() {
    for height in 0..60usize {
        let shown: usize = (0..5u16).map(|dist| eighths(plan_row(true, height, 0, dist).ch)).sum();
        assert_eq!(shown, if height <= 32 { 8 } else { 40usize.saturating_sub(height) });
    }
}

#[test]
fn bar_is_shown_whole() {
    for bar in 0..60usize {
        let shown: usize = (0..5u16)
            .map(|dist| match plan_row(false, 0, bar, dist) {
                // Both halves of a full row are coloured.
                CellPlan { ch: '▀', fg: Shade::Gradient(_), bg: Shade::Gradient(_) } => 8,
                plan => eighths(plan.ch),
            })
            .sum();
        assert_eq!(shown, bar.min(40));
    }
}
