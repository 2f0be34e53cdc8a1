use my_cava::color::{Cell, Color};
use my_cava::column::GradientAt;
use my_cava::renderer::SpectrumRenderer;
use my_cava::screen::DrawCommand;

fn display(width: u16, height: u16) -> SpectrumRenderer<i32> {
    let bins: Vec<usize> = (0..width as usize + 1).collect();
    SpectrumRenderer::new(width, height, 48000, &bins, 0, 1)
}

fn gradient(at: GradientAt) -> Color {
    match at {
        GradientAt::Peak => Color::Rgb { r: 255, g: 255, b: 255 },
        GradientAt::Eighths(e) => Color::Rgb { r: e as u8, g: 0, b: 0 },
    }
}

fn red(r: u8) -> Color {
    Color::Rgb { r, g: 0, b: 0 }
}

fn cell(ch: char, fg: Color, bg: Color) -> Cell {
    Cell { ch, fg, bg }
}

#[test]
fn cell_is_drawn_only_when_it_changes() {
    let mut r = display(3, 2);
    assert_eq!(r.draw_cell(1, 1, ' ', Color::Reset, Color::Reset), None);
    let command = r.draw_cell(1, 1, ' ', Color::Reset, red(1)).unwrap();
    assert_eq!(command, DrawCommand { col: 1, row: 1, cell: cell(' ', Color::Reset, red(1)) });
    // Until the command has reached the screen, it is needed.
    assert_eq!(r.draw_cell(1, 1, ' ', Color::Reset, red(1)), Some(command));
    r.commit(&command);
    assert_eq!(r.draw_cell(1, 1, ' ', Color::Reset, red(1)), None);
    assert_eq!(r.frame_buffer[4], command.cell);
    assert!(r.draw_cell(1, 1, 'x', Color::Reset, red(1)).is_some());
    assert!(r.draw_cell(1, 1, ' ', red(2), red(1)).is_some());
    assert_eq!(r.draw_cell(0, 1, ' ', Color::Reset, Color::Reset), None);
}

#[test]
fn bar_is_drawn_from_the_top() {
    let r = display(3, 4);
    // 19 eighths: two full rows and three eighths.
    assert_eq!(
        r.draw_bar(2, 19, 0, gradient),
        vec![
            DrawCommand { col: 2, row: 1, cell: cell('▃', red(19), Color::Reset) },
            DrawCommand { col: 2, row: 2, cell: cell('▀', red(14), red(10)) },
            DrawCommand { col: 2, row: 3, cell: cell('▀', red(6), red(2)) },
        ]
    );
}

#[test]
fn active_cap_is_drawn_above_the_bar() {
    let mut r = display(3, 4);
    r.cap_active[0] = true;
    let peak = Color::Rgb { r: 255, g: 255, b: 255 };
    assert_eq!(
        r.draw_bar(0, 8, 11, gradient),
        vec![
            DrawCommand { col: 0, row: 1, cell: cell('▃', peak, Color::Reset) },
            DrawCommand { col: 0, row: 2, cell: cell('\u{1fb84}', peak, Color::Reset) },
            DrawCommand { col: 0, row: 3, cell: cell('▀', red(6), red(2)) },
        ]
    );
}

#[test]
fn screen_shows_the_bars_after_the_commands() {
    let mut r = display(4, 3);
    let heights = [5usize, 24, 0, 100];
    for x in 0..4 {
        for command in r.draw_bar(x, heights[x], 0, gradient) {
            r.commit(&command);
        }
    }
    let rows: Vec<String> =
        (0..3).map(|row| (0..4).map(|col| r.frame_buffer[row * 4 + col].ch).collect()).collect();
    assert_eq!(rows, vec![" ▀ ▀", " ▀ ▀", "▅▀ ▀"]);
    // The same bars again need nothing.
    for x in 0..4 {
        assert_eq!(r.draw_bar(x, heights[x], 0, gradient), vec![]);
    }
    // A lower bar is cleared above its new top, and the others stay.
    let commands = r.draw_bar(1, 8, 0, gradient);
    assert_eq!(
        commands,
        vec![
            DrawCommand { col: 1, row: 0, cell: cell(' ', Color::Reset, Color::Reset) },
            DrawCommand { col: 1, row: 1, cell: cell(' ', Color::Reset, Color::Reset) },
        ]
    );
    for command in commands {
        r.commit(&command);
    }
    let rows: Vec<String> =
        (0..3).map(|row| (0..4).map(|col| r.frame_buffer[row * 4 + col].ch).collect()).collect();
    assert_eq!(rows, vec!["   ▀", "   ▀", "▅▀ ▀"]);
}

#[test]
fn screen_without_rows_needs_nothing() {
    let r = display(2, 0);
    assert_eq!(r.draw_bar(1, 50, 0, gradient), vec![]);
}

#[test]
fn cells_are_found_by_their_place_in_the_frame() {
    let mut r = display(3, 2);
    // Column 4 of the first row is column 1 of the second.
    let command = r.draw_cell(4, 0, 'x', red(1), Color::Reset).unwrap();
    assert_eq!(command, DrawCommand { col: 4, row: 0, cell: cell('x', red(1), Color::Reset) });
    r.commit(&command);
    assert_eq!(r.frame_buffer[4], command.cell);
    assert_eq!(r.draw_cell(4, 0, 'x', red(1), Color::Reset), None);
    assert_eq!(r.draw_cell(1, 1, 'x', red(1), Color::Reset), None);
}
