//! The state of the display: its size, the frame on the screen, and the bars.
use crate::bands::{
    are_bar_ranges, bar_count, bars_on, bins_below_cutoff, build_bar_ranges,
    law_bars_read_a_bin, law_bars_start_as_early_as_they_can, law_no_bin_is_left_out,
    lemma_cutoff_bins, total_bins,
};
use crate::color::{blank, blank_cell, Cell, Color};
use crate::column::{
    lemma_plan_shows_every_eighth, plan_row, row_plan, shade_at, CellPlan, GradientAt, Shade,
};
use crate::config::{BAR_SPACING, BAR_WIDTH, CAP_SIZE, FFT_SIZE, HIGHER_CUTOFF_FREQ};
use crate::glyph::fills;
use crate::screen::{
    apply_command, apply_commands, cell_commands, cell_index, changes_column, column_commands,
    in_column, law_commands_change_cells, law_commands_show_the_column,
    law_no_place_is_sent_twice, law_unchanged_column_needs_no_command, lemma_index_computable,
    lemma_index_on_screen, lies_before, strip_cell, strip_commands, strip_width, DrawCommand,
};
use crate::silence::{at_rest, is_blank};
use vstd::prelude::*;

verus! {

/// The display. Every sequence of scalars holds one entry for each bar.
pub struct SpectrumRenderer<V> {
    /// Columns of the terminal.
    pub width: u16,
    /// Rows of the terminal.
    pub height: u16,
    /// What the screen shows, row by row from the top.
    pub frame_buffer: Vec<Cell>,
    /// The bin range of each bar.
    pub bar_ranges: Vec<(usize, usize)>,
    /// The lower edge of each cap, in eighths of a cell.
    pub cap_heights: Vec<V>,
    /// Whether a bar has ever risen above its cap: until then the cap is not shown.
    pub cap_active: Vec<bool>,
    /// The strength of each bar in this frame.
    pub bar_values: Vec<V>,
    /// The automatic gain.
    pub sensitivity: V,
    /// How long each bar has been falling.
    pub bar_fall: Vec<V>,
    /// The memory of the low-pass filter.
    pub bar_mem: Vec<V>,
    /// Where each bar began to fall.
    pub bar_peak: Vec<V>,
    /// The value of each bar in the last frame, before the low-pass filter.
    pub prev_bar: Vec<V>,
    /// The positions of the springs.
    pub spring_pos: Vec<V>,
    /// The velocities of the springs.
    pub spring_vel: Vec<V>,
    /// The smoothed overall intensity.
    pub intensity: V,
    /// The phase of the colour palette.
    pub hue_phase: V,
}

/// A vector that holds one value `n` times.
fn repeated<T: Copy>(value: T, n: usize) -> (items: Vec<T>)
    ensures
        items@ == Seq::new(n as nat, |i: int| value),
{
    let mut items: Vec<T> = Vec::with_capacity(n);
    for i in 0..n
        invariant
            items@ == Seq::new(i as nat, |k: int| value),
    {
        items.push(value);
        assert(items@ =~= Seq::new((i + 1) as nat, |k: int| value));
    }
    items
}

/// Which colours a bar may have at which places.
pub type Palette = spec_fn(GradientAt, Color) -> bool;

/// The colours that `gradient` gives.
pub open spec fn colors_of<F: Fn(GradientAt) -> Color>(gradient: F) -> Palette {
    |at: GradientAt, color: Color| call_ensures(gradient, (at,), color)
}

/// Whether a colour is what a shade stands for in a bar with the given palette.
pub open spec fn is_shade(palette: Palette, shade: Shade, color: Color) -> bool {
    match shade {
        Shade::Reset => color == Color::Reset,
        Shade::Gradient(at) => palette(at, color),
    }
}

/// Whether a cell is what a plan stands for.
pub open spec fn is_planned(palette: Palette, plan: CellPlan, cell: Cell) -> bool {
    &&& cell.ch == plan.ch
    &&& is_shade(palette, plan.fg, cell.fg)
    &&& is_shade(palette, plan.bg, cell.bg)
}

/// Whether `cells` are what the rows of a column show, from the top row downwards.
pub open spec fn are_column_cells(
    palette: Palette,
    cap_active: bool,
    cap: int,
    bar: int,
    height: int,
    cells: Seq<Cell>,
) -> bool {
    &&& cells.len() == height
    &&& forall|row: int|
        0 <= row < height ==> is_planned(
            palette,
            row_plan(cap_active, cap, bar, height - 1 - row),
            #[trigger] cells[row],
        )
}

/// The colour of a shade.
fn paint<F: Fn(GradientAt) -> Color>(gradient: &F, shade: Shade) -> (color: Color)
    requires
        forall|at: GradientAt| #[trigger] call_requires(*gradient, (at,)),
    ensures
        is_shade(colors_of(*gradient), shade, color),
{
    match shade {
        Shade::Reset => Color::Reset,
        Shade::Gradient(at) => gradient(at),
    }
}

impl<V: Copy> SpectrumRenderer<V> {
    /// The number of bars.
    pub open spec fn bars(&self) -> int {
        self.bar_ranges@.len() as int
    }

    /// Whether the parts of the display fit together: the frame covers the screen, the bars fit
    /// side by side, and each bar has its state.
    pub open spec fn wf(&self) -> bool {
        &&& self.frame_buffer@.len() == self.width * self.height
        &&& self.bars() * strip_width() <= self.width
        &&& self.cap_heights@.len() == self.bars()
        &&& self.cap_active@.len() == self.bars()
        &&& self.bar_values@.len() == self.bars()
        &&& self.bar_fall@.len() == self.bars()
        &&& self.bar_mem@.len() == self.bars()
        &&& self.bar_peak@.len() == self.bars()
        &&& self.prev_bar@.len() == self.bars()
        &&& self.spring_pos@.len() == self.bars()
        &&& self.spring_vel@.len() == self.bars()
    }

    /// The display of an empty terminal with every bar at rest. `bins[s]` is the bin at the
    /// lower edge of bar `s`; `zero` is the resting value of the scalars and `one` the first
    /// gain. At a sample rate of at least twice the upper cutoff frequency the half spectrum of
    /// a transform holds the bands of all bars.
    pub fn new(
        width: u16,
        height: u16,
        sample_rate: u32,
        bins: &[usize],
        zero: V,
        one: V,
    ) -> (renderer: Self)
        requires
            bars_on(width, bins_below_cutoff(sample_rate)) == 0 || bars_on(
                width,
                bins_below_cutoff(sample_rate),
            ) < bins@.len(),
        ensures
            renderer.wf(),
            renderer.width == width,
            renderer.height == height,
            renderer.frame_buffer@ == Seq::new((width * height) as nat, |i: int| blank_cell()),
            renderer.bars() == bars_on(width, bins_below_cutoff(sample_rate)),
            are_bar_ranges(
                renderer.bar_ranges@,
                renderer.bars() as usize,
                bins_below_cutoff(sample_rate),
                bins@,
            ),
            renderer.bands_fit(bins_below_cutoff(sample_rate) as int),
            2 * HIGHER_CUTOFF_FREQ <= sample_rate ==> renderer.bands_fit(FFT_SIZE as int / 2),
            renderer.cap_heights@ == Seq::new(renderer.bars() as nat, |i: int| zero),
            renderer.cap_active@ == Seq::new(renderer.bars() as nat, |i: int| false),
            renderer.bar_values@ == Seq::new(renderer.bars() as nat, |i: int| zero),
            renderer.bar_fall@ == Seq::new(renderer.bars() as nat, |i: int| zero),
            renderer.bar_mem@ == Seq::new(renderer.bars() as nat, |i: int| zero),
            renderer.bar_peak@ == Seq::new(renderer.bars() as nat, |i: int| zero),
            renderer.prev_bar@ == Seq::new(renderer.bars() as nat, |i: int| zero),
            renderer.spring_pos@ == Seq::new(renderer.bars() as nat, |i: int| zero),
            renderer.spring_vel@ == Seq::new(renderer.bars() as nat, |i: int| zero),
            renderer.sensitivity == one,
            renderer.intensity == zero,
            renderer.hue_phase == zero,
            at_rest(renderer, zero),
            is_blank(renderer),
    {
        let total: usize = total_bins(sample_rate);
        let bars: usize = bar_count(width, total);
        let bar_ranges = build_bar_ranges(bars, total, bins);
        proof {
            if 2 * HIGHER_CUTOFF_FREQ <= sample_rate {
                assert(total <= FFT_SIZE as int / 2) by (nonlinear_arith)
                    requires
                        total * sample_rate <= 13000 * 1024,
                        26000 <= sample_rate,
                        FFT_SIZE == 1024,
                ;
            }
            assert(width * height <= 0xffff * 0xffff) by (nonlinear_arith)
                requires
                    width <= 0xffff,
                    height <= 0xffff,
            ;
        }
        let cells: usize = width as usize * height as usize;
        SpectrumRenderer {
            width,
            height,
            frame_buffer: repeated(blank(), cells),
            bar_ranges,
            cap_heights: repeated(zero, bars),
            cap_active: repeated(false, bars),
            bar_values: repeated(zero, bars),
            sensitivity: one,
            bar_fall: repeated(zero, bars),
            bar_mem: repeated(zero, bars),
            bar_peak: repeated(zero, bars),
            prev_bar: repeated(zero, bars),
            spring_pos: repeated(zero, bars),
            spring_vel: repeated(zero, bars),
            intensity: zero,
            hue_phase: zero,
        }
    }

    /// The command that shows a cell, or `None` where the screen shows it already.
    pub fn draw_cell(&self, col: usize, row: u16, ch: char, fg: Color, bg: Color) -> (command:
        Option<DrawCommand>)
        requires
            self.wf(),
            col <= u16::MAX,
            cell_index(self.width as int, col as int, row as int) < self.frame_buffer@.len(),
        ensures
            command == if self.frame_buffer@[cell_index(self.width as int, col as int, row as int)]
                == (Cell { ch, fg, bg }) {
                None
            } else {
                Some(DrawCommand { col: col as u16, row, cell: Cell { ch, fg, bg } })
            },
    {
        proof {
            lemma_index_computable(self.width, row);
        }
        let at: usize = row as usize * self.width as usize + col;
        let shown = self.frame_buffer[at];
        if shown.ch != ch || shown.fg != fg || shown.bg != bg {
            Some(DrawCommand { col: col as u16, row, cell: Cell { ch, fg, bg } })
        } else {
            None
        }
    }

    /// Notes that a command has reached the screen.
    pub fn commit(&mut self, command: &DrawCommand)
        requires
            old(self).wf(),
            cell_index(old(self).width as int, command.col as int, command.row as int) < old(
                self,
            ).frame_buffer@.len(),
        ensures
            final(self).wf(),
            *final(self) == (SpectrumRenderer {
                frame_buffer: final(self).frame_buffer,
                ..*old(self)
            }),
            final(self).frame_buffer@ == apply_command(
                old(self).frame_buffer@,
                old(self).width as int,
                *command,
            ),
    {
        proof {
            lemma_index_computable(self.width, command.row);
        }
        let at: usize = command.row as usize * self.width as usize + command.col as usize;
        self.frame_buffer[at] = command.cell;
    }

    /// The commands that show bar `x` with a height of `bar` eighths of a cell and its cap at
    /// `cap` eighths, row by row from the top. `gradient` gives the colours of the bar.
    pub fn draw_bar<F: Fn(GradientAt) -> Color>(
        &self,
        x: usize,
        bar: usize,
        cap: usize,
        gradient: F,
    ) -> (commands: Vec<DrawCommand>)
        requires
            self.wf(),
            x < self.bars(),
            cap + CAP_SIZE <= usize::MAX,
            forall|at: GradientAt| #[trigger] call_requires(gradient, (at,)),
        ensures
            exists|cells: Seq<Cell>|
                #[trigger] are_column_cells(
                    colors_of(gradient),
                    self.cap_active@[x as int],
                    cap as int,
                    bar as int,
                    self.height as int,
                    cells,
                ) && commands@ == column_commands(
                    self.frame_buffer@,
                    self.width as int,
                    x * strip_width(),
                    cells,
                    self.height as nat,
                ),
            forall|k: int|
                0 <= k < commands@.len() ==> (#[trigger] commands@[k]).col < self.width
                    && commands@[k].row < self.height && cell_index(
                    self.width as int,
                    commands@[k].col as int,
                    commands@[k].row as int,
                ) < self.frame_buffer@.len(),
    {
        let ghost frame = self.frame_buffer@;
        let ghost width = self.width as int;
        proof {
            assert((x + 1) * strip_width() <= self.bars() * strip_width()) by (nonlinear_arith)
                requires
                    x + 1 <= self.bars(),
                    strip_width() >= 0,
            ;
            assert(x * strip_width() + strip_width() == (x + 1) * strip_width())
                by (nonlinear_arith);
        }
        let base_col: usize = x * (BAR_WIDTH + BAR_SPACING);
        let ghost base = base_col as int;
        let cap_active: bool = self.cap_active[x];
        let mut commands: Vec<DrawCommand> = Vec::new();
        let ghost mut cells: Seq<Cell> = seq![];
        for row in 0..self.height
            invariant
                self.wf(),
                frame == self.frame_buffer@,
                width == self.width,
                base == base_col,
                base + strip_width() <= width,
                cap + CAP_SIZE <= usize::MAX,
                forall|at: GradientAt| #[trigger] call_requires(gradient, (at,)),
                cells.len() == row,
                forall|r: int|
                    0 <= r < row ==> is_planned(
                        colors_of(gradient),
                        row_plan(cap_active, cap as int, bar as int, self.height - 1 - r),
                        #[trigger] cells[r],
                    ),
                commands@ == column_commands(frame, width, base, cells, row as nat),
        {
            let plan = plan_row(cap_active, cap, bar, self.height - 1 - row);
            let fg = paint(&gradient, plan.fg);
            let bg = paint(&gradient, plan.bg);
            let ghost cell = Cell { ch: plan.ch, fg, bg };
            let ghost above = commands@;
            let ghost more = cells.push(cell);
            proof {
                lemma_column_commands_prefix(frame, width, base, cells, more, row as nat);
            }
            for offset in 0..BAR_WIDTH
                invariant
                    self.wf(),
                    row < self.height,
                    frame == self.frame_buffer@,
                    width == self.width,
                    base == base_col,
                    base + strip_width() <= width,
                    cell == (Cell { ch: plan.ch, fg, bg }),
                    commands@ == above + strip_commands(
                        frame,
                        width,
                        base,
                        row as int,
                        cell,
                        offset as nat,
                    ),
            {
                proof {
                    lemma_index_on_screen(self.width, self.height, base + offset, row as int);
                }
                match self.draw_cell(base_col + offset, row, plan.ch, fg, bg) {
                    Some(command) => commands.push(command),
                    None => {},
                }
                assert(commands@ =~= above + (strip_commands(
                    frame,
                    width,
                    base,
                    row as int,
                    cell,
                    offset as nat,
                ) + cell_commands(frame, width, base + offset, row as int, cell)));
            }
            for offset in 0..BAR_SPACING
                invariant
                    self.wf(),
                    row < self.height,
                    frame == self.frame_buffer@,
                    width == self.width,
                    base == base_col,
                    base + strip_width() <= width,
                    commands@ == above + strip_commands(
                        frame,
                        width,
                        base,
                        row as int,
                        cell,
                        (BAR_WIDTH + offset) as nat,
                    ),
            {
                let gap: usize = base_col + BAR_WIDTH + offset;
                proof {
                    lemma_index_on_screen(self.width, self.height, gap as int, row as int);
                }
                match self.draw_cell(gap, row, ' ', Color::Reset, Color::Reset) {
                    Some(command) => commands.push(command),
                    None => {},
                }
                assert(commands@ =~= above + (strip_commands(
                    frame,
                    width,
                    base,
                    row as int,
                    cell,
                    (BAR_WIDTH + offset) as nat,
                ) + cell_commands(
                    frame,
                    width,
                    base + BAR_WIDTH + offset,
                    row as int,
                    blank_cell(),
                )));
            }
            proof {
                cells = more;
            }
        }
        assert(are_column_cells(
            colors_of(gradient),
            cap_active,
            cap as int,
            bar as int,
            self.height as int,
            cells,
        ));
        proof {
            law_commands_change_cells(frame, width, base, cells, self.height as nat);
            assert forall|k: int| 0 <= k < commands@.len() implies cell_index(
                width,
                (#[trigger] commands@[k]).col as int,
                commands@[k].row as int,
            ) < frame.len() by {
                lemma_index_on_screen(
                    self.width,
                    self.height,
                    commands@[k].col as int,
                    commands@[k].row as int,
                );
            }
        }
        commands
    }
}

/// Whether a palette has no more than one colour for each place.
pub open spec fn one_color_per_place(palette: Palette) -> bool {
    forall|at: GradientAt, a: Color, b: Color| #[trigger]
        palette(at, a) && #[trigger] palette(at, b) ==> a == b
}

/// Drawing a bar changes no cell outside its columns, and drawing the same bar again after its
/// commands have reached the screen needs no command. `cells` are the cells of the first
/// drawing and `again` those of the second; the palette has one colour for each place.
pub proof fn law_redraw_needs_no_command<V: Copy>(
    renderer: SpectrumRenderer<V>,
    x: int,
    bar: int,
    cap: int,
    palette: Palette,
    cells: Seq<Cell>,
    again: Seq<Cell>,
)
    requires
        renderer.wf(),
        0 <= x < renderer.bars(),
        one_color_per_place(palette),
        are_column_cells(
            palette,
            renderer.cap_active@[x],
            cap,
            bar,
            renderer.height as int,
            cells,
        ),
        are_column_cells(
            palette,
            renderer.cap_active@[x],
            cap,
            bar,
            renderer.height as int,
            again,
        ),
    ensures
        ({
            let width = renderer.width as int;
            let base = x * strip_width();
            let frame = renderer.frame_buffer@;
            let rows = renderer.height as nat;
            let after = apply_commands(
                frame,
                width,
                column_commands(frame, width, base, cells, rows),
            );
            &&& after.len() == frame.len()
            &&& forall|i: int|
                0 <= i < frame.len() && !in_column(width, base, i) ==> #[trigger] after[i]
                    == frame[i]
            &&& column_commands(after, width, base, again, rows) == Seq::<DrawCommand>::empty()
        }),
{
    let width = renderer.width as int;
    let base = x * strip_width();
    let frame = renderer.frame_buffer@;
    let rows = renderer.height as nat;
    assert(0 <= base && base + strip_width() <= renderer.bars() * strip_width())
        by (nonlinear_arith)
        requires
            base == x * strip_width(),
            0 <= x,
            x + 1 <= renderer.bars(),
            strip_width() >= 0,
    ;
    vstd::arithmetic::mul::lemma_mul_is_commutative(width, rows as int);
    assert forall|row: int| 0 <= row < rows implies #[trigger] again[row] == cells[row] by {
        let plan = row_plan(renderer.cap_active@[x], cap, bar, rows - 1 - row);
        assert(is_planned(palette, plan, cells[row]));
        assert(is_planned(palette, plan, again[row]));
        assert(cells[row].fg == again[row].fg);
        assert(cells[row].bg == again[row].bg);
    }
    assert(again =~= cells);
    law_commands_show_the_column(frame, width, base, cells);
    let after = apply_commands(frame, width, column_commands(frame, width, base, cells, rows));
    law_unchanged_column_needs_no_command(after, width, base, cells, rows);
}

/// The commands for some rows depend on the cells of these rows only.
proof fn lemma_column_commands_prefix(
    frame: Seq<Cell>,
    width: int,
    base: int,
    cells: Seq<Cell>,
    more: Seq<Cell>,
    rows: nat,
)
    requires
        rows <= cells.len() <= more.len(),
        forall|r: int| 0 <= r < cells.len() ==> cells[r] == more[r],
    ensures
        column_commands(frame, width, base, cells, rows) == column_commands(
            frame,
            width,
            base,
            more,
            rows,
        ),
    decreases rows,
{
    if rows > 0 {
        lemma_column_commands_prefix(frame, width, base, cells, more, (rows - 1) as nat);
    }
}

/// The colour of eighth number `k` of a cell, counted from the bottom upwards: the glyph has the
/// foreground, and what it leaves free the background.
pub open spec fn color_at(cell: Cell, k: int) -> Color {
    if fills(cell.ch, k) {
        cell.fg
    } else {
        cell.bg
    }
}

/// Whether a cell in the row at the distance `dist` from the bottom row shows every eighth of a
/// column as it is: those of an active cap in the colour of the upper end of the gradient, and
/// in the rows without it those below the upper edge of the bar in a colour of the gradient. The
/// others have the default colour, and a cell without any is blank.
pub open spec fn shows_eighths(
    palette: Palette,
    cap_active: bool,
    cap: usize,
    bar: usize,
    dist: int,
    cell: Cell,
) -> bool {
    let bottom = 8 * dist;
    let capped = cap_active && cap < bottom + 8 && bottom < cap + CAP_SIZE;
    &&& forall|k: int|
        0 <= k < 8 ==> {
            let shown = #[trigger] color_at(cell, k);
            if capped && cap <= bottom + k < cap + CAP_SIZE {
                palette(GradientAt::Peak, shown)
            } else if !capped && bottom + k < bar {
                if bar < bottom + 8 {
                    palette(GradientAt::Eighths(bar), shown)
                } else if k < 4 {
                    palette(GradientAt::Eighths((bottom + 2) as usize), shown)
                } else {
                    palette(GradientAt::Eighths((bottom + 6) as usize), shown)
                }
            } else {
                shown == Color::Reset
            }
        }
    &&& cell.ch == ' ' <==> !capped && bar <= bottom
    &&& cell.ch == ' ' ==> cell.fg == Color::Reset && cell.bg == Color::Reset
    &&& cell.ch == ' ' || exists|j: int| 0 <= j < 8 && #[trigger] fills(cell.ch, j)
}

/// A cell that is what a plan stands for shows every eighth of its row.
pub(crate) proof fn lemma_planned_cell_shows_eighths(
    palette: Palette,
    cap_active: bool,
    cap: usize,
    bar: usize,
    dist: u16,
    cell: Cell,
)
    requires
        is_planned(palette, row_plan(cap_active, cap as int, bar as int, dist as int), cell),
    ensures
        shows_eighths(palette, cap_active, cap, bar, dist as int, cell),
{
    let plan = row_plan(cap_active, cap as int, bar as int, dist as int);
    lemma_plan_shows_every_eighth(cap_active, cap, bar, dist, 0);
    assert forall|k: int| 0 <= k < 8 implies is_shade(
        palette,
        shade_at(plan, k),
        #[trigger] color_at(cell, k),
    ) && {
        let bottom = 8 * dist;
        let capped = cap_active && cap < bottom + 8 && bottom < cap + CAP_SIZE;
        shade_at(plan, k) == if capped {
            if cap <= bottom + k < cap + CAP_SIZE {
                Shade::Gradient(GradientAt::Peak)
            } else {
                Shade::Reset
            }
        } else if bottom + k < bar {
            if bar < bottom + 8 {
                Shade::Gradient(GradientAt::Eighths(bar))
            } else if k < 4 {
                Shade::Gradient(GradientAt::Eighths((bottom + 2) as usize))
            } else {
                Shade::Gradient(GradientAt::Eighths((bottom + 6) as usize))
            }
        } else {
            Shade::Reset
        }
    } by {
        lemma_plan_shows_every_eighth(cap_active, cap, bar, dist, k);
    }
}

/// A cell is sent exactly where the screen shows another one at its place, counted row by row,
/// and it is sent as it is.
pub proof fn law_cell_is_sent_where_it_changes<V: Copy>(
    renderer: &SpectrumRenderer<V>,
    col: usize,
    row: u16,
    ch: char,
    fg: Color,
    bg: Color,
    command: Option<DrawCommand>,
)
    requires
        renderer.wf(),
        col <= u16::MAX,
        row * renderer.width + col < renderer.frame_buffer@.len(),
        call_ensures(SpectrumRenderer::<V>::draw_cell, (renderer, col, row, ch, fg, bg), command),
    ensures
        ({
            let shown = renderer.frame_buffer@[row * renderer.width + col];
            &&& command is None <==> shown.ch == ch && shown.fg == fg && shown.bg == bg
            &&& command matches Some(sent) ==> sent.col == col && sent.row == row && sent.cell.ch
                == ch && sent.cell.fg == fg && sent.cell.bg == bg
        }),
{
}

/// Noting a command changes the cell at its place, counted row by row, and nothing else of the
/// display.
pub proof fn law_noted_command_changes_one_cell<V: Copy>(
    renderer: &mut SpectrumRenderer<V>,
    command: &DrawCommand,
)
    requires
        old(renderer).wf(),
        command.row * old(renderer).width + command.col < old(renderer).frame_buffer@.len(),
        call_ensures(SpectrumRenderer::<V>::commit, (renderer, command), ()),
    ensures
        final(renderer).frame_buffer@.len() == old(renderer).frame_buffer@.len(),
        forall|i: int|
            0 <= i < old(renderer).frame_buffer@.len() ==> #[trigger] final(renderer).frame_buffer@[i]
                == if i == command.row * old(renderer).width + command.col {
                command.cell
            } else {
                old(renderer).frame_buffer@[i]
            },
        *final(renderer) == (SpectrumRenderer {
            frame_buffer: final(renderer).frame_buffer,
            ..*old(renderer)
        }),
{
    lemma_index_computable(old(renderer).width, command.row);
}

/// Once the commands of a bar have reached the screen, the columns of the bar show every eighth
/// of it and of its cap, and every other column is as it was. A place is sent at most once, and
/// only where it changes.
pub proof fn law_drawn_bar_is_on_the_screen<V: Copy, F: Fn(GradientAt) -> Color>(
    renderer: &SpectrumRenderer<V>,
    x: usize,
    bar: usize,
    cap: usize,
    gradient: F,
    commands: Vec<DrawCommand>,
)
    requires
        renderer.wf(),
        x < renderer.bars(),
        call_ensures(
            SpectrumRenderer::<V>::draw_bar::<F>,
            (renderer, x, bar, cap, gradient),
            commands,
        ),
    ensures
        ({
            let width = renderer.width as int;
            let base = x * (BAR_WIDTH + BAR_SPACING);
            let frame = renderer.frame_buffer@;
            let after = apply_commands(frame, width, commands@);
            &&& after.len() == frame.len()
            &&& forall|row: int, offset: int|
                0 <= row < renderer.height && 0 <= offset < BAR_WIDTH ==> shows_eighths(
                    colors_of(gradient),
                    renderer.cap_active@[x as int],
                    cap,
                    bar,
                    renderer.height - 1 - row,
                    #[trigger] after[row * width + (base + offset)],
                )
            &&& forall|i: int|
                0 <= i < frame.len() && !(base <= i % width < base + BAR_WIDTH + BAR_SPACING)
                    ==> #[trigger] after[i] == frame[i]
            &&& forall|k: int|
                0 <= k < commands@.len() ==> frame[(#[trigger] commands@[k]).row * width
                    + commands@[k].col] != commands@[k].cell
            &&& forall|j: int, k: int|
                0 <= j < k < commands@.len() ==> (#[trigger] commands@[j]).row < (
                #[trigger] commands@[k]).row || commands@[j].row == commands@[k].row
                    && commands@[j].col < commands@[k].col
        }),
{
    let width = renderer.width as int;
    let height = renderer.height as int;
    let base = x * strip_width();
    let frame = renderer.frame_buffer@;
    let cap_active = renderer.cap_active@[x as int];
    let cells = choose|cells: Seq<Cell>|
        #[trigger] are_column_cells(
            colors_of(gradient),
            cap_active,
            cap as int,
            bar as int,
            height,
            cells,
        ) && commands@ == column_commands(frame, width, base, cells, renderer.height as nat);
    assert(0 <= base && base + strip_width() <= renderer.bars() * strip_width())
        by (nonlinear_arith)
        requires
            base == x * strip_width(),
            x + 1 <= renderer.bars(),
            strip_width() >= 0,
    ;
    vstd::arithmetic::mul::lemma_mul_is_commutative(width, height);
    law_commands_show_the_column(frame, width, base, cells);
    law_commands_change_cells(frame, width, base, cells, renderer.height as nat);
    law_no_place_is_sent_twice(frame, width, base, cells, renderer.height as nat);
    let after = apply_commands(frame, width, commands@);
    assert forall|row: int, offset: int|
        0 <= row < height && 0 <= offset < BAR_WIDTH implies shows_eighths(
        colors_of(gradient),
        cap_active,
        cap,
        bar,
        height - 1 - row,
        #[trigger] after[row * width + (base + offset)],
    ) by {
        assert(after[cell_index(width, base + offset, row)] == strip_cell(cells[row], offset));
        assert(is_planned(
            colors_of(gradient),
            row_plan(cap_active, cap as int, bar as int, height - 1 - row),
            cells[row],
        ));
        lemma_planned_cell_shows_eighths(
            colors_of(gradient),
            cap_active,
            cap,
            bar,
            (height - 1 - row) as u16,
            cells[row],
        );
    }
    assert forall|k: int| 0 <= k < commands@.len() implies frame[(#[trigger] commands@[k]).row
        * width + commands@[k].col] != commands@[k].cell by {
        assert(changes_column(frame, width, base, height, commands@[k]));
    }
    assert forall|j: int, k: int| 0 <= j < k < commands@.len() implies (
    #[trigger] commands@[j]).row < (#[trigger] commands@[k]).row || commands@[j].row
        == commands@[k].row && commands@[j].col < commands@[k].col by {
        assert(lies_before(commands@[j], commands@[k]));
    }
}

/// A new display covers the screen with blank cells, has as many bars as fit side by side and
/// can have a bin of their own, and every bar is at rest with its cap not yet activated.
pub proof fn law_new_display_is_empty<V: Copy>(
    width: u16,
    height: u16,
    sample_rate: u32,
    bins: &[usize],
    zero: V,
    one: V,
    renderer: SpectrumRenderer<V>,
    n: nat,
)
    requires
        call_ensures(
            SpectrumRenderer::<V>::new,
            (width, height, sample_rate, bins, zero, one),
            renderer,
        ),
    ensures
        renderer.width == width,
        renderer.height == height,
        renderer.frame_buffer@.len() == width * height,
        forall|i: int|
            0 <= i < width * height ==> #[trigger] renderer.frame_buffer@[i] == (Cell {
                ch: ' ',
                fg: Color::Reset,
                bg: Color::Reset,
            }),
        n <= renderer.bar_ranges@.len() <==> n * (BAR_WIDTH + BAR_SPACING) <= width && n
            * sample_rate <= HIGHER_CUTOFF_FREQ * FFT_SIZE,
        forall|x: int|
            0 <= x < renderer.bar_ranges@.len() ==> (#[trigger] renderer.bar_ranges@[x]).0
                < renderer.bar_ranges@[x].1 && renderer.bar_ranges@[x].1 * sample_rate
                <= HIGHER_CUTOFF_FREQ * FFT_SIZE,
        renderer.cap_active@.len() == renderer.bar_ranges@.len(),
        forall|x: int|
            0 <= x < renderer.bar_ranges@.len() ==> !(#[trigger] renderer.cap_active@[x])
                && renderer.cap_heights@[x] == zero && renderer.bar_values@[x] == zero
                && renderer.bar_fall@[x] == zero && renderer.bar_mem@[x] == zero
                && renderer.bar_peak@[x] == zero && renderer.prev_bar@[x] == zero
                && renderer.spring_pos@[x] == zero && renderer.spring_vel@[x] == zero,
        renderer.sensitivity == one,
        renderer.intensity == zero,
        renderer.hue_phase == zero,
{
    let total = bins_below_cutoff(sample_rate);
    let limit = HIGHER_CUTOFF_FREQ * FFT_SIZE;
    if sample_rate > 0 {
        lemma_cutoff_bins(sample_rate);
    }
    if n <= total {
        assert(n * sample_rate <= total * sample_rate) by (nonlinear_arith)
            requires
                n <= total,
        ;
    } else {
        assert((total + 1) * sample_rate <= n * sample_rate) by (nonlinear_arith)
            requires
                total + 1 <= n,
        ;
    }
    assert forall|x: int| 0 <= x < renderer.bar_ranges@.len() implies (
    #[trigger] renderer.bar_ranges@[x]).0 < renderer.bar_ranges@[x].1
        && renderer.bar_ranges@[x].1 * sample_rate <= limit by {
        law_bars_read_a_bin(
            renderer.bar_ranges@,
            renderer.bars() as usize,
            total,
            bins@,
            x,
        );
        let end = renderer.bar_ranges@[x].1;
        assert(end * sample_rate <= total * sample_rate) by (nonlinear_arith)
            requires
                end <= total,
        ;
    }
}

/// The bars of a new display divide the bins without a gap, each as early as it can be: `others`
/// are any other starts that the bars could have.
pub proof fn law_new_display_divides_the_bins<V: Copy>(
    width: u16,
    height: u16,
    sample_rate: u32,
    bins: &[usize],
    zero: V,
    one: V,
    renderer: SpectrumRenderer<V>,
    total: usize,
    others: Seq<int>,
    x: int,
)
    requires
        call_ensures(
            SpectrumRenderer::<V>::new,
            (width, height, sample_rate, bins, zero, one),
            renderer,
        ),
        call_ensures(total_bins, (sample_rate,), total),
        renderer.bars() < bins@.len(),
        others.len() == renderer.bars(),
        forall|y: int|
            0 <= y < renderer.bars() ==> vstd::math::min(
                bins@[y] as int,
                total - (renderer.bars() - y),
            ) <= #[trigger] others[y],
        forall|y: int, z: int|
            0 <= y < z < renderer.bars() ==> #[trigger] others[y] < #[trigger] others[z],
        0 <= x < renderer.bars(),
    ensures
        ({
            let ranges = renderer.bar_ranges@;
            let bars = ranges.len();
            &&& bins@[x] <= ranges[x].0 || ranges[x].0 == total - (bars - x)
            &&& ranges[x].0 <= total - (bars - x)
            &&& ranges[x].0 <= others[x]
            &&& x > 0 ==> ranges[x - 1].1 == ranges[x].0
            &&& ranges[x].0 < ranges[x].1 <= total
            &&& x + 1 == bars && ranges[x].0 < bins@[bars as int] <= total ==> ranges[x].1
                == bins@[bars as int]
            &&& x + 1 == bars && total <= bins@[bars as int] ==> ranges[x].1 == total
        }),
{
    let ranges = renderer.bar_ranges@;
    let bars = renderer.bars() as usize;
    law_bars_read_a_bin(ranges, bars, total, bins@, x);
    law_no_bin_is_left_out(ranges, bars, total, bins@, x);
    law_bars_start_as_early_as_they_can(ranges, bars, total, bins@, others, x);
    if x > 0 {
        law_no_bin_is_left_out(ranges, bars, total, bins@, x - 1);
    }
}

} // verus!
