//! The drawing pass of a frame: every bar in turn moves its cap and is drawn.
use crate::color::{Cell, Color};
use crate::column::{row_plan, GradientAt};
use crate::config::{BAR_SPACING, BAR_WIDTH, CAP_SIZE};
use crate::frame::frame_advanced;
use crate::math::BarMath;
use crate::motion::cap_moved;
use crate::renderer::{
    are_column_cells, colors_of, is_planned, lemma_planned_cell_shows_eighths, shows_eighths,
    Palette, SpectrumRenderer,
};
use crate::screen::{
    after_bars, apply_commands, cell_index, changes_column, column_commands,
    law_commands_change_cells, law_frame_shows_every_bar, law_no_place_is_sent_twice,
    law_unchanged_column_needs_no_command, lemma_commands_read_their_column, lemma_index_in_frame,
    lemma_index_parts, lies_before, shows_column, strip_cell, strip_width, DrawCommand,
};
use vstd::prelude::*;

verus! {

/// The colours that `color` gives a bar of the given height in cells, with the palette turned by
/// `hue_phase`.
pub open spec fn colors_at<V, F: Fn(V, V, GradientAt) -> Color>(
    color: F,
    bar_height: V,
    hue_phase: V,
) -> Palette {
    |at: GradientAt, shown: Color| call_ensures(color, (bar_height, hue_phase, at), shown)
}

/// What is found out about a bar when it is drawn.
pub struct BarMarks<V> {
    /// The height in cells.
    pub bar_height: V,
    /// The upper edge, as the cap meets it.
    pub bar_top: V,
    /// Whether the bar lifts its cap.
    pub rises: bool,
    /// The upper edge, as it is drawn.
    pub drawn_top: V,
    /// The upper edge in whole eighths of a cell.
    pub bar: usize,
    /// The lower edge of the cap in whole eighths of a cell.
    pub cap: usize,
}

/// Whether drawing bar `x` takes the display from `pre` to `post` and asks for `cells` in its
/// column: the cap moves first, and where it comes to is drawn. `eighths` counts the whole
/// eighths of a height.
pub open spec fn bar_drawn_by<
    V: Copy,
    M: BarMath<V>,
    Q: Fn(V) -> usize,
    F: Fn(V, V, GradientAt) -> Color,
>(
    math: &M,
    eighths: Q,
    color: F,
    max_height: u16,
    pre: SpectrumRenderer<V>,
    post: SpectrumRenderer<V>,
    x: int,
    marks: BarMarks<V>,
    cells: Seq<Cell>,
) -> bool {
    &&& call_ensures(M::bar_height, (math, pre.spring_pos@[x], max_height), marks.bar_height)
    &&& call_ensures(M::bar_top, (math, marks.bar_height), marks.bar_top)
    &&& cap_moved(math, pre, post, x, marks.bar_top, marks.rises)
    &&& call_ensures(M::bar_top, (math, marks.bar_height), marks.drawn_top)
    &&& call_ensures(eighths, (marks.drawn_top,), marks.bar)
    &&& call_ensures(eighths, (post.cap_heights@[x],), marks.cap)
    &&& are_column_cells(
        colors_at(color, marks.bar_height, pre.hue_phase),
        post.cap_active@[x],
        marks.cap as int,
        marks.bar as int,
        pre.height as int,
        cells,
    )
}

/// Whether drawing bar `x` takes the display from `pre` to `post` and asks for `cells` in its
/// column.
pub open spec fn bar_drawn<
    V: Copy,
    M: BarMath<V>,
    Q: Fn(V) -> usize,
    F: Fn(V, V, GradientAt) -> Color,
>(
    math: &M,
    eighths: Q,
    color: F,
    max_height: u16,
    pre: SpectrumRenderer<V>,
    post: SpectrumRenderer<V>,
    x: int,
    cells: Seq<Cell>,
) -> bool {
    exists|marks: BarMarks<V>|
        #[trigger] bar_drawn_by(math, eighths, color, max_height, pre, post, x, marks, cells)
}

/// Whether drawing the bars in their order takes the display through `states`, from before the
/// first bar to behind the last, and asks for `cells[x]` in the column of bar `x`.
pub open spec fn bars_drawn<
    V: Copy,
    M: BarMath<V>,
    Q: Fn(V) -> usize,
    F: Fn(V, V, GradientAt) -> Color,
>(
    math: &M,
    eighths: Q,
    color: F,
    max_height: u16,
    states: Seq<SpectrumRenderer<V>>,
    cells: Seq<Seq<Cell>>,
) -> bool {
    &&& states.len() == cells.len() + 1
    &&& forall|x: int|
        0 <= x < cells.len() ==> bar_drawn(
            math,
            eighths,
            color,
            max_height,
            states[x],
            states[x + 1],
            x,
            #[trigger] cells[x],
        )
}

/// Whether `columns[x]` are the commands that make the screen show `cells[x]` in the column of
/// bar `x`, once the bars before it have been drawn.
pub open spec fn are_frame_commands(
    frame: Seq<Cell>,
    width: int,
    cells: Seq<Seq<Cell>>,
    columns: Seq<Seq<DrawCommand>>,
) -> bool {
    &&& columns.len() == cells.len()
    &&& forall|x: int|
        0 <= x < cells.len() ==> #[trigger] columns[x] == column_commands(
            after_bars(frame, width, cells, x as nat),
            width,
            x * strip_width(),
            cells[x],
            cells[x].len(),
        )
}

/// The commands of all bars.
pub open spec fn columns_view(columns: Seq<Vec<DrawCommand>>) -> Seq<Seq<DrawCommand>> {
    Seq::new(columns.len(), |x: int| columns[x]@)
}

/// The frame after the commands of the first `n` bars, in their order.
pub open spec fn after_columns(
    frame: Seq<Cell>,
    width: int,
    columns: Seq<Seq<DrawCommand>>,
    n: nat,
) -> Seq<Cell>
    decreases n,
{
    if n == 0 {
        frame
    } else {
        apply_commands(
            after_columns(frame, width, columns, (n - 1) as nat),
            width,
            columns[n - 1],
        )
    }
}

/// Whether showing the spectrum `data` takes the display from `pre` to `post`: the frame
/// advances, the bars are drawn by way of `states` with the given cells, and the commands reach
/// the screen.
pub open spec fn frame_shown_by<
    V: Copy,
    M: BarMath<V>,
    Q: Fn(V) -> usize,
    F: Fn(V, V, GradientAt) -> Color,
>(
    math: &M,
    eighths: Q,
    color: F,
    max_height: u16,
    data: Seq<V>,
    pre: SpectrumRenderer<V>,
    states: Seq<SpectrumRenderer<V>>,
    cells: Seq<Seq<Cell>>,
    columns: Seq<Seq<DrawCommand>>,
    post: SpectrumRenderer<V>,
) -> bool {
    &&& frame_advanced(math, data, pre, states.first())
    &&& bars_drawn(math, eighths, color, max_height, states, cells)
    &&& cells.len() == pre.bars()
    &&& are_frame_commands(pre.frame_buffer@, pre.width as int, cells, columns)
    &&& post == (SpectrumRenderer { frame_buffer: post.frame_buffer, ..states.last() })
    &&& post.frame_buffer@ == after_columns(
        pre.frame_buffer@,
        pre.width as int,
        columns,
        columns.len(),
    )
}

/// Whether showing the spectrum `data` takes the display from `pre` to `post`.
pub open spec fn frame_shown<
    V: Copy,
    M: BarMath<V>,
    Q: Fn(V) -> usize,
    F: Fn(V, V, GradientAt) -> Color,
>(
    math: &M,
    eighths: Q,
    color: F,
    max_height: u16,
    data: Seq<V>,
    pre: SpectrumRenderer<V>,
    post: SpectrumRenderer<V>,
) -> bool {
    exists|
        states: Seq<SpectrumRenderer<V>>,
        cells: Seq<Seq<Cell>>,
        columns: Seq<Seq<DrawCommand>>,
    |
        #[trigger] frame_shown_by(
            math,
            eighths,
            color,
            max_height,
            data,
            pre,
            states,
            cells,
            columns,
            post,
        )
}

/// The commands of a bar are the same before and after the bars to its left are drawn.
proof fn lemma_bars_before_do_not_matter(
    frame: Seq<Cell>,
    width: int,
    height: int,
    cells: Seq<Seq<Cell>>,
    x: int,
)
    requires
        0 <= x < cells.len(),
        cells.len() * strip_width() <= width <= u16::MAX,
        0 <= height <= u16::MAX,
        frame.len() == height * width,
        forall|y: int| 0 <= y < cells.len() ==> (#[trigger] cells[y]).len() == height,
    ensures
        column_commands(
            after_bars(frame, width, cells, x as nat),
            width,
            x * strip_width(),
            cells[x],
            height as nat,
        ) == column_commands(frame, width, x * strip_width(), cells[x], height as nat),
{
    let base = x * strip_width();
    let before = after_bars(frame, width, cells, x as nat);
    assert(0 <= base && base + strip_width() <= cells.len() * strip_width()) by (nonlinear_arith)
        requires
            base == x * strip_width(),
            0 <= x,
            x + 1 <= cells.len(),
            strip_width() >= 0,
    ;
    law_frame_shows_every_bar(frame, width, height, cells, x as nat);
    assert forall|row: int, offset: int|
        0 <= row < height && 0 <= offset < strip_width() implies before[#[trigger] cell_index(
        width,
        base + offset,
        row,
    )] == frame[cell_index(width, base + offset, row)] by {
        lemma_index_parts(width, base + offset, row);
        lemma_index_in_frame(width, base + offset, row, height);
    }
    lemma_commands_read_their_column(before, frame, width, base, cells[x], height as nat);
}

/// Sending the commands of all bars in their order makes the screen show every bar, and leaves
/// the columns beside them as they were.
pub proof fn law_sent_frame_shows_every_bar(
    frame: Seq<Cell>,
    width: int,
    height: int,
    cells: Seq<Seq<Cell>>,
    columns: Seq<Seq<DrawCommand>>,
)
    requires
        cells.len() * strip_width() <= width <= u16::MAX,
        0 < width,
        0 <= height <= u16::MAX,
        frame.len() == height * width,
        forall|x: int| 0 <= x < cells.len() ==> (#[trigger] cells[x]).len() == height,
        are_frame_commands(frame, width, cells, columns),
    ensures
        ({
            let after = after_columns(frame, width, columns, columns.len());
            &&& after.len() == frame.len()
            &&& forall|x: int|
                0 <= x < cells.len() ==> shows_column(
                    after,
                    width,
                    x * strip_width(),
                    #[trigger] cells[x],
                )
            &&& forall|i: int|
                0 <= i < frame.len() && i % width >= cells.len() * strip_width()
                    ==> #[trigger] after[i] == frame[i]
        }),
{
    lemma_columns_follow_the_bars(frame, width, cells, columns, cells.len());
    law_frame_shows_every_bar(frame, width, height, cells, cells.len());
}

/// A screen that already shows every bar is sent nothing, and stays as it is.
pub proof fn law_unchanged_frame_needs_no_command(
    frame: Seq<Cell>,
    width: int,
    cells: Seq<Seq<Cell>>,
    columns: Seq<Seq<DrawCommand>>,
)
    requires
        are_frame_commands(frame, width, cells, columns),
        forall|x: int|
            0 <= x < cells.len() ==> shows_column(
                frame,
                width,
                x * strip_width(),
                #[trigger] cells[x],
            ),
    ensures
        forall|x: int|
            0 <= x < columns.len() ==> #[trigger] columns[x] == Seq::<DrawCommand>::empty(),
        after_columns(frame, width, columns, columns.len()) == frame,
{
    assert forall|x: int| 0 <= x < columns.len() implies #[trigger] columns[x] == Seq::<
        DrawCommand,
    >::empty() by {
        lemma_shown_bars_stay(frame, width, cells, x as nat);
        law_unchanged_column_needs_no_command(
            frame,
            width,
            x * strip_width(),
            cells[x],
            cells[x].len(),
        );
    }
    lemma_shown_bars_stay(frame, width, cells, cells.len());
    lemma_columns_follow_the_bars(frame, width, cells, columns, cells.len());
}

/// Drawing bars that are already shown changes nothing.
proof fn lemma_shown_bars_stay(frame: Seq<Cell>, width: int, cells: Seq<Seq<Cell>>, n: nat)
    requires
        n <= cells.len(),
        forall|x: int|
            0 <= x < cells.len() ==> shows_column(
                frame,
                width,
                x * strip_width(),
                #[trigger] cells[x],
            ),
    ensures
        after_bars(frame, width, cells, n) == frame,
    decreases n,
{
    if n > 0 {
        lemma_shown_bars_stay(frame, width, cells, (n - 1) as nat);
        law_unchanged_column_needs_no_command(
            frame,
            width,
            (n - 1) * strip_width(),
            cells[n - 1],
            cells[n - 1].len(),
        );
    }
}

/// The commands of the bars take the frame the way of the bars.
proof fn lemma_columns_follow_the_bars(
    frame: Seq<Cell>,
    width: int,
    cells: Seq<Seq<Cell>>,
    columns: Seq<Seq<DrawCommand>>,
    n: nat,
)
    requires
        n <= cells.len(),
        are_frame_commands(frame, width, cells, columns),
    ensures
        after_columns(frame, width, columns, n) == after_bars(frame, width, cells, n),
    decreases n,
{
    if n > 0 {
        lemma_columns_follow_the_bars(frame, width, cells, columns, (n - 1) as nat);
        assert(columns[n - 1] == column_commands(
            after_bars(frame, width, cells, (n - 1) as nat),
            width,
            (n - 1) * strip_width(),
            cells[n - 1],
            cells[n - 1].len(),
        ));
    }
}

impl<V: Copy> SpectrumRenderer<V> {
    /// The drawing pass of a frame: every bar in turn moves its cap for this frame, and
    /// `columns[x]` are the commands that show bar `x`, once those of the bars before it have
    /// reached the screen. `eighths` counts the whole eighths of a height, and `color` gives the
    /// colours of a bar from its height in cells and the phase of the palette.
    pub fn draw_frame<M: BarMath<V>, Q: Fn(V) -> usize, F: Fn(V, V, GradientAt) -> Color>(
        &mut self,
        max_height: u16,
        math: &M,
        eighths: Q,
        color: F,
    ) -> (columns: Vec<Vec<DrawCommand>>)
        requires
            old(self).wf(),
            forall|v: V| #[trigger] call_requires(eighths, (v,)),
            forall|v: V, n: usize| #[trigger]
                call_ensures(eighths, (v,), n) ==> n + CAP_SIZE <= usize::MAX,
            forall|h: V, p: V, at: GradientAt| #[trigger] call_requires(color, (h, p, at)),
        ensures
            final(self).wf(),
            *final(self) == (SpectrumRenderer {
                cap_heights: final(self).cap_heights,
                cap_active: final(self).cap_active,
                ..*old(self)
            }),
            exists|states: Seq<SpectrumRenderer<V>>, cells: Seq<Seq<Cell>>|
                #[trigger] bars_drawn(math, eighths, color, max_height, states, cells)
                    && cells.len() == old(self).bars() && states.first() == *old(self)
                    && states.last() == *final(self) && are_frame_commands(
                    old(self).frame_buffer@,
                    old(self).width as int,
                    cells,
                    columns_view(columns@),
                ),
            forall|x: int, k: int|
                0 <= x < columns@.len() && 0 <= k < columns@[x]@.len() ==> cell_index(
                    old(self).width as int,
                    (#[trigger] columns@[x]@[k]).col as int,
                    columns@[x]@[k].row as int,
                ) < old(self).frame_buffer@.len(),
    {
        let bars: usize = self.bar_ranges.len();
        let ghost frame = self.frame_buffer@;
        let ghost width = self.width as int;
        let ghost height = self.height as int;
        let ghost mut states: Seq<SpectrumRenderer<V>> = seq![*self];
        let ghost mut cells: Seq<Seq<Cell>> = seq![];
        let mut columns: Vec<Vec<DrawCommand>> = Vec::with_capacity(bars);
        for x in 0..bars
            invariant
                old(self).wf(),
                self.wf(),
                bars == old(self).bars(),
                *self == (SpectrumRenderer {
                    cap_heights: self.cap_heights,
                    cap_active: self.cap_active,
                    ..*old(self)
                }),
                frame == self.frame_buffer@,
                width == self.width,
                height == self.height,
                forall|v: V| #[trigger] call_requires(eighths, (v,)),
                forall|v: V, n: usize| #[trigger]
                    call_ensures(eighths, (v,), n) ==> n + CAP_SIZE <= usize::MAX,
                forall|h: V, p: V, at: GradientAt| #[trigger] call_requires(color, (h, p, at)),
                cells.len() == x,
                bars_drawn(math, eighths, color, max_height, states, cells),
                states.first() == *old(self),
                states.last() == *self,
                forall|y: int| 0 <= y < x ==> (#[trigger] cells[y]).len() == height,
                columns@.len() == x,
                forall|y: int|
                    0 <= y < x ==> (#[trigger] columns@[y])@ == column_commands(
                        frame,
                        width,
                        y * strip_width(),
                        cells[y],
                        height as nat,
                    ),
                forall|y: int, k: int|
                    0 <= y < x && 0 <= k < columns@[y]@.len() ==> cell_index(
                        width,
                        (#[trigger] columns@[y]@[k]).col as int,
                        columns@[y]@[k].row as int,
                    ) < frame.len(),
        {
            let ghost pre = *self;
            let (bar_height, cap_height) = self.update_heights(x, max_height, math);
            let ghost (bar_top, rises) = choose|bar_top: V, rises: bool|
                call_ensures(M::bar_top, (math, bar_height), bar_top) && #[trigger] cap_moved(
                    math,
                    pre,
                    *self,
                    x as int,
                    bar_top,
                    rises,
                );
            let drawn_top = math.bar_top(bar_height);
            let bar: usize = eighths(drawn_top);
            let cap: usize = eighths(cap_height);
            let hue_phase = self.hue_phase;
            let paint = &color;
            let gradient = |at: GradientAt| -> (shown: Color)
                ensures
                    call_ensures(*paint, (bar_height, hue_phase, at), shown),
                { paint(bar_height, hue_phase, at) };
            let column = self.draw_bar(x, bar, cap, gradient);
            proof {
                let shown = choose|shown: Seq<Cell>|
                    #[trigger] are_column_cells(
                        colors_of(gradient),
                        self.cap_active@[x as int],
                        cap as int,
                        bar as int,
                        height,
                        shown,
                    ) && column@ == column_commands(
                        frame,
                        width,
                        x * strip_width(),
                        shown,
                        height as nat,
                    );
                let marks = BarMarks { bar_height, bar_top, rises, drawn_top, bar, cap };
                assert(are_column_cells(
                    colors_at(color, bar_height, hue_phase),
                    self.cap_active@[x as int],
                    cap as int,
                    bar as int,
                    height,
                    shown,
                ));
                assert(bar_drawn_by(
                    math,
                    eighths,
                    color,
                    max_height,
                    pre,
                    *self,
                    x as int,
                    marks,
                    shown,
                ));
                let before = cells;
                let passed = states;
                cells = before.push(shown);
                states = passed.push(*self);
                assert forall|y: int| 0 <= y < cells.len() implies bar_drawn(
                    math,
                    eighths,
                    color,
                    max_height,
                    states[y],
                    states[y + 1],
                    y,
                    #[trigger] cells[y],
                ) by {
                    if y < x {
                        assert(cells[y] == before[y]);
                    }
                }
            }
            columns.push(column);
        }
        proof {
            vstd::arithmetic::mul::lemma_mul_is_commutative(width, height);
            assert forall|x: int| 0 <= x < cells.len() implies #[trigger] columns_view(columns@)[x]
                == column_commands(
                after_bars(frame, width, cells, x as nat),
                width,
                x * strip_width(),
                cells[x],
                cells[x].len(),
            ) by {
                lemma_bars_before_do_not_matter(frame, width, height, cells, x);
            }
            assert(bars_drawn(math, eighths, color, max_height, states, cells));
        }
        columns
    }
}

/// Whether bar `x` moves its cap between two displays and stands on a screen, `frame`, as its
/// spring has it: its height comes from the position of the spring, its cap goes up with a bar
/// that is higher and else falls, and every eighth of both is shown.
pub open spec fn stands_on_screen<
    V: Copy,
    M: BarMath<V>,
    Q: Fn(V) -> usize,
    F: Fn(V, V, GradientAt) -> Color,
>(
    math: &M,
    eighths: Q,
    color: F,
    max_height: u16,
    pre: SpectrumRenderer<V>,
    post: SpectrumRenderer<V>,
    frame: Seq<Cell>,
    x: int,
    marks: BarMarks<V>,
) -> bool {
    let cap = pre.cap_heights@[x];
    let moved = post.cap_heights@[x];
    &&& call_ensures(M::bar_height, (math, pre.spring_pos@[x], max_height), marks.bar_height)
    &&& call_ensures(M::bar_top, (math, marks.bar_height), marks.bar_top)
    &&& call_ensures(M::exceeds, (math, marks.bar_top, cap), marks.rises)
    &&& marks.rises ==> moved == marks.bar_top && post.cap_active@[x]
    &&& !marks.rises ==> call_ensures(M::cap_fall, (math, cap, marks.bar_top), moved)
        && post.cap_active@[x] == pre.cap_active@[x]
    &&& call_ensures(M::bar_top, (math, marks.bar_height), marks.drawn_top)
    &&& call_ensures(eighths, (marks.drawn_top,), marks.bar)
    &&& call_ensures(eighths, (moved,), marks.cap)
    &&& forall|row: int, offset: int|
        0 <= row < pre.height && 0 <= offset < BAR_WIDTH ==> shows_eighths(
            colors_at(color, marks.bar_height, pre.hue_phase),
            post.cap_active@[x],
            marks.cap,
            marks.bar,
            pre.height - 1 - row,
            #[trigger] frame[row * pre.width + (x * (BAR_WIDTH + BAR_SPACING) + offset)],
        )
}

/// What the bars drawn so far did to the caps: each has moved its own and no other.
proof fn lemma_each_bar_moves_its_own_cap<
    V: Copy,
    M: BarMath<V>,
    Q: Fn(V) -> usize,
    F: Fn(V, V, GradientAt) -> Color,
>(
    math: &M,
    eighths: Q,
    color: F,
    max_height: u16,
    states: Seq<SpectrumRenderer<V>>,
    cells: Seq<Seq<Cell>>,
    n: int,
)
    requires
        states.first().wf(),
        bars_drawn(math, eighths, color, max_height, states, cells),
        cells.len() == states.first().bars(),
        0 <= n <= cells.len(),
    ensures
        states[n].wf(),
        states[n] == (SpectrumRenderer {
            cap_heights: states[n].cap_heights,
            cap_active: states[n].cap_active,
            ..states.first()
        }),
        forall|y: int|
            n <= y < cells.len() ==> #[trigger] states[n].cap_heights@[y]
                == states.first().cap_heights@[y] && states[n].cap_active@[y]
                == states.first().cap_active@[y],
        forall|y: int|
            0 <= y < n ==> #[trigger] states[n].cap_heights@[y] == states[y + 1].cap_heights@[y]
                && states[n].cap_active@[y] == states[y + 1].cap_active@[y],
    decreases n,
{
    if n > 0 {
        lemma_each_bar_moves_its_own_cap(
            math,
            eighths,
            color,
            max_height,
            states,
            cells,
            n - 1,
        );
        let pre = states[n - 1];
        let post = states[n - 1 + 1];
        assert(bar_drawn(
            math,
            eighths,
            color,
            max_height,
            pre,
            post,
            n - 1,
            cells[n - 1],
        ));
        let marks = choose|marks: BarMarks<V>|
            #[trigger] bar_drawn_by(
                math,
                eighths,
                color,
                max_height,
                pre,
                post,
                n - 1,
                marks,
                cells[n - 1],
            );
        assert(cap_moved(math, pre, post, n - 1, marks.bar_top, marks.rises));
        assert forall|y: int| n <= y < cells.len() implies #[trigger] post.cap_heights@[y]
            == states.first().cap_heights@[y] && post.cap_active@[y]
            == states.first().cap_active@[y] by {
            assert(pre.cap_heights@[y] == states.first().cap_heights@[y]);
        }
        assert forall|y: int| 0 <= y < n implies #[trigger] post.cap_heights@[y] == states[y
            + 1].cap_heights@[y] && post.cap_active@[y] == states[y + 1].cap_active@[y] by {
            if y < n - 1 {
                assert(pre.cap_heights@[y] == states[y + 1].cap_heights@[y]);
            }
        }
    }
}

/// Every bar asks for one cell in each row.
proof fn lemma_drawn_cells_fill_the_rows<
    V: Copy,
    M: BarMath<V>,
    Q: Fn(V) -> usize,
    F: Fn(V, V, GradientAt) -> Color,
>(
    math: &M,
    eighths: Q,
    color: F,
    max_height: u16,
    states: Seq<SpectrumRenderer<V>>,
    cells: Seq<Seq<Cell>>,
)
    requires
        states.first().wf(),
        bars_drawn(math, eighths, color, max_height, states, cells),
        cells.len() == states.first().bars(),
    ensures
        forall|x: int| 0 <= x < cells.len() ==> (#[trigger] cells[x]).len() == states.first().height,
{
    assert forall|x: int| 0 <= x < cells.len() implies (#[trigger] cells[x]).len()
        == states.first().height by {
        lemma_each_bar_moves_its_own_cap(math, eighths, color, max_height, states, cells, x);
        assert(bar_drawn(
            math,
            eighths,
            color,
            max_height,
            states[x],
            states[x + 1],
            x,
            cells[x],
        ));
    }
}

/// Once the commands of a frame have reached the screen in their order, every bar stands on it as
/// its spring has it, with its cap moved once.
pub proof fn law_drawn_bars_stand_on_the_screen<
    V: Copy,
    M: BarMath<V>,
    Q: Fn(V) -> usize,
    F: Fn(V, V, GradientAt) -> Color,
>(
    renderer: &mut SpectrumRenderer<V>,
    max_height: u16,
    math: &M,
    eighths: Q,
    color: F,
    columns: Vec<Vec<DrawCommand>>,
    sent: Seq<Seq<DrawCommand>>,
    x: int,
)
    requires
        old(renderer).wf(),
        old(renderer).width > 0,
        call_ensures(
            SpectrumRenderer::<V>::draw_frame::<M, Q, F>,
            (renderer, max_height, math, eighths, color),
            columns,
        ),
        sent.len() == columns@.len(),
        forall|y: int| 0 <= y < sent.len() ==> #[trigger] sent[y] == columns@[y]@,
        0 <= x < old(renderer).bar_ranges@.len(),
    ensures
        exists|marks: BarMarks<V>|
            #[trigger] stands_on_screen(
                math,
                eighths,
                color,
                max_height,
                *old(renderer),
                *final(renderer),
                after_columns(
                    old(renderer).frame_buffer@,
                    old(renderer).width as int,
                    sent,
                    sent.len(),
                ),
                x,
                marks,
            ),
{
    let pre = *old(renderer);
    let post = *final(renderer);
    let width = pre.width as int;
    let height = pre.height as int;
    let frame = pre.frame_buffer@;
    let bars = pre.bars();
    let (states, cells) = choose|states: Seq<SpectrumRenderer<V>>, cells: Seq<Seq<Cell>>|
        #[trigger] bars_drawn(math, eighths, color, max_height, states, cells) && cells.len()
            == bars && states.first() == pre && states.last() == post && are_frame_commands(
            frame,
            width,
            cells,
            columns_view(columns@),
        );
    assert(sent =~= columns_view(columns@));
    vstd::arithmetic::mul::lemma_mul_is_commutative(width, height);
    lemma_drawn_cells_fill_the_rows(math, eighths, color, max_height, states, cells);
    law_sent_frame_shows_every_bar(frame, width, height, cells, sent);
    let after = after_columns(frame, width, sent, sent.len());
    lemma_each_bar_moves_its_own_cap(math, eighths, color, max_height, states, cells, x);
    lemma_each_bar_moves_its_own_cap(math, eighths, color, max_height, states, cells, bars);
    let before = states[x];
    let behind = states[x + 1];
    assert(bar_drawn(math, eighths, color, max_height, before, behind, x, cells[x]));
    let marks = choose|marks: BarMarks<V>|
        #[trigger] bar_drawn_by(
            math,
            eighths,
            color,
            max_height,
            before,
            behind,
            x,
            marks,
            cells[x],
        );
    assert(before.cap_heights@[x] == pre.cap_heights@[x]);
    assert(post.cap_heights@[x] == behind.cap_heights@[x]);
    let palette = colors_at(color, marks.bar_height, pre.hue_phase);
    let base = x * strip_width();
    assert(shows_column(after, width, base, cells[x]));
    assert forall|row: int, offset: int|
        0 <= row < height && 0 <= offset < BAR_WIDTH implies shows_eighths(
        palette,
        post.cap_active@[x],
        marks.cap,
        marks.bar,
        height - 1 - row,
        #[trigger] after[row * pre.width + (x * (BAR_WIDTH + BAR_SPACING) + offset)],
    ) by {
        assert(after[cell_index(width, base + offset, row)] == strip_cell(cells[x][row], offset));
        assert(is_planned(
            palette,
            row_plan(post.cap_active@[x], marks.cap as int, marks.bar as int, height - 1 - row),
            cells[x][row],
        ));
        lemma_planned_cell_shows_eighths(
            palette,
            post.cap_active@[x],
            marks.cap,
            marks.bar,
            (height - 1 - row) as u16,
            cells[x][row],
        );
    }
    assert(stands_on_screen(
        math,
        eighths,
        color,
        max_height,
        pre,
        post,
        after,
        x,
        marks,
    ));
}

/// A bar fills its rows: where its height for this frame comes to `bar` whole eighths, a row that
/// its cap takes no part of shows two coloured halves if it lies below the upper edge, the lower
/// block of the eighths that are left if the edge lies in it, and a blank if it lies above. The
/// cap goes up with a bar that is higher and else falls.
pub proof fn law_bar_fills_its_rows<
    V: Copy,
    M: BarMath<V>,
    Q: Fn(V) -> usize,
    F: Fn(V, V, GradientAt) -> Color,
>(
    renderer: &mut SpectrumRenderer<V>,
    max_height: u16,
    math: &M,
    eighths: Q,
    color: F,
    columns: Vec<Vec<DrawCommand>>,
    sent: Seq<Seq<DrawCommand>>,
    x: int,
    row: int,
    bar_height: V,
    bar_top: V,
    rises: bool,
    bar: usize,
)
    requires
        old(renderer).wf(),
        old(renderer).width > 0,
        call_ensures(
            SpectrumRenderer::<V>::draw_frame::<M, Q, F>,
            (renderer, max_height, math, eighths, color),
            columns,
        ),
        sent.len() == columns@.len(),
        forall|y: int| 0 <= y < sent.len() ==> #[trigger] sent[y] == columns@[y]@,
        0 <= x < old(renderer).bar_ranges@.len(),
        0 <= row < old(renderer).height,
        forall|h: V| #[trigger]
            call_ensures(M::bar_height, (math, old(renderer).spring_pos@[x], max_height), h) ==> h
                == bar_height,
        forall|t: V| #[trigger] call_ensures(M::bar_top, (math, bar_height), t) ==> t == bar_top,
        forall|r: bool| #[trigger]
            call_ensures(M::exceeds, (math, bar_top, old(renderer).cap_heights@[x]), r) ==> r
                == rises,
        forall|n: usize| #[trigger] call_ensures(eighths, (bar_top,), n) ==> n == bar,
    ensures
        ({
            let after = after_columns(
                old(renderer).frame_buffer@,
                old(renderer).width as int,
                sent,
                sent.len(),
            );
            let cell = after[row * old(renderer).width + x * (BAR_WIDTH + BAR_SPACING)];
            let bottom = 8 * (old(renderer).height - 1 - row);
            let hue_phase = old(renderer).hue_phase;
            let free = !final(renderer).cap_active@[x] || forall|cap: usize| #[trigger]
                call_ensures(eighths, (final(renderer).cap_heights@[x],), cap) ==> bottom + 8 <= cap
                    || cap + CAP_SIZE <= bottom;
            &&& rises ==> final(renderer).cap_active@[x] && final(renderer).cap_heights@[x]
                == bar_top
            &&& !rises ==> final(renderer).cap_active@[x] == old(renderer).cap_active@[x]
                && call_ensures(
                M::cap_fall,
                (math, old(renderer).cap_heights@[x], bar_top),
                final(renderer).cap_heights@[x],
            )
            &&& free && bottom + 8 <= bar ==> cell.ch == '\u{2580}' && call_ensures(
                color,
                (bar_height, hue_phase, GradientAt::Eighths((bottom + 6) as usize)),
                cell.fg,
            ) && call_ensures(
                color,
                (bar_height, hue_phase, GradientAt::Eighths((bottom + 2) as usize)),
                cell.bg,
            )
            &&& free && bottom < bar < bottom + 8 ==> cell.ch as int == 0x2580 + (bar - bottom)
                && call_ensures(
                color,
                (bar_height, hue_phase, GradientAt::Eighths(bar)),
                cell.fg,
            ) && cell.bg is Reset
            &&& free && bar <= bottom ==> cell.ch == ' ' && cell.fg is Reset && cell.bg is Reset
        }),
{
    let pre = *old(renderer);
    let post = *final(renderer);
    let width = pre.width as int;
    let height = pre.height as int;
    let frame = pre.frame_buffer@;
    let bars = pre.bars();
    let (states, cells) = choose|states: Seq<SpectrumRenderer<V>>, cells: Seq<Seq<Cell>>|
        #[trigger] bars_drawn(math, eighths, color, max_height, states, cells) && cells.len()
            == bars && states.first() == pre && states.last() == post && are_frame_commands(
            frame,
            width,
            cells,
            columns_view(columns@),
        );
    assert(sent =~= columns_view(columns@));
    vstd::arithmetic::mul::lemma_mul_is_commutative(width, height);
    lemma_drawn_cells_fill_the_rows(math, eighths, color, max_height, states, cells);
    law_sent_frame_shows_every_bar(frame, width, height, cells, sent);
    let after = after_columns(frame, width, sent, sent.len());
    lemma_each_bar_moves_its_own_cap(math, eighths, color, max_height, states, cells, x);
    lemma_each_bar_moves_its_own_cap(math, eighths, color, max_height, states, cells, bars);
    let before = states[x];
    let behind = states[x + 1];
    assert(bar_drawn(math, eighths, color, max_height, before, behind, x, cells[x]));
    let marks = choose|marks: BarMarks<V>|
        #[trigger] bar_drawn_by(
            math,
            eighths,
            color,
            max_height,
            before,
            behind,
            x,
            marks,
            cells[x],
        );
    assert(before.cap_heights@[x] == pre.cap_heights@[x]);
    assert(post.cap_heights@[x] == behind.cap_heights@[x]);
    let base = x * strip_width();
    assert(shows_column(after, width, base, cells[x]));
    assert(after[cell_index(width, base + 0, row)] == strip_cell(cells[x][row], 0));
    let plan = row_plan(
        post.cap_active@[x],
        marks.cap as int,
        marks.bar as int,
        height - 1 - row,
    );
    assert(is_planned(
        colors_at(color, marks.bar_height, pre.hue_phase),
        plan,
        cells[x][row],
    ));
    assert(marks.rises == rises);
    assert(marks.bar == bar);
}

/// Drawing a frame gives one column of commands for each bar, leaves the columns of the screen
/// beside the bars as they were, and changes nothing of the display but its caps.
pub proof fn law_drawn_frame_leaves_the_rest<
    V: Copy,
    M: BarMath<V>,
    Q: Fn(V) -> usize,
    F: Fn(V, V, GradientAt) -> Color,
>(
    renderer: &mut SpectrumRenderer<V>,
    max_height: u16,
    math: &M,
    eighths: Q,
    color: F,
    columns: Vec<Vec<DrawCommand>>,
    sent: Seq<Seq<DrawCommand>>,
)
    requires
        old(renderer).wf(),
        old(renderer).width > 0,
        call_ensures(
            SpectrumRenderer::<V>::draw_frame::<M, Q, F>,
            (renderer, max_height, math, eighths, color),
            columns,
        ),
        sent.len() == columns@.len(),
        forall|y: int| 0 <= y < sent.len() ==> #[trigger] sent[y] == columns@[y]@,
    ensures
        ({
            let pre = *old(renderer);
            let post = *final(renderer);
            let width = pre.width as int;
            let frame = pre.frame_buffer@;
            let bars = pre.bar_ranges@.len() as int;
                    let after = after_columns(frame, width, sent, sent.len());
            &&& columns@.len() == bars
            &&& after.len() == frame.len()
            &&& forall|i: int|
                0 <= i < frame.len() && i % width >= bars * (BAR_WIDTH + BAR_SPACING)
                    ==> #[trigger] after[i] == frame[i]
            &&& post == (SpectrumRenderer {
                cap_heights: post.cap_heights,
                cap_active: post.cap_active,
                ..pre
            })
        }),
{
    let pre = *old(renderer);
    let post = *final(renderer);
    let width = pre.width as int;
    let height = pre.height as int;
    let frame = pre.frame_buffer@;
    let bars = pre.bars();
    let (states, cells) = choose|states: Seq<SpectrumRenderer<V>>, cells: Seq<Seq<Cell>>|
        #[trigger] bars_drawn(math, eighths, color, max_height, states, cells) && cells.len()
            == bars && states.first() == pre && states.last() == post && are_frame_commands(
            frame,
            width,
            cells,
            columns_view(columns@),
        );
    assert(sent =~= columns_view(columns@));
    vstd::arithmetic::mul::lemma_mul_is_commutative(width, height);
    lemma_drawn_cells_fill_the_rows(math, eighths, color, max_height, states, cells);
    law_sent_frame_shows_every_bar(frame, width, height, cells, sent);
}

/// Drawing a frame sends a place only where it changes, in the columns of its bar, and none
/// twice.
pub proof fn law_frame_sends_changed_places_once<
    V: Copy,
    M: BarMath<V>,
    Q: Fn(V) -> usize,
    F: Fn(V, V, GradientAt) -> Color,
>(
    renderer: &mut SpectrumRenderer<V>,
    max_height: u16,
    math: &M,
    eighths: Q,
    color: F,
    columns: Vec<Vec<DrawCommand>>,
    x: int,
)
    requires
        old(renderer).wf(),
        call_ensures(
            SpectrumRenderer::<V>::draw_frame::<M, Q, F>,
            (renderer, max_height, math, eighths, color),
            columns,
        ),
        0 <= x < old(renderer).bar_ranges@.len(),
    ensures
        ({
            let width = old(renderer).width as int;
            let frame = old(renderer).frame_buffer@;
            let base = x * (BAR_WIDTH + BAR_SPACING);
            let commands = columns@[x]@;
            &&& forall|k: int|
                0 <= k < commands.len() ==> base <= (#[trigger] commands[k]).col < base + BAR_WIDTH
                    + BAR_SPACING && commands[k].row < old(renderer).height
                    && frame[commands[k].row * width + commands[k].col] != commands[k].cell
            &&& forall|j: int, k: int|
                0 <= j < k < commands.len() ==> (#[trigger] commands[j]).row < (
                #[trigger] commands[k]).row || commands[j].row == commands[k].row
                    && commands[j].col < commands[k].col
        }),
{
    let pre = *old(renderer);
    let post = *final(renderer);
    let width = pre.width as int;
    let height = pre.height as int;
    let frame = pre.frame_buffer@;
    let bars = pre.bars();
    let (states, cells) = choose|states: Seq<SpectrumRenderer<V>>, cells: Seq<Seq<Cell>>|
        #[trigger] bars_drawn(math, eighths, color, max_height, states, cells) && cells.len()
            == bars && states.first() == pre && states.last() == post && are_frame_commands(
            frame,
            width,
            cells,
            columns_view(columns@),
        );
    vstd::arithmetic::mul::lemma_mul_is_commutative(width, height);
    lemma_drawn_cells_fill_the_rows(math, eighths, color, max_height, states, cells);
    lemma_bars_before_do_not_matter(frame, width, height, cells, x);
    let base = x * strip_width();
    let commands = columns@[x]@;
    assert(columns_view(columns@)[x] == commands);
    assert(commands == column_commands(frame, width, base, cells[x], height as nat));
    assert(0 <= base && base + strip_width() <= bars * strip_width()) by (nonlinear_arith)
        requires
            base == x * strip_width(),
            0 <= x,
            x + 1 <= bars,
            strip_width() >= 0,
    ;
    law_commands_change_cells(frame, width, base, cells[x], height as nat);
    law_no_place_is_sent_twice(frame, width, base, cells[x], height as nat);
    assert forall|k: int| 0 <= k < commands.len() implies base <= (#[trigger] commands[k]).col < base
        + strip_width() && commands[k].row < height && frame[commands[k].row * width
        + commands[k].col] != commands[k].cell by {
        assert(changes_column(frame, width, base, height, commands[k]));
    }
    assert forall|j: int, k: int| 0 <= j < k < commands.len() implies (#[trigger] commands[j]).row
        < (#[trigger] commands[k]).row || commands[j].row == commands[k].row && commands[j].col
        < commands[k].col by {
        assert(lies_before(commands[j], commands[k]));
    }
}

} // verus!
