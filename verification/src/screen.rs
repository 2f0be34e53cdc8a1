//! Drawing by difference: only the cells that change are sent to the terminal.
//!
//! A frame is the sequence of its cells, row by row from the top.
use crate::color::{blank_cell, Cell};
use crate::config::{BAR_SPACING, BAR_WIDTH};
use vstd::prelude::*;

verus! {

/// The request to show a cell at a place of the terminal.
#[derive(Clone, Copy, Debug, PartialEq, Eq, Structural)]
pub struct DrawCommand {
    pub col: u16,
    pub row: u16,
    pub cell: Cell,
}

/// Columns that one bar takes, with the blank ones behind it.
pub open spec fn strip_width() -> int {
    BAR_WIDTH + BAR_SPACING
}

/// The place of a cell in a frame.
pub open spec fn cell_index(width: int, col: int, row: int) -> int {
    row * width + col
}

/// The commands that make a frame show `cell` at a place: none where it shows it already.
pub open spec fn cell_commands(frame: Seq<Cell>, width: int, col: int, row: int, cell: Cell) -> Seq<
    DrawCommand,
> {
    if frame[cell_index(width, col, row)] == cell {
        seq![]
    } else {
        seq![DrawCommand { col: col as u16, row: row as u16, cell }]
    }
}

/// What a bar with the given cell in a row shows in its column number `offset`: the cell, or a
/// blank behind the bar.
pub open spec fn strip_cell(cell: Cell, offset: int) -> Cell {
    if offset < BAR_WIDTH {
        cell
    } else {
        blank_cell()
    }
}

/// The commands for the first `n` columns of a bar in one row.
pub open spec fn strip_commands(
    frame: Seq<Cell>,
    width: int,
    base: int,
    row: int,
    cell: Cell,
    n: nat,
) -> Seq<DrawCommand>
    decreases n,
{
    if n == 0 {
        seq![]
    } else {
        strip_commands(frame, width, base, row, cell, (n - 1) as nat) + cell_commands(
            frame,
            width,
            base + n - 1,
            row,
            strip_cell(cell, n - 1),
        )
    }
}

/// The commands for the highest `rows` rows of a bar that starts in column `base` and is to
/// show `cells`, from the top row downwards.
pub open spec fn column_commands(
    frame: Seq<Cell>,
    width: int,
    base: int,
    cells: Seq<Cell>,
    rows: nat,
) -> Seq<DrawCommand>
    decreases rows,
{
    if rows == 0 {
        seq![]
    } else {
        column_commands(frame, width, base, cells, (rows - 1) as nat) + strip_commands(
            frame,
            width,
            base,
            rows - 1,
            cells[rows - 1],
            strip_width() as nat,
        )
    }
}

/// The frame after a command.
pub open spec fn apply_command(frame: Seq<Cell>, width: int, command: DrawCommand) -> Seq<Cell> {
    frame.update(cell_index(width, command.col as int, command.row as int), command.cell)
}

/// The frame after some commands, in their order.
pub open spec fn apply_commands(frame: Seq<Cell>, width: int, commands: Seq<DrawCommand>) -> Seq<
    Cell,
>
    decreases commands.len(),
{
    if commands.len() == 0 {
        frame
    } else {
        apply_command(
            apply_commands(frame, width, commands.drop_last()),
            width,
            commands.last(),
        )
    }
}

/// Whether the place number `i` of a frame belongs to the bar that starts in column `base`.
pub open spec fn in_column(width: int, base: int, i: int) -> bool {
    base <= i % width < base + strip_width()
}

/// Whether a place of a bar lies in its highest `rows` rows, or in the first `n` columns of the
/// row below these.
pub open spec fn before_place(width: int, base: int, rows: int, n: int, i: int) -> bool {
    i / width < rows || i / width == rows && i % width < base + n
}

/// The frame in which the bar that starts in column `base` shows `cells` in its highest `rows`
/// rows and in the first `n` columns of the row below these, and nothing else has changed.
pub open spec fn painted(
    frame: Seq<Cell>,
    width: int,
    base: int,
    cells: Seq<Cell>,
    rows: int,
    n: int,
) -> Seq<Cell> {
    Seq::new(
        frame.len(),
        |i: int|
            if in_column(width, base, i) && before_place(width, base, rows, n, i) {
                strip_cell(cells[i / width], i % width - base)
            } else {
                frame[i]
            },
    )
}

/// Whether a frame shows `cells` in the bar that starts in column `base`.
pub open spec fn shows_column(frame: Seq<Cell>, width: int, base: int, cells: Seq<Cell>) -> bool {
    forall|row: int, offset: int|
        0 <= row < cells.len() && 0 <= offset < strip_width() ==> frame[#[trigger] cell_index(
            width,
            base + offset,
            row,
        )] == strip_cell(cells[row], offset)
}

/// A place is found again from its index.
pub(crate) proof fn lemma_index_parts(width: int, col: int, row: int)
    requires
        0 <= col < width,
        0 <= row,
    ensures
        cell_index(width, col, row) / width == row,
        cell_index(width, col, row) % width == col,
        0 <= cell_index(width, col, row),
{
    vstd::arithmetic::div_mod::lemma_fundamental_div_mod_converse(
        cell_index(width, col, row),
        width,
        row,
        col,
    );
    assert(0 <= row * width) by (nonlinear_arith)
        requires
            0 <= row,
            0 < width,
    ;
}

/// An index is made up of its parts.
proof fn lemma_index_of_parts(width: int, i: int)
    requires
        0 < width,
        0 <= i,
    ensures
        i == cell_index(width, i % width, i / width),
        0 <= i % width < width,
        0 <= i / width,
{
    vstd::arithmetic::div_mod::lemma_fundamental_div_mod(i, width);
    vstd::arithmetic::mul::lemma_mul_is_commutative(width, i / width);
    vstd::arithmetic::div_mod::lemma_div_pos_is_pos(i, width);
}

/// A row that is among the first `rows` rows lies within a frame of these rows.
pub(crate) proof fn lemma_index_in_frame(width: int, col: int, row: int, rows: int)
    requires
        0 <= col < width,
        0 <= row < rows,
    ensures
        0 <= cell_index(width, col, row) < rows * width,
{
    assert(row * width + col < rows * width && 0 <= row * width) by (nonlinear_arith)
        requires
            0 <= col < width,
            0 <= row < rows,
    ;
}

/// A place on the screen lies within the frame of the screen.
pub(crate) proof fn lemma_index_on_screen(width: u16, height: u16, col: int, row: int)
    requires
        0 <= col < width,
        0 <= row < height,
    ensures
        0 <= cell_index(width as int, col, row) < width * height,
{
    lemma_index_in_frame(width as int, col, row, height as int);
    vstd::arithmetic::mul::lemma_mul_is_commutative(width as int, height as int);
}

/// The index of the first place of a row can be computed.
pub(crate) proof fn lemma_index_computable(width: u16, row: u16)
    ensures
        0 <= row * width <= 0xffff * 0xffff,
{
    assert(0 <= row * width <= 0xffff * 0xffff) by (nonlinear_arith)
        requires
            0 <= width <= 0xffff,
            0 <= row <= 0xffff,
    ;
}

/// A cell that has reached the screen needs no further command.
pub proof fn law_shown_cell_needs_no_command(
    frame: Seq<Cell>,
    width: int,
    command: DrawCommand,
)
    requires
        0 <= cell_index(width, command.col as int, command.row as int) < frame.len(),
    ensures
        cell_commands(
            apply_command(frame, width, command),
            width,
            command.col as int,
            command.row as int,
            command.cell,
        ) == Seq::<DrawCommand>::empty(),
{
}

/// Commands can be applied in two parts.
proof fn lemma_apply_in_parts(
    frame: Seq<Cell>,
    width: int,
    first: Seq<DrawCommand>,
    second: Seq<DrawCommand>,
)
    ensures
        apply_commands(frame, width, first + second) == apply_commands(
            apply_commands(frame, width, first),
            width,
            second,
        ),
    decreases second.len(),
{
    if second.len() == 0 {
        assert(first + second =~= first);
    } else {
        assert((first + second).drop_last() =~= first + second.drop_last());
        lemma_apply_in_parts(frame, width, first, second.drop_last());
    }
}

/// The commands for one place paint that place.
proof fn lemma_cell_commands_paint(
    frame: Seq<Cell>,
    width: int,
    base: int,
    cells: Seq<Cell>,
    row: int,
    n: int,
)
    requires
        0 <= base,
        base + strip_width() <= width <= u16::MAX,
        0 <= row < cells.len() <= u16::MAX,
        cells.len() * width <= frame.len(),
        0 <= n < strip_width(),
    ensures
        apply_commands(
            painted(frame, width, base, cells, row, n),
            width,
            cell_commands(frame, width, base + n, row, strip_cell(cells[row], n)),
        ) == painted(frame, width, base, cells, row, n + 1),
{
    let at = cell_index(width, base + n, row);
    let target = strip_cell(cells[row], n);
    let before = painted(frame, width, base, cells, row, n);
    let commands = cell_commands(frame, width, base + n, row, target);
    lemma_index_parts(width, base + n, row);
    lemma_index_in_frame(width, base + n, row, cells.len() as int);
    assert forall|i: int| 0 <= i < frame.len() implies painted(
        frame,
        width,
        base,
        cells,
        row,
        n + 1,
    )[i] == if i == at {
        target
    } else {
        before[i]
    } by {
        lemma_index_of_parts(width, i);
    }
    reveal_with_fuel(apply_commands, 2);
    if frame[at] == target {
        assert(before[at] == frame[at]);
        assert(apply_commands(before, width, commands) =~= painted(
            frame,
            width,
            base,
            cells,
            row,
            n + 1,
        ));
    } else {
        assert(commands.drop_last() =~= seq![]);
        assert(apply_commands(before, width, commands) =~= before.update(at, target));
        assert(before.update(at, target) =~= painted(frame, width, base, cells, row, n + 1));
    }
}

/// The commands for a row of a bar paint that row.
proof fn lemma_strip_commands_paint(
    frame: Seq<Cell>,
    width: int,
    base: int,
    cells: Seq<Cell>,
    row: int,
    n: nat,
)
    requires
        0 <= base,
        base + strip_width() <= width <= u16::MAX,
        0 <= row < cells.len() <= u16::MAX,
        cells.len() * width <= frame.len(),
        n <= strip_width(),
    ensures
        apply_commands(
            painted(frame, width, base, cells, row, 0),
            width,
            strip_commands(frame, width, base, row, cells[row], n),
        ) == painted(frame, width, base, cells, row, n as int),
    decreases n,
{
    if n > 0 {
        lemma_strip_commands_paint(frame, width, base, cells, row, (n - 1) as nat);
        lemma_cell_commands_paint(frame, width, base, cells, row, n - 1);
        lemma_apply_in_parts(
            painted(frame, width, base, cells, row, 0),
            width,
            strip_commands(frame, width, base, row, cells[row], (n - 1) as nat),
            cell_commands(frame, width, base + n - 1, row, strip_cell(cells[row], n - 1)),
        );
    }
}

/// The commands for the rows of a bar paint these rows.
proof fn lemma_column_commands_paint(
    frame: Seq<Cell>,
    width: int,
    base: int,
    cells: Seq<Cell>,
    rows: nat,
)
    requires
        0 <= base,
        base + strip_width() <= width <= u16::MAX,
        rows <= cells.len() <= u16::MAX,
        cells.len() * width <= frame.len(),
    ensures
        apply_commands(frame, width, column_commands(frame, width, base, cells, rows)) == painted(
            frame,
            width,
            base,
            cells,
            rows as int,
            0,
        ),
    decreases rows,
{
    if rows == 0 {
        assert forall|i: int| 0 <= i < frame.len() implies painted(
            frame,
            width,
            base,
            cells,
            0,
            0,
        )[i] == frame[i] by {
            lemma_index_of_parts(width, i);
        }
        assert(painted(frame, width, base, cells, 0, 0) =~= frame);
    } else {
        lemma_column_commands_paint(frame, width, base, cells, (rows - 1) as nat);
        lemma_strip_commands_paint(frame, width, base, cells, rows - 1, strip_width() as nat);
        lemma_apply_in_parts(
            frame,
            width,
            column_commands(frame, width, base, cells, (rows - 1) as nat),
            strip_commands(
                frame,
                width,
                base,
                rows - 1,
                cells[rows - 1],
                strip_width() as nat,
            ),
        );
        assert(painted(frame, width, base, cells, rows - 1, strip_width()) =~= painted(
            frame,
            width,
            base,
            cells,
            rows as int,
            0,
        ));
    }
}

/// Sending the commands of a bar makes the screen show the bar, and leaves every other column
/// as it was.
pub proof fn law_commands_show_the_column(
    frame: Seq<Cell>,
    width: int,
    base: int,
    cells: Seq<Cell>,
)
    requires
        0 <= base,
        base + strip_width() <= width <= u16::MAX,
        cells.len() <= u16::MAX,
        cells.len() * width == frame.len(),
    ensures
        ({
            let after = apply_commands(
                frame,
                width,
                column_commands(frame, width, base, cells, cells.len()),
            );
            &&& after.len() == frame.len()
            &&& shows_column(after, width, base, cells)
            &&& forall|i: int|
                0 <= i < frame.len() && !in_column(width, base, i) ==> #[trigger] after[i]
                    == frame[i]
        }),
{
    lemma_column_commands_paint(frame, width, base, cells, cells.len());
    let after = painted(frame, width, base, cells, cells.len() as int, 0);
    assert forall|row: int, offset: int|
        0 <= row < cells.len() && 0 <= offset < strip_width() implies after[#[trigger] cell_index(
        width,
        base + offset,
        row,
    )] == strip_cell(cells[row], offset) by {
        lemma_index_parts(width, base + offset, row);
        lemma_index_in_frame(width, base + offset, row, cells.len() as int);
    }
}

/// Drawing one bar leaves the others on the screen as they are, so that a whole frame can be
/// drawn bar by bar.
pub proof fn law_other_bars_stay(
    frame: Seq<Cell>,
    width: int,
    x: int,
    cells: Seq<Cell>,
    other: int,
    other_cells: Seq<Cell>,
)
    requires
        0 <= x,
        0 <= other,
        x != other,
        (x + 1) * strip_width() <= width <= u16::MAX,
        (other + 1) * strip_width() <= width,
        cells.len() == other_cells.len() <= u16::MAX,
        cells.len() * width == frame.len(),
        shows_column(frame, width, other * strip_width(), other_cells),
    ensures
        shows_column(
            apply_commands(
                frame,
                width,
                column_commands(frame, width, x * strip_width(), cells, cells.len()),
            ),
            width,
            other * strip_width(),
            other_cells,
        ),
{
    let base = x * strip_width();
    let other_base = other * strip_width();
    assert((x + 1) * strip_width() == base + strip_width() && (other + 1) * strip_width()
        == other_base + strip_width() && 0 <= base && 0 <= other_base) by (nonlinear_arith)
        requires
            base == x * strip_width(),
            other_base == other * strip_width(),
            0 <= x,
            0 <= other,
            strip_width() >= 0,
    ;
    assert(base + strip_width() <= other_base || other_base + strip_width() <= base)
        by (nonlinear_arith)
        requires
            base == x * strip_width(),
            other_base == other * strip_width(),
            x != other,
            strip_width() >= 0,
    ;
    law_commands_show_the_column(frame, width, base, cells);
    let after = apply_commands(
        frame,
        width,
        column_commands(frame, width, base, cells, cells.len()),
    );
    assert forall|row: int, offset: int|
        0 <= row < other_cells.len() && 0 <= offset
            < strip_width() implies after[#[trigger] cell_index(width, other_base + offset, row)]
        == strip_cell(other_cells[row], offset) by {
        lemma_index_parts(width, other_base + offset, row);
        lemma_index_in_frame(width, other_base + offset, row, cells.len() as int);
        assert(!in_column(width, base, cell_index(width, other_base + offset, row)));
    }
}

/// The frame after the first `n` bars have been drawn one after the other, each by the commands
/// that the frame then needs; `columns[x]` are the cells of bar `x`.
pub open spec fn after_bars(frame: Seq<Cell>, width: int, columns: Seq<Seq<Cell>>, n: nat) -> Seq<
    Cell,
>
    decreases n,
{
    if n == 0 {
        frame
    } else {
        let before = after_bars(frame, width, columns, (n - 1) as nat);
        let cells = columns[n - 1];
        apply_commands(
            before,
            width,
            column_commands(before, width, (n - 1) * strip_width(), cells, cells.len()),
        )
    }
}

/// Drawing all bars makes the screen show every one of them, and leaves the columns beside them
/// as they were.
pub proof fn law_frame_shows_every_bar(
    frame: Seq<Cell>,
    width: int,
    height: int,
    columns: Seq<Seq<Cell>>,
    n: nat,
)
    requires
        n <= columns.len(),
        n * strip_width() <= width <= u16::MAX,
        0 < width,
        0 <= height <= u16::MAX,
        frame.len() == height * width,
        forall|x: int| 0 <= x < n ==> (#[trigger] columns[x]).len() == height,
    ensures
        after_bars(frame, width, columns, n).len() == frame.len(),
        forall|x: int|
            0 <= x < n ==> shows_column(
                after_bars(frame, width, columns, n),
                width,
                x * strip_width(),
                #[trigger] columns[x],
            ),
        forall|i: int|
            0 <= i < frame.len() && i % width >= n * strip_width() ==> #[trigger] after_bars(
                frame,
                width,
                columns,
                n,
            )[i] == frame[i],
    decreases n,
{
    if n > 0 {
        let last = n - 1;
        let before = after_bars(frame, width, columns, last as nat);
        let after = after_bars(frame, width, columns, n);
        assert(n * strip_width() == last * strip_width() + strip_width() && 0 <= last
            * strip_width()) by (nonlinear_arith)
            requires
                last == n - 1,
                0 <= last,
                strip_width() >= 0,
        ;
        law_frame_shows_every_bar(frame, width, height, columns, last as nat);
        law_commands_show_the_column(before, width, last * strip_width(), columns[last]);
        assert forall|x: int| 0 <= x < n implies shows_column(
            after,
            width,
            x * strip_width(),
            #[trigger] columns[x],
        ) by {
            if x < last {
                assert((x + 1) * strip_width() <= n * strip_width()) by (nonlinear_arith)
                    requires
                        x + 1 <= n,
                        strip_width() >= 0,
                ;
                law_other_bars_stay(before, width, last, columns[last], x, columns[x]);
            }
        }
        assert forall|i: int|
            0 <= i < frame.len() && i % width >= n * strip_width() implies #[trigger] after[i]
            == frame[i] by {
            assert(!in_column(width, last * strip_width(), i));
            assert(before[i] == frame[i]);
        }
    }
}

/// A screen that already shows a bar is sent nothing: drawing the same bar twice costs nothing
/// the second time.
pub proof fn law_unchanged_column_needs_no_command(
    frame: Seq<Cell>,
    width: int,
    base: int,
    cells: Seq<Cell>,
    rows: nat,
)
    requires
        rows <= cells.len(),
        shows_column(frame, width, base, cells),
    ensures
        column_commands(frame, width, base, cells, rows) == Seq::<DrawCommand>::empty(),
    decreases rows,
{
    if rows > 0 {
        law_unchanged_column_needs_no_command(frame, width, base, cells, (rows - 1) as nat);
        lemma_unchanged_strip(frame, width, base, cells, rows - 1, strip_width() as nat);
    }
}

/// A row that is already shown needs no command.
proof fn lemma_unchanged_strip(
    frame: Seq<Cell>,
    width: int,
    base: int,
    cells: Seq<Cell>,
    row: int,
    n: nat,
)
    requires
        0 <= row < cells.len(),
        n <= strip_width(),
        shows_column(frame, width, base, cells),
    ensures
        strip_commands(frame, width, base, row, cells[row], n) == Seq::<DrawCommand>::empty(),
    decreases n,
{
    if n > 0 {
        lemma_unchanged_strip(frame, width, base, cells, row, (n - 1) as nat);
        assert(frame[cell_index(width, base + (n - 1), row)] == strip_cell(cells[row], n - 1));
    }
}

/// The commands of a bar depend on what the frame shows in its columns, and on nothing else.
pub(crate) proof fn lemma_commands_read_their_column(
    one: Seq<Cell>,
    two: Seq<Cell>,
    width: int,
    base: int,
    cells: Seq<Cell>,
    rows: nat,
)
    requires
        forall|row: int, offset: int|
            0 <= row < rows && 0 <= offset < strip_width() ==> one[#[trigger] cell_index(
                width,
                base + offset,
                row,
            )] == two[cell_index(width, base + offset, row)],
    ensures
        column_commands(one, width, base, cells, rows) == column_commands(
            two,
            width,
            base,
            cells,
            rows,
        ),
    decreases rows,
{
    if rows > 0 {
        lemma_commands_read_their_column(one, two, width, base, cells, (rows - 1) as nat);
        lemma_commands_read_their_strip(
            one,
            two,
            width,
            base,
            rows - 1,
            cells[rows - 1],
            strip_width() as nat,
        );
    }
}

/// The commands for a row of a bar depend on what the frame shows there.
proof fn lemma_commands_read_their_strip(
    one: Seq<Cell>,
    two: Seq<Cell>,
    width: int,
    base: int,
    row: int,
    cell: Cell,
    n: nat,
)
    requires
        n <= strip_width(),
        forall|offset: int|
            0 <= offset < strip_width() ==> one[#[trigger] cell_index(width, base + offset, row)]
                == two[cell_index(width, base + offset, row)],
    ensures
        strip_commands(one, width, base, row, cell, n) == strip_commands(
            two,
            width,
            base,
            row,
            cell,
            n,
        ),
    decreases n,
{
    if n > 0 {
        lemma_commands_read_their_strip(one, two, width, base, row, cell, (n - 1) as nat);
        assert(one[cell_index(width, base + (n - 1), row)] == two[cell_index(
            width,
            base + (n - 1),
            row,
        )]);
    }
}

/// Whether a command changes what a frame shows, in one of the given rows of the bar that
/// starts in column `base`.
pub open spec fn changes_column(
    frame: Seq<Cell>,
    width: int,
    base: int,
    rows: int,
    command: DrawCommand,
) -> bool {
    &&& base <= command.col < base + strip_width()
    &&& command.row < rows
    &&& frame[cell_index(width, command.col as int, command.row as int)] != command.cell
}

/// Every command of a bar lies in the columns of the bar and changes a cell.
pub proof fn law_commands_change_cells(
    frame: Seq<Cell>,
    width: int,
    base: int,
    cells: Seq<Cell>,
    rows: nat,
)
    requires
        0 <= base,
        base + strip_width() <= width <= u16::MAX,
        rows <= u16::MAX,
    ensures
        forall|k: int|
            0 <= k < column_commands(frame, width, base, cells, rows).len() ==> changes_column(
                frame,
                width,
                base,
                rows as int,
                #[trigger] column_commands(frame, width, base, cells, rows)[k],
            ),
    decreases rows,
{
    if rows > 0 {
        law_commands_change_cells(frame, width, base, cells, (rows - 1) as nat);
        lemma_strip_commands_change(
            frame,
            width,
            base,
            rows - 1,
            cells[rows - 1],
            strip_width() as nat,
        );
        let above = column_commands(frame, width, base, cells, (rows - 1) as nat);
        let strip = strip_commands(
            frame,
            width,
            base,
            rows - 1,
            cells[rows - 1],
            strip_width() as nat,
        );
        assert forall|k: int| 0 <= k < (above + strip).len() implies changes_column(
            frame,
            width,
            base,
            rows as int,
            #[trigger] (above + strip)[k],
        ) by {
            if k < above.len() {
                assert((above + strip)[k] == above[k]);
            } else {
                assert((above + strip)[k] == strip[k - above.len()]);
            }
        }
    }
}

/// Every command for a row of a bar lies in that row and changes a cell.
proof fn lemma_strip_commands_change(
    frame: Seq<Cell>,
    width: int,
    base: int,
    row: int,
    cell: Cell,
    n: nat,
)
    requires
        0 <= base,
        base + strip_width() <= width <= u16::MAX,
        0 <= row < u16::MAX,
        n <= strip_width(),
    ensures
        forall|k: int|
            0 <= k < strip_commands(frame, width, base, row, cell, n).len() ==> changes_column(
                frame,
                width,
                base,
                row + 1,
                #[trigger] strip_commands(frame, width, base, row, cell, n)[k],
            ),
    decreases n,
{
    if n > 0 {
        lemma_strip_commands_change(frame, width, base, row, cell, (n - 1) as nat);
        let left = strip_commands(frame, width, base, row, cell, (n - 1) as nat);
        let last = cell_commands(frame, width, base + n - 1, row, strip_cell(cell, n - 1));
        assert forall|k: int| 0 <= k < (left + last).len() implies changes_column(
            frame,
            width,
            base,
            row + 1,
            #[trigger] (left + last)[k],
        ) by {
            if k < left.len() {
                assert((left + last)[k] == left[k]);
            } else {
                assert((left + last)[k] == last[0]);
            }
        }
    }
}

/// A command changes the cell at its place, counted row by row, and no other.
pub proof fn law_command_changes_one_cell(frame: Seq<Cell>, width: int, command: DrawCommand)
    requires
        0 <= command.row * width + command.col < frame.len(),
    ensures
        ({
            let after = apply_command(frame, width, command);
            &&& after.len() == frame.len()
            &&& forall|i: int|
                0 <= i < frame.len() ==> #[trigger] after[i] == if i == command.row * width
                    + command.col {
                    command.cell
                } else {
                    frame[i]
                }
        }),
{
}

/// Whether one command lies before another, row by row from the top and from left to right.
pub open spec fn lies_before(one: DrawCommand, two: DrawCommand) -> bool {
    one.row < two.row || one.row == two.row && one.col < two.col
}

/// The commands of a bar go row by row from the top and from left to right, so no place is sent
/// twice.
pub proof fn law_no_place_is_sent_twice(
    frame: Seq<Cell>,
    width: int,
    base: int,
    cells: Seq<Cell>,
    rows: nat,
)
    requires
        0 <= base,
        base + strip_width() <= width <= u16::MAX,
        rows <= u16::MAX,
    ensures
        forall|j: int, k: int|
            0 <= j < k < column_commands(frame, width, base, cells, rows).len() ==> lies_before(
                #[trigger] column_commands(frame, width, base, cells, rows)[j],
                #[trigger] column_commands(frame, width, base, cells, rows)[k],
            ),
    decreases rows,
{
    if rows > 0 {
        law_no_place_is_sent_twice(frame, width, base, cells, (rows - 1) as nat);
        law_commands_change_cells(frame, width, base, cells, (rows - 1) as nat);
        lemma_strip_goes_right(
            frame,
            width,
            base,
            rows - 1,
            cells[rows - 1],
            strip_width() as nat,
        );
        let above = column_commands(frame, width, base, cells, (rows - 1) as nat);
        let strip = strip_commands(
            frame,
            width,
            base,
            rows - 1,
            cells[rows - 1],
            strip_width() as nat,
        );
        assert forall|j: int, k: int| 0 <= j < k < (above + strip).len() implies lies_before(
            #[trigger] (above + strip)[j],
            #[trigger] (above + strip)[k],
        ) by {
            if k < above.len() {
                assert((above + strip)[j] == above[j] && (above + strip)[k] == above[k]);
            } else if j < above.len() {
                assert((above + strip)[j] == above[j]);
                assert((above + strip)[k] == strip[k - above.len()]);
                assert(changes_column(frame, width, base, rows - 1, above[j]));
                assert(strip[k - above.len()].row == rows - 1);
            } else {
                assert((above + strip)[j] == strip[j - above.len()]);
                assert((above + strip)[k] == strip[k - above.len()]);
            }
        }
    }
}

/// The commands for a row lie in that row, from left to right.
proof fn lemma_strip_goes_right(
    frame: Seq<Cell>,
    width: int,
    base: int,
    row: int,
    cell: Cell,
    n: nat,
)
    requires
        0 <= base,
        base + strip_width() <= width <= u16::MAX,
        0 <= row < u16::MAX,
        n <= strip_width(),
    ensures
        forall|k: int|
            0 <= k < strip_commands(frame, width, base, row, cell, n).len() ==> (
            #[trigger] strip_commands(frame, width, base, row, cell, n)[k]).row == row
                && strip_commands(frame, width, base, row, cell, n)[k].col < base + n,
        forall|j: int, k: int|
            0 <= j < k < strip_commands(frame, width, base, row, cell, n).len() ==> lies_before(
                #[trigger] strip_commands(frame, width, base, row, cell, n)[j],
                #[trigger] strip_commands(frame, width, base, row, cell, n)[k],
            ),
    decreases n,
{
    if n > 0 {
        lemma_strip_goes_right(frame, width, base, row, cell, (n - 1) as nat);
        let left = strip_commands(frame, width, base, row, cell, (n - 1) as nat);
        let last = cell_commands(frame, width, base + n - 1, row, strip_cell(cell, n - 1));
        assert forall|k: int| 0 <= k < (left + last).len() implies (#[trigger] (left + last)[k]).row
            == row && (left + last)[k].col < base + n by {
            if k < left.len() {
                assert((left + last)[k] == left[k]);
            } else {
                assert((left + last)[k] == last[0]);
            }
        }
        assert forall|j: int, k: int| 0 <= j < k < (left + last).len() implies lies_before(
            #[trigger] (left + last)[j],
            #[trigger] (left + last)[k],
        ) by {
            assert((left + last)[j] == left[j]);
            if k < left.len() {
                assert((left + last)[k] == left[k]);
            } else {
                assert((left + last)[k] == last[0]);
            }
        }
    }
}

} // verus!
