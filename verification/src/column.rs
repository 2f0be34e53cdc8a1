//! What one column of the screen shows: a bar with a cap above it.
//!
//! Heights are measured in eighths of a cell from the bottom of the screen. A row is named by
//! its distance from the bottom row, so it covers the eighths from `8 * dist` to
//! `8 * dist + 8`.
use crate::config::CAP_SIZE;
use crate::glyph::{block_char, fills, upper_block};
use vstd::prelude::*;

verus! {

/// A place on the colour gradient of a bar.
#[derive(Clone, Copy, Debug, PartialEq, Eq, Structural)]
pub enum GradientAt {
    /// The upper end of the gradient.
    Peak,
    /// The given height, in eighths of a cell.
    Eighths(usize),
}

/// How a cell is coloured.
#[derive(Clone, Copy, Debug, PartialEq, Eq, Structural)]
pub enum Shade {
    /// In the default colour of the terminal.
    Reset,
    /// In a colour of the bar's gradient.
    Gradient(GradientAt),
}

/// What a cell of a column shows.
#[derive(Clone, Copy, Debug, PartialEq, Eq, Structural)]
pub struct CellPlan {
    pub ch: char,
    pub fg: Shade,
    pub bg: Shade,
}

/// The lower end of the part of the cap that lies in a row.
pub open spec fn cap_low(cap: int, dist: int) -> int {
    if cap >= 8 * dist {
        cap
    } else {
        8 * dist
    }
}

/// The upper end of the part of the cap that lies in a row.
pub open spec fn cap_high(cap: int, dist: int) -> int {
    if cap + CAP_SIZE <= 8 * dist + 8 {
        cap + CAP_SIZE
    } else {
        8 * dist + 8
    }
}

/// How many eighths of a row the cap takes.
pub open spec fn cap_fill(cap: int, dist: int) -> int {
    if cap_low(cap, dist) < cap_high(cap, dist) {
        cap_high(cap, dist) - cap_low(cap, dist)
    } else {
        0
    }
}

/// The glyph of the part of the cap that lies in a row: filled from the top of the cell
/// downwards where it reaches the top, else from the bottom upwards.
pub open spec fn cap_glyph(cap: int, dist: int) -> char {
    if cap_high(cap, dist) == 8 * dist + 8 {
        crate::glyph::upper_glyph(8 * dist + 8 - cap_low(cap, dist))
    } else {
        crate::glyph::lower_glyph(cap_high(cap, dist) - 8 * dist)
    }
}

/// How many eighths of a row a bar of height `bar` takes.
pub open spec fn bar_fill(bar: int, dist: int) -> int {
    if bar <= 8 * dist {
        0
    } else if bar >= 8 * dist + 8 {
        8
    } else {
        bar - 8 * dist
    }
}

/// What a row of the column shows. An active cap hides the bar behind it and has the colour of
/// the upper end of the gradient. A row that the bar fills shows two colours, one for each
/// half; the row with the upper edge of the bar shows one.
pub open spec fn row_plan(cap_active: bool, cap: int, bar: int, dist: int) -> CellPlan {
    let filled = bar_fill(bar, dist);
    if cap_active && cap_fill(cap, dist) > 0 {
        CellPlan {
            ch: cap_glyph(cap, dist),
            fg: Shade::Gradient(GradientAt::Peak),
            bg: Shade::Reset,
        }
    } else if filled == 0 {
        CellPlan { ch: ' ', fg: Shade::Reset, bg: Shade::Reset }
    } else if filled == 8 {
        CellPlan {
            ch: '\u{2580}',
            fg: Shade::Gradient(GradientAt::Eighths((8 * dist + 6) as usize)),
            bg: Shade::Gradient(GradientAt::Eighths((8 * dist + 2) as usize)),
        }
    } else {
        CellPlan {
            ch: crate::glyph::lower_glyph(filled),
            fg: Shade::Gradient(GradientAt::Eighths((8 * dist + filled) as usize)),
            bg: Shade::Reset,
        }
    }
}

/// What the row at the distance `dist` from the bottom row shows, where the cap stands at
/// `cap_bottom` and the bar is `bar` eighths high.
pub fn plan_row(cap_active: bool, cap_bottom: usize, bar: usize, dist: u16) -> (plan: CellPlan)
    requires
        cap_bottom + CAP_SIZE <= usize::MAX,
    ensures
        plan == row_plan(cap_active, cap_bottom as int, bar as int, dist as int),
{
    let cap_top: usize = cap_bottom + CAP_SIZE;
    let cell_bottom: usize = dist as usize * 8;
    let cell_top: usize = cell_bottom + 8;
    let low: usize = if cap_bottom >= cell_bottom {
        cap_bottom
    } else {
        cell_bottom
    };
    let high: usize = if cap_top <= cell_top {
        cap_top
    } else {
        cell_top
    };
    if cap_active && low < high {
        let ch = if high == cell_top {
            upper_block(cell_top - low)
        } else {
            block_char(high - cell_bottom)
        };
        return CellPlan { ch, fg: Shade::Gradient(GradientAt::Peak), bg: Shade::Reset };
    }
    let above: usize = bar.saturating_sub(cell_bottom);
    let filled: usize = if above <= 8 {
        above
    } else {
        8
    };
    if filled == 0 {
        CellPlan { ch: ' ', fg: Shade::Reset, bg: Shade::Reset }
    } else if filled == 8 {
        CellPlan {
            ch: '\u{2580}',
            fg: Shade::Gradient(GradientAt::Eighths(cell_bottom + 6)),
            bg: Shade::Gradient(GradientAt::Eighths(cell_bottom + 2)),
        }
    } else {
        CellPlan {
            ch: block_char(filled),
            fg: Shade::Gradient(GradientAt::Eighths(cell_bottom + filled)),
            bg: Shade::Reset,
        }
    }
}

/// The eighths that the cap takes in the lowest `rows` rows together.
pub open spec fn cap_fill_below(cap: int, rows: nat) -> int
    decreases rows,
{
    if rows == 0 {
        0
    } else {
        cap_fill_below(cap, (rows - 1) as nat) + cap_fill(cap, rows - 1)
    }
}

/// The eighths that the bar takes in the lowest `rows` rows together.
pub open spec fn bar_fill_below(bar: int, rows: nat) -> int
    decreases rows,
{
    if rows == 0 {
        0
    } else {
        bar_fill_below(bar, (rows - 1) as nat) + bar_fill(bar, rows - 1)
    }
}

/// A glyph of the cap shows exactly the eighths that the cap takes in its row: the cap always
/// touches the top or the bottom of a row that it lies in, so no row would need a glyph that
/// is filled in the middle only.
pub proof fn law_cap_touches_an_edge(cap: int, dist: int)
    requires
        0 <= cap,
        0 <= dist,
        cap_fill(cap, dist) > 0,
    ensures
        cap_high(cap, dist) == 8 * dist + 8 || cap_low(cap, dist) == 8 * dist,
        cap_glyph(cap, dist) == if cap_high(cap, dist) == 8 * dist + 8 {
            crate::glyph::upper_glyph(cap_fill(cap, dist))
        } else {
            crate::glyph::lower_glyph(cap_fill(cap, dist))
        },
        cap_glyph(cap, dist) != ' ',
{
}

/// The rows of a column show the whole cap: they hold all its eighths that lie on the screen,
/// and so all of them where it lies on the screen as a whole.
pub proof fn law_cap_is_shown_whole(cap: int, rows: nat)
    requires
        0 <= cap,
    ensures
        cap_fill_below(cap, rows) == if 8 * rows <= cap {
            0
        } else if 8 * rows <= cap + CAP_SIZE {
            8 * rows - cap
        } else {
            CAP_SIZE as int
        },
    decreases rows,
{
    if rows > 0 {
        law_cap_is_shown_whole(cap, (rows - 1) as nat);
    }
}

/// The rows of a column show the whole bar: they hold as many eighths as the bar is high, up
/// to the height of the screen.
pub proof fn law_bar_is_shown_whole(bar: int, rows: nat)
    requires
        0 <= bar,
    ensures
        bar_fill_below(bar, rows) == if bar <= 8 * rows {
            bar
        } else {
            8 * rows as int
        },
    decreases rows,
{
    if rows > 0 {
        law_bar_is_shown_whole(bar, (rows - 1) as nat);
    }
}

/// A cap that has not been activated is never shown: the row shows the bar alone.
pub proof fn law_inactive_cap_is_hidden(cap: int, other_cap: int, bar: int, dist: int)
    ensures
        row_plan(false, cap, bar, dist) == row_plan(false, other_cap, bar, dist),
        bar <= 8 * dist ==> row_plan(false, cap, bar, dist) == (CellPlan {
            ch: ' ',
            fg: Shade::Reset,
            bg: Shade::Reset,
        }),
{
}

/// How eighth number `k` of a cell is coloured, counted from the bottom upwards: the glyph has
/// the foreground, and what it leaves free the background.
pub open spec fn shade_at(plan: CellPlan, k: int) -> Shade {
    if fills(plan.ch, k) {
        plan.fg
    } else {
        plan.bg
    }
}

/// A row shows every eighth of the screen as it is. Where an active cap takes part of the row,
/// the eighths of the cap have the colour of the upper end of the gradient, and the rest of the
/// row is free. In every other row the eighths below the upper edge of the bar have a colour of
/// the gradient: that of the upper edge in the row that it lies in, else that of the middle of
/// the half cell. All others are free, and a cell without any is blank.
pub proof fn law_row_shows_every_eighth(
    cap_active: bool,
    cap: usize,
    bar: usize,
    dist: u16,
    plan: CellPlan,
    k: int,
)
    requires
        cap + CAP_SIZE <= usize::MAX,
        call_ensures(plan_row, (cap_active, cap, bar, dist), plan),
        0 <= k < 8,
    ensures
        ({
            let bottom = 8 * dist;
            let at = bottom + k;
            let capped = cap_active && cap < bottom + 8 && bottom < cap + CAP_SIZE;
            &&& shade_at(plan, k) == if capped {
                if cap <= at < cap + CAP_SIZE {
                    Shade::Gradient(GradientAt::Peak)
                } else {
                    Shade::Reset
                }
            } else if at < bar {
                if bar < bottom + 8 {
                    Shade::Gradient(GradientAt::Eighths(bar))
                } else if k < 4 {
                    Shade::Gradient(GradientAt::Eighths((bottom + 2) as usize))
                } else {
                    Shade::Gradient(GradientAt::Eighths((bottom + 6) as usize))
                }
            } else {
                Shade::Reset
            }
            &&& plan.ch == ' ' <==> !capped && bar <= bottom
            &&& plan.ch == ' ' ==> plan.fg == Shade::Reset && plan.bg == Shade::Reset
            &&& plan.ch == ' ' || exists|j: int| 0 <= j < 8 && #[trigger] fills(plan.ch, j)
        }),
{
    lemma_plan_shows_every_eighth(cap_active, cap, bar, dist, k);
}

/// What the plan of a row says of one of its eighths.
pub(crate) proof fn lemma_plan_shows_every_eighth(
    cap_active: bool,
    cap: usize,
    bar: usize,
    dist: u16,
    k: int,
)
    requires
        0 <= k < 8,
    ensures
        ({
            let plan = row_plan(cap_active, cap as int, bar as int, dist as int);
            let bottom = 8 * dist;
            let at = bottom + k;
            let capped = cap_active && cap < bottom + 8 && bottom < cap + CAP_SIZE;
            &&& shade_at(plan, k) == if capped {
                if cap <= at < cap + CAP_SIZE {
                    Shade::Gradient(GradientAt::Peak)
                } else {
                    Shade::Reset
                }
            } else if at < bar {
                if bar < bottom + 8 {
                    Shade::Gradient(GradientAt::Eighths(bar))
                } else if k < 4 {
                    Shade::Gradient(GradientAt::Eighths((bottom + 2) as usize))
                } else {
                    Shade::Gradient(GradientAt::Eighths((bottom + 6) as usize))
                }
            } else {
                Shade::Reset
            }
            &&& plan.ch == ' ' <==> !capped && bar <= bottom
            &&& plan.ch == ' ' ==> plan.fg == Shade::Reset && plan.bg == Shade::Reset
            &&& plan.ch == ' ' || exists|j: int| 0 <= j < 8 && #[trigger] fills(plan.ch, j)
        }),
{
    let plan = row_plan(cap_active, cap as int, bar as int, dist as int);
    let d = dist as int;
    let c = cap as int;
    let high = cap_high(c, d);
    if cap_active && cap_fill(c, d) > 0 {
        if high == 8 * d + 8 {
            let fill = (8 * d + 8 - cap_low(c, d)) as usize;
            assert(plan.ch == crate::glyph::upper_glyph(fill as int));
            assert(fills(plan.ch, 7));
        } else {
            let level = high - 8 * d;
            assert(plan.ch as int == 0x2580 + level);
            assert(fills(plan.ch, 0));
        }
    } else {
        let filled = bar_fill(bar as int, d);
        if filled == 8 {
            assert(fills(plan.ch, 7));
        } else if filled > 0 {
            assert(plan.ch as int == 0x2580 + filled);
            assert(fills(plan.ch, 0));
        }
    }
}

/// How many of the lowest `n` eighths of a cell are coloured.
pub open spec fn coloured_eighths(plan: CellPlan, n: nat) -> int
    decreases n,
{
    if n == 0 {
        0
    } else {
        coloured_eighths(plan, (n - 1) as nat) + if shade_at(plan, n - 1) == Shade::Reset {
            0int
        } else {
            1
        }
    }
}

/// A row holds as many coloured eighths as the bar has there, from none to all eight, unless an
/// active cap takes part of the row. So a higher bar never shows less.
pub proof fn law_row_holds_the_eighths_of_the_bar(
    cap_active: bool,
    cap: usize,
    bar: usize,
    dist: u16,
    plan: CellPlan,
)
    requires
        cap + CAP_SIZE <= usize::MAX,
        call_ensures(plan_row, (cap_active, cap, bar, dist), plan),
        !cap_active || 8 * dist + 8 <= cap || cap + CAP_SIZE <= 8 * dist,
    ensures
        coloured_eighths(plan, 8) == vstd::math::min(8, vstd::math::max(0, bar - 8 * dist)),
{
    reveal_with_fuel(coloured_eighths, 9);
    law_row_shows_every_eighth(cap_active, cap, bar, dist, plan, 0);
    law_row_shows_every_eighth(cap_active, cap, bar, dist, plan, 1);
    law_row_shows_every_eighth(cap_active, cap, bar, dist, plan, 2);
    law_row_shows_every_eighth(cap_active, cap, bar, dist, plan, 3);
    law_row_shows_every_eighth(cap_active, cap, bar, dist, plan, 4);
    law_row_shows_every_eighth(cap_active, cap, bar, dist, plan, 5);
    law_row_shows_every_eighth(cap_active, cap, bar, dist, plan, 6);
    law_row_shows_every_eighth(cap_active, cap, bar, dist, plan, 7);
}

/// A higher bar shows at least as much in every row, and everything in a row that it fills.
pub proof fn law_higher_bar_shows_no_less(
    bar: usize,
    higher: usize,
    cap: usize,
    dist: u16,
    plan: CellPlan,
    other: CellPlan,
)
    requires
        cap + CAP_SIZE <= usize::MAX,
        bar <= higher,
        call_ensures(plan_row, (false, cap, bar, dist), plan),
        call_ensures(plan_row, (false, cap, higher, dist), other),
    ensures
        coloured_eighths(plan, 8) <= coloured_eighths(other, 8),
        8 * dist + 8 <= higher ==> coloured_eighths(other, 8) == 8,
{
    law_row_holds_the_eighths_of_the_bar(false, cap, bar, dist, plan);
    law_row_holds_the_eighths_of_the_bar(false, cap, higher, dist, other);
}

/// A cap has no influence on the rows that it takes no eighth of, active or not.
pub proof fn law_cap_hides_its_own_rows_only(
    cap_active: bool,
    cap: usize,
    other_active: bool,
    other_cap: usize,
    bar: usize,
    dist: u16,
    plan: CellPlan,
    other: CellPlan,
)
    requires
        cap + CAP_SIZE <= usize::MAX,
        other_cap + CAP_SIZE <= usize::MAX,
        call_ensures(plan_row, (cap_active, cap, bar, dist), plan),
        call_ensures(plan_row, (other_active, other_cap, bar, dist), other),
        !cap_active || 8 * dist + 8 <= cap || cap + CAP_SIZE <= 8 * dist,
        !other_active || 8 * dist + 8 <= other_cap || other_cap + CAP_SIZE <= 8 * dist,
    ensures
        plan == other,
{
}

/// The bar has no influence on the rows that an active cap takes part of.
pub proof fn law_cap_hides_the_bar(
    cap: usize,
    bar: usize,
    other_bar: usize,
    dist: u16,
    plan: CellPlan,
    other: CellPlan,
)
    requires
        cap + CAP_SIZE <= usize::MAX,
        call_ensures(plan_row, (true, cap, bar, dist), plan),
        call_ensures(plan_row, (true, cap, other_bar, dist), other),
        cap < 8 * dist + 8,
        8 * dist < cap + CAP_SIZE,
    ensures
        plan == other,
{
}

} // verus!
