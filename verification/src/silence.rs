//! What holds of a display through silence.
use crate::bands::{is_band_level, range_fits};
use crate::color::{blank_cell, Cell, Color};
use crate::column::{row_plan, GradientAt};
use crate::config::WAVES;
use crate::drawing::{
    bar_drawn, bar_drawn_by, bars_drawn, colors_at, frame_shown, frame_shown_by,
    law_unchanged_frame_needs_no_command, BarMarks,
};
use crate::frame::{frame_advanced, frame_by, law_frame_keeps_the_screen, FrameSteps};
use crate::math::BarMath;
use crate::motion::{
    bar_smoothed, bar_state, falls_to, filter_in_force, filtered, spread_chain, spread_from,
    spring_stepped, NeighbourFilter,
};
use crate::renderer::{is_planned, SpectrumRenderer};
use crate::screen::{
    cell_index, lemma_index_in_frame, shows_column, strip_cell, strip_width, DrawCommand,
};
use vstd::prelude::*;

verus! {

/// Whether all values are `zero`.
pub open spec fn all_are<V>(values: Seq<V>, zero: V) -> bool {
    forall|i: int| 0 <= i < values.len() ==> #[trigger] values[i] == zero
}

/// Whether the formulas leave a display at `zero` that is at `zero`, under the given gain.
pub open spec fn rests_at<V: Copy, M: BarMath<V>>(math: &M, zero: V, gain: V) -> bool {
    &&& forall|band: &[V], level: V| #[trigger]
        call_ensures(M::level, (math, band), level) && all_are(band@, zero) ==> level == zero
    &&& forall|values: &[V], silent: bool| #[trigger]
        call_ensures(M::silent, (math, values), silent) && all_are(values@, zero) ==> silent
    &&& forall|values: &[V], intensity: V| #[trigger]
        call_ensures(M::intensity, (math, zero, values), intensity) && all_are(values@, zero)
            ==> intensity == zero
    &&& forall|value: V| #[trigger]
        call_ensures(M::amplify, (math, zero, gain), value) ==> value == zero
    &&& forall|falling: bool| #[trigger]
        call_ensures(M::falling, (math, zero, zero), falling) ==> !falling
    &&& forall|value: V| #[trigger]
        call_ensures(M::integrate, (math, zero, zero), value) ==> value == zero
    &&& forall|value: V| #[trigger]
        call_ensures(M::waves_base, (math, zero), value) ==> value == zero
    &&& forall|distance: usize, height: u16, lifted: V, exceeds: bool|
        #[trigger] call_ensures(M::waves_spread, (math, zero, distance, height), lifted)
            && #[trigger] call_ensures(M::exceeds, (math, lifted, zero), exceeds) ==> !exceeds
    &&& forall|distance: usize, lifted: V, exceeds: bool|
        #[trigger] call_ensures(M::monstercat_spread, (math, zero, distance), lifted)
            && #[trigger] call_ensures(M::exceeds, (math, lifted, zero), exceeds) ==> !exceeds
    &&& forall|next: (V, V)| #[trigger]
        call_ensures(M::spring, (math, zero, zero, zero), next) ==> next == (zero, zero)
    &&& forall|over: bool| #[trigger] call_ensures(M::overshoots, (math, zero), over) ==> !over
    &&& forall|max_height: u16, height: V| #[trigger]
        call_ensures(M::bar_height, (math, zero, max_height), height) ==> height == zero
    &&& forall|top: V| #[trigger] call_ensures(M::bar_top, (math, zero), top) ==> top == zero
    &&& forall|exceeds: bool| #[trigger]
        call_ensures(M::exceeds, (math, zero, zero), exceeds) ==> !exceeds
    &&& forall|cap: V| #[trigger]
        call_ensures(M::cap_fall, (math, zero, zero), cap) ==> cap == zero
}

/// Whether a display is at rest: nothing moves, no cap has been activated, and the intensity is
/// `zero`.
pub open spec fn at_rest<V: Copy>(renderer: SpectrumRenderer<V>, zero: V) -> bool {
    &&& all_are(renderer.prev_bar@, zero)
    &&& all_are(renderer.bar_mem@, zero)
    &&& all_are(renderer.spring_pos@, zero)
    &&& all_are(renderer.spring_vel@, zero)
    &&& all_are(renderer.cap_heights@, zero)
    &&& all_are(renderer.cap_active@, false)
    &&& renderer.intensity == zero
}

/// Whether a display shows nothing.
pub open spec fn is_blank<V: Copy>(renderer: SpectrumRenderer<V>) -> bool {
    all_are(renderer.frame_buffer@, blank_cell())
}

/// Values at zero stay there when they spread.
proof fn lemma_zeros_spread_nothing<V: Copy, M: BarMath<V>>(
    math: &M,
    filter: NeighbourFilter,
    height: u16,
    states: Seq<Seq<V>>,
    bars: int,
    n: int,
    zero: V,
    gain: V,
)
    requires
        rests_at(math, zero, gain),
        filter != NeighbourFilter::Off,
        0 <= n <= bars,
        states[0].len() == bars,
        spread_chain(math, filter, height, states, bars),
        all_are(states[0], zero),
    ensures
        states[n].len() == bars,
        all_are(states[n], zero),
    decreases n,
{
    if n > 0 {
        lemma_zeros_spread_nothing(math, filter, height, states, bars, n - 1, zero, gain);
        let pre = states[n - 1];
        let post = states[n - 1 + 1];
        assert(spread_from(math, filter, height, pre, post, n - 1));
        assert(pre[n - 1] == zero);
        assert(post[n - 1] == zero);
        assert forall|y: int| 0 <= y < post.len() implies #[trigger] post[y] == zero by {
            if y != n - 1 {
                assert(pre[y] == zero);
            }
        }
    }
}

/// A silent frame leaves a display at rest at rest, and the gain as it is; only the palette goes
/// on turning.
pub proof fn law_silence_moves_nothing<V: Copy, M: BarMath<V>>(
    math: &M,
    data: Seq<V>,
    pre: SpectrumRenderer<V>,
    post: SpectrumRenderer<V>,
    zero: V,
)
    requires
        pre.wf(),
        pre.bands_fit(data.len() as int),
        rests_at(math, zero, pre.sensitivity),
        at_rest(pre, zero),
        all_are(data, zero),
        frame_advanced(math, data, pre, post),
    ensures
        post.wf(),
        at_rest(post, zero),
        post.sensitivity == pre.sensitivity,
        call_ensures(M::hue_phase, (math, pre.hue_phase, zero), post.hue_phase),
{
    let (steps, silence, over) = choose|steps: FrameSteps<V>, silence: bool, over: Seq<bool>|
        #[trigger] frame_by(math, data, pre, steps, silence, over, post);
    let gain = pre.sensitivity;
    let bars = pre.bars();
    assert(all_are(steps.measured.bar_values@, zero)) by {
        assert forall|x: int| 0 <= x < bars implies #[trigger] steps.measured.bar_values@[x]
            == zero by {
            let range = pre.bar_ranges@[x];
            let level = steps.measured.bar_values@[x];
            assert(range_fits(range, data.len() as int));
            assert(is_band_level(math, data, range, level));
            let band = choose|band: &[V]|
                band@ == data.subrange(range.0 as int, range.1 as int) && #[trigger] call_ensures(
                    M::level,
                    (math, band),
                    level,
                );
            assert(all_are(band@, zero));
        }
    }
    assert(silence) by {
        let values = choose|values: &[V]|
            values@ == steps.measured.bar_values@ && #[trigger] call_ensures(
                M::silent,
                (math, values),
                silence,
            );
    }
    assert(steps.tinted.intensity == zero) by {
        let values = choose|values: &[V]|
            values@ == steps.measured.bar_values@ && #[trigger] call_ensures(
                M::intensity,
                (math, pre.intensity, values),
                steps.tinted.intensity,
            );
    }
    let smoothed = steps.smoothed;
    assert forall|x: int| 0 <= x < bars implies #[trigger] smoothed.bar_values@[x] == zero
        && smoothed.bar_mem@[x] == zero && smoothed.prev_bar@[x] == zero by {
        assert(bar_smoothed(math, steps.tinted, smoothed, x));
        let before = bar_state(steps.tinted, x);
        let after = bar_state(smoothed, x);
        assert(steps.measured.bar_values@[x] == zero);
        assert(before.value == zero && before.prev == zero && before.mem == zero);
        let (amplified, falling) = choose|amplified: V, falling: bool|
            call_ensures(M::amplify, (math, before.value, gain), amplified)
                && #[trigger] falls_to(math, before, amplified, falling, after);
        assert(after.prev == zero);
    }
    let filtered_values = steps.filtered.bar_values@;
    assert(all_are(filtered_values, zero) && filtered_values.len() == bars) by {
        let monstercat = choose|monstercat: bool|
            #[trigger] call_ensures(M::monstercat, (math,), monstercat) && filtered(
                math,
                filter_in_force(WAVES, monstercat),
                smoothed.height,
                smoothed.bar_values@,
                filtered_values,
            );
        let filter = filter_in_force(WAVES, monstercat);
        if filter != NeighbourFilter::Off {
            let states = choose|states: Seq<Seq<V>>|
                #[trigger] spread_chain(math, filter, smoothed.height, states, bars) && states[0]
                    == smoothed.bar_values@ && states[bars] == filtered_values;
            lemma_zeros_spread_nothing(
                math,
                filter,
                smoothed.height,
                states,
                bars,
                bars,
                zero,
                gain,
            );
        }
    }
    assert forall|x: int| 0 <= x < bars implies #[trigger] steps.sprung.spring_pos@[x] == zero
        && steps.sprung.spring_vel@[x] == zero && !over[x] by {
        assert(spring_stepped(math, steps.filtered, steps.sprung, x));
        assert(filtered_values[x] == zero);
        assert(pre.spring_pos@[x] == zero && pre.spring_vel@[x] == zero);
        assert(call_ensures(M::overshoots, (math, steps.sprung.spring_pos@[x]), over[x]));
    }
    assert(!over.contains(true)) by {
        if over.contains(true) {
            let k = choose|k: int| 0 <= k < over.len() && over[k] == true;
            assert(steps.sprung.spring_pos@[k] == zero);
        }
    }
    assert forall|x: int| 0 <= x < bars implies #[trigger] post.prev_bar@[x] == zero by {
        assert(smoothed.bar_values@[x] == zero);
    }
    assert forall|x: int| 0 <= x < bars implies #[trigger] post.bar_mem@[x] == zero by {
        assert(smoothed.bar_values@[x] == zero);
    }
    assert forall|x: int| 0 <= x < bars implies #[trigger] post.spring_vel@[x] == zero by {
        assert(steps.sprung.spring_pos@[x] == zero);
    }
}

/// Drawing a bar of a display at rest leaves it at rest and asks for blank cells.
proof fn lemma_resting_bar_is_blank<
    V: Copy,
    M: BarMath<V>,
    Q: Fn(V) -> usize,
    F: Fn(V, V, GradientAt) -> Color,
>(
    math: &M,
    eighths: Q,
    color: F,
    max_height: u16,
    pre: SpectrumRenderer<V>,
    post: SpectrumRenderer<V>,
    x: int,
    cells: Seq<Cell>,
    zero: V,
)
    requires
        pre.wf(),
        0 <= x < pre.bars(),
        rests_at(math, zero, pre.sensitivity),
        forall|n: usize| #[trigger] call_ensures(eighths, (zero,), n) ==> n == 0,
        at_rest(pre, zero),
        bar_drawn(math, eighths, color, max_height, pre, post, x, cells),
    ensures
        post == (SpectrumRenderer {
            cap_heights: post.cap_heights,
            cap_active: post.cap_active,
            ..pre
        }),
        post.wf(),
        at_rest(post, zero),
        cells.len() == pre.height,
        all_are(cells, blank_cell()),
{
    let marks = choose|marks: BarMarks<V>|
        #[trigger] bar_drawn_by(math, eighths, color, max_height, pre, post, x, marks, cells);
    assert(pre.spring_pos@[x] == zero && pre.cap_heights@[x] == zero && !pre.cap_active@[x]);
    assert(marks.bar_height == zero && marks.bar_top == zero && !marks.rises);
    assert forall|y: int| 0 <= y < pre.bars() implies #[trigger] post.cap_heights@[y] == zero by {
        assert(pre.cap_heights@[y] == zero);
    }
    assert forall|row: int| 0 <= row < cells.len() implies #[trigger] cells[row]
        == blank_cell() by {
        assert(is_planned(
            colors_at(color, marks.bar_height, pre.hue_phase),
            row_plan(
                post.cap_active@[x],
                marks.cap as int,
                marks.bar as int,
                pre.height - 1 - row,
            ),
            cells[row],
        ));
    }
}

/// Drawing the bars of a display at rest leaves it at rest and asks for blank cells.
proof fn lemma_resting_bars_are_blank<
    V: Copy,
    M: BarMath<V>,
    Q: Fn(V) -> usize,
    F: Fn(V, V, GradientAt) -> Color,
>(
    math: &M,
    eighths: Q,
    color: F,
    max_height: u16,
    states: Seq<SpectrumRenderer<V>>,
    cells: Seq<Seq<Cell>>,
    n: int,
    zero: V,
)
    requires
        states.first().wf(),
        rests_at(math, zero, states.first().sensitivity),
        forall|n: usize| #[trigger] call_ensures(eighths, (zero,), n) ==> n == 0,
        at_rest(states.first(), zero),
        bars_drawn(math, eighths, color, max_height, states, cells),
        cells.len() == states.first().bars(),
        0 <= n <= cells.len(),
    ensures
        states[n] == (SpectrumRenderer {
            cap_heights: states[n].cap_heights,
            cap_active: states[n].cap_active,
            ..states.first()
        }),
        states[n].wf(),
        at_rest(states[n], zero),
        forall|x: int|
            0 <= x < n ==> (#[trigger] cells[x]).len() == states.first().height && all_are(
                cells[x],
                blank_cell(),
            ),
    decreases n,
{
    if n > 0 {
        lemma_resting_bars_are_blank(
            math,
            eighths,
            color,
            max_height,
            states,
            cells,
            n - 1,
            zero,
        );
        assert(bar_drawn(
            math,
            eighths,
            color,
            max_height,
            states[n - 1],
            states[n - 1 + 1],
            n - 1,
            cells[n - 1],
        ));
        lemma_resting_bar_is_blank(
            math,
            eighths,
            color,
            max_height,
            states[n - 1],
            states[n],
            n - 1,
            cells[n - 1],
            zero,
        );
    }
}

/// A silent frame draws nothing: a blank display at rest stays blank and at rest, and no
/// command is sent. Silence does not raise the gain.
pub proof fn law_silent_frame_draws_nothing<
    V: Copy,
    M: BarMath<V>,
    Q: Fn(V) -> usize,
    F: Fn(V, V, GradientAt) -> Color,
>(
    math: &M,
    eighths: Q,
    color: F,
    max_height: u16,
    data: Seq<V>,
    pre: SpectrumRenderer<V>,
    states: Seq<SpectrumRenderer<V>>,
    cells: Seq<Seq<Cell>>,
    columns: Seq<Seq<DrawCommand>>,
    post: SpectrumRenderer<V>,
    zero: V,
)
    requires
        pre.wf(),
        pre.bands_fit(data.len() as int),
        rests_at(math, zero, pre.sensitivity),
        forall|n: usize| #[trigger] call_ensures(eighths, (zero,), n) ==> n == 0,
        at_rest(pre, zero),
        is_blank(pre),
        all_are(data, zero),
        frame_shown_by(
            math,
            eighths,
            color,
            max_height,
            data,
            pre,
            states,
            cells,
            columns,
            post,
        ),
    ensures
        post.wf(),
        at_rest(post, zero),
        is_blank(post),
        post.sensitivity == pre.sensitivity,
        post.width == pre.width,
        post.height == pre.height,
        post.bar_ranges == pre.bar_ranges,
        call_ensures(M::hue_phase, (math, pre.hue_phase, zero), post.hue_phase),
        forall|x: int|
            0 <= x < columns.len() ==> #[trigger] columns[x] == Seq::<DrawCommand>::empty(),
{
    let advanced = states.first();
    let frame = pre.frame_buffer@;
    let width = pre.width as int;
    let height = pre.height as int;
    law_silence_moves_nothing(math, data, pre, advanced, zero);
    law_frame_keeps_the_screen(math, data, pre, advanced);
    lemma_resting_bars_are_blank(
        math,
        eighths,
        color,
        max_height,
        states,
        cells,
        cells.len() as int,
        zero,
    );
    assert forall|x: int| 0 <= x < cells.len() implies shows_column(
        frame,
        width,
        x * strip_width(),
        #[trigger] cells[x],
    ) by {
        let base = x * strip_width();
        assert(0 <= base && base + strip_width() <= cells.len() * strip_width())
            by (nonlinear_arith)
            requires
                base == x * strip_width(),
                0 <= x,
                x + 1 <= cells.len(),
                strip_width() >= 0,
        ;
        assert forall|row: int, offset: int|
            0 <= row < cells[x].len() && 0 <= offset < strip_width() implies frame[
        #[trigger] cell_index(width, base + offset, row)] == strip_cell(cells[x][row], offset) by {
            lemma_index_in_frame(width, base + offset, row, height);
            vstd::arithmetic::mul::lemma_mul_is_commutative(width, height);
            assert(cells[x][row] == blank_cell());
        }
    }
    law_unchanged_frame_needs_no_command(frame, width, cells, columns);
}

/// Silence draws nothing, however long it lasts: a display that is blank and at rest, as a new
/// one is, stays so through any number of silent frames, no cap is activated, and the gain stays
/// as it was. `displays[k]` is the display after `k` frames.
pub proof fn law_silence_draws_nothing<
    V: Copy,
    M: BarMath<V>,
    Q: Fn(V) -> usize,
    F: Fn(V, V, GradientAt) -> Color,
>(
    math: &M,
    eighths: Q,
    color: F,
    max_height: u16,
    frames: Seq<Seq<V>>,
    displays: Seq<SpectrumRenderer<V>>,
    n: int,
    zero: V,
)
    requires
        displays.len() == frames.len() + 1,
        displays[0].wf(),
        rests_at(math, zero, displays[0].sensitivity),
        forall|n: usize| #[trigger] call_ensures(eighths, (zero,), n) ==> n == 0,
        at_rest(displays[0], zero),
        is_blank(displays[0]),
        forall|k: int|
            0 <= k < frames.len() ==> all_are(#[trigger] frames[k], zero) && displays[0].bands_fit(
                frames[k].len() as int,
            ),
        forall|k: int|
            0 <= k < frames.len() ==> frame_shown(
                math,
                eighths,
                color,
                max_height,
                #[trigger] frames[k],
                displays[k],
                displays[k + 1],
            ),
        0 <= n <= frames.len(),
    ensures
        displays[n].wf(),
        at_rest(displays[n], zero),
        is_blank(displays[n]),
        displays[n].sensitivity == displays[0].sensitivity,
        displays[n].bar_ranges == displays[0].bar_ranges,
    decreases n,
{
    if n > 0 {
        law_silence_draws_nothing(
            math,
            eighths,
            color,
            max_height,
            frames,
            displays,
            n - 1,
            zero,
        );
        let data = frames[n - 1];
        let pre = displays[n - 1];
        let post = displays[n - 1 + 1];
        assert(frame_shown(math, eighths, color, max_height, data, pre, post));
        let (states, cells, columns) = choose|
            states: Seq<SpectrumRenderer<V>>,
            cells: Seq<Seq<Cell>>,
            columns: Seq<Seq<DrawCommand>>,
        |
            #[trigger] frame_shown_by(
                math,
                eighths,
                color,
                max_height,
                data,
                pre,
                states,
                cells,
                columns,
                post,
            );
        law_silent_frame_draws_nothing(
            math,
            eighths,
            color,
            max_height,
            data,
            pre,
            states,
            cells,
            columns,
            post,
            zero,
        );
    }
}

} // verus!
