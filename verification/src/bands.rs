//! Which transform bins each bar reads.
use crate::config::{BAR_SPACING, BAR_WIDTH, FFT_SIZE, HIGHER_CUTOFF_FREQ};
use crate::math::BarMath;
use vstd::prelude::*;
use vstd::slice::slice_subrange;

verus! {

/// The number of bins below the upper cutoff frequency. A sample rate of 0 puts every bin
/// below it.
pub open spec fn bins_below_cutoff(sample_rate: u32) -> usize {
    if sample_rate == 0 {
        usize::MAX
    } else {
        ((HIGHER_CUTOFF_FREQ * FFT_SIZE) / sample_rate as int) as usize
    }
}

/// The bins below the upper cutoff frequency reach as far up to it as whole bins can.
pub(crate) proof fn lemma_cutoff_bins(sample_rate: u32)
    requires
        sample_rate > 0,
    ensures
        ({
            let bins = bins_below_cutoff(sample_rate);
            bins * sample_rate <= HIGHER_CUTOFF_FREQ * FFT_SIZE < (bins + 1) * sample_rate
        }),
{
    let r = sample_rate as int;
    let span = HIGHER_CUTOFF_FREQ * FFT_SIZE;
    let q = span / r;
    vstd::arithmetic::div_mod::lemma_fundamental_div_mod(span, r);
    assert(q * r <= span < (q + 1) * r && 0 <= q <= span) by (nonlinear_arith)
        requires
            span == r * q + span % r,
            0 <= span % r < r,
            0 <= span,
    ;
}

/// The number of bins below the upper cutoff frequency: each bin is `sample_rate / FFT_SIZE`
/// hertz wide.
pub fn total_bins(sample_rate: u32) -> (bins: usize)
    ensures
        bins == bins_below_cutoff(sample_rate),
        sample_rate != 0 ==> bins * sample_rate <= HIGHER_CUTOFF_FREQ * FFT_SIZE < (bins + 1)
            * sample_rate,
{
    if sample_rate == 0 {
        return usize::MAX;
    }
    let span: u64 = HIGHER_CUTOFF_FREQ * FFT_SIZE as u64;
    let bins: u64 = span / sample_rate as u64;
    proof {
        let r = sample_rate as int;
        let q = bins as int;
        vstd::arithmetic::div_mod::lemma_fundamental_div_mod(span as int, r);
        assert(q * r <= span < (q + 1) * r) by (nonlinear_arith)
            requires
                span == r * q + span as int % r,
                0 <= span as int % r < r,
        ;
        assert(q <= span) by (nonlinear_arith)
            requires
                q * r <= span,
                r >= 1,
                q >= 0,
        ;
    }
    bins as usize
}

/// The number of bars on a screen: as many as fit side by side, and no more than there are
/// bins.
pub open spec fn bars_on(width: u16, total_bins: usize) -> int {
    let fitting = width as int / (BAR_WIDTH + BAR_SPACING);
    if fitting <= total_bins {
        fitting
    } else {
        total_bins as int
    }
}

/// The number of bars on a screen of `width` columns. It is capped at the number of bins,
/// since more bars would have to share bins at the low end.
pub fn bar_count(width: u16, total_bins: usize) -> (bars: usize)
    ensures
        bars == bars_on(width, total_bins),
        bars <= total_bins,
        bars * (BAR_WIDTH + BAR_SPACING) <= width,
{
    let fitting: usize = width as usize / (BAR_WIDTH + BAR_SPACING);
    if fitting <= total_bins {
        fitting
    } else {
        total_bins
    }
}

/// The last bin that bar `x` may start at: where there are no more bars than bins, each later bar
/// needs a bin of its own behind it.
pub open spec fn latest_start(bars: usize, total_bins: usize, x: int) -> int {
    if bars <= total_bins {
        total_bins - (bars - x)
    } else {
        usize::MAX as int
    }
}

/// Where bar `x` would start if the later bars needed no bins: at its lower edge or, where the
/// bar before it starts there or later, at the bin behind the start of that bar. `bins[s]` is
/// the bin at the lower edge of bar `s`.
pub open spec fn wanted_start(bins: Seq<usize>, bars: usize, total_bins: usize, x: int) -> int
    decreases x, 0int,
{
    if x <= 0 {
        bins[0] as int
    } else {
        larger(bins[x] as int, bar_start(bins, bars, total_bins, x - 1) + 1)
    }
}

/// The first bin of bar `x`: where it would start, but no later than leaves a bin for each later
/// bar.
pub open spec fn bar_start(bins: Seq<usize>, bars: usize, total_bins: usize, x: int) -> int
    decreases x, 1int,
{
    smaller(wanted_start(bins, bars, total_bins, x), latest_start(bars, total_bins, x))
}

/// The bin behind the last one of bar `x`: the lower edge of the next bar, but at least one
/// bin behind the start, never above `total_bins`, and never beyond the last bin that the next
/// bar may start at.
pub open spec fn bar_end(bins: Seq<usize>, bars: usize, total_bins: usize, x: int) -> int {
    smaller(
        larger(bins[x + 1] as int, bar_start(bins, bars, total_bins, x) + 1),
        smaller(latest_start(bars, total_bins, x + 1), total_bins as int),
    )
}

/// The larger of two numbers.
pub open spec fn larger(a: int, b: int) -> int {
    if a >= b {
        a
    } else {
        b
    }
}

/// The smaller of two numbers.
pub open spec fn smaller(a: int, b: int) -> int {
    if a <= b {
        a
    } else {
        b
    }
}

/// Whether the starts of all bars, each one behind the last, can be counted in `usize`.
pub open spec fn starts_countable(bins: Seq<usize>, bars: usize) -> bool {
    forall|j: int| 0 <= j < bars ==> #[trigger] bins[j] + (bars - j) <= usize::MAX
}

/// Whether `ranges` are the bin ranges of the bars with the lower edges `bins`.
pub open spec fn are_bar_ranges(
    ranges: Seq<(usize, usize)>,
    bars: usize,
    total_bins: usize,
    bins: Seq<usize>,
) -> bool {
    &&& ranges.len() == bars
    &&& forall|x: int|
        0 <= x < bars ==> is_bar_range(#[trigger] ranges[x], bins, bars, total_bins, x)
}

/// Whether `range` is the bin range of bar `x`.
pub open spec fn is_bar_range(
    range: (usize, usize),
    bins: Seq<usize>,
    bars: usize,
    total_bins: usize,
    x: int,
) -> bool {
    &&& range.0 == bar_start(bins, bars, total_bins, x)
    &&& range.1 == bar_end(bins, bars, total_bins, x)
}

/// A start is no later than one of the lower edges up to it forces.
proof fn lemma_start_is_forced(bins: Seq<usize>, bars: usize, total_bins: usize, x: int)
    requires
        0 <= x < bins.len(),
    ensures
        exists|j: int|
            0 <= j <= x && wanted_start(bins, bars, total_bins, x) <= #[trigger] bins[j] + (x - j),
    decreases x,
{
    if x > 0 && bins[x] < bar_start(bins, bars, total_bins, x - 1) + 1 {
        lemma_start_is_forced(bins, bars, total_bins, x - 1);
        let j = choose|j: int|
            0 <= j <= x - 1 && wanted_start(bins, bars, total_bins, x - 1) <= #[trigger] bins[j] + (
            x - 1 - j);
        assert(wanted_start(bins, bars, total_bins, x) <= bins[j] + (x - j));
    } else {
        assert(wanted_start(bins, bars, total_bins, x) <= bins[x] + (x - x));
    }
}

/// The bin range `[start, end)` of each bar. `bins[s]` is the bin at the lower edge of bar
/// `s`; at the low end several bars would begin at one bin, and each of these moves on to the
/// bin behind the start of the bar before it. The starts increase strictly, no two ranges
/// overlap, and every bar reads a bin of its own where there are no more bars than bins.
pub fn build_bar_ranges(bars: usize, total_bins: usize, bins: &[usize]) -> (ranges: Vec<
    (usize, usize),
>)
    requires
        bars == 0 || bars < bins@.len(),
        bars <= total_bins || starts_countable(bins@, bars),
    ensures
        are_bar_ranges(ranges@, bars, total_bins, bins@),
        forall|x: int, y: int|
            0 <= x < y < bars ==> (#[trigger] ranges@[x]).0 < (#[trigger] ranges@[y]).0,
        forall|x: int, y: int|
            0 <= x < y < bars ==> (#[trigger] ranges@[x]).1 <= (#[trigger] ranges@[y]).0,
        forall|x: int| 0 <= x < bars ==> (#[trigger] ranges@[x]).1 <= total_bins,
        bars <= total_bins ==> forall|x: int|
            0 <= x < bars ==> (#[trigger] ranges@[x]).0 < ranges@[x].1,
{
    let mut ranges: Vec<(usize, usize)> = Vec::with_capacity(bars);
    let mut last_start: usize = 0;
    for x in 0..bars
        invariant
            bars == 0 || bars < bins@.len(),
            bars <= total_bins || starts_countable(bins@, bars),
            ranges@.len() == x,
            forall|k: int|
                0 <= k < x ==> is_bar_range(#[trigger] ranges@[k], bins@, bars, total_bins, k),
            x == 0 ==> last_start == 0,
            x > 0 ==> last_start == bar_start(bins@, bars, total_bins, x - 1) + 1,
    {
        let wanted: usize = if bins[x] >= last_start {
            bins[x]
        } else {
            last_start
        };
        assert(wanted == wanted_start(bins@, bars, total_bins, x as int));
        let start: usize = if bars <= total_bins && wanted > total_bins - (bars - x) {
            total_bins - (bars - x)
        } else {
            wanted
        };
        assert(start == bar_start(bins@, bars, total_bins, x as int));
        proof {
            if bars > total_bins {
                lemma_start_is_forced(bins@, bars, total_bins, x as int);
                let j = choose|j: int|
                    0 <= j <= x && wanted_start(bins@, bars, total_bins, x as int)
                        <= #[trigger] bins@[j] + (x - j);
                assert(bins@[j] + (bars - j) <= usize::MAX);
            }
        }
        let behind: usize = start + 1;
        let reach: usize = if bins[x + 1] >= behind {
            bins[x + 1]
        } else {
            behind
        };
        let limit: usize = if bars <= total_bins {
            total_bins - (bars - x - 1)
        } else {
            total_bins
        };
        let end: usize = if reach <= limit {
            reach
        } else {
            limit
        };
        ranges.push((start, end));
        last_start = behind;
    }
    proof {
        assert forall|x: int, y: int| 0 <= x < y < bars implies (#[trigger] ranges@[x]).0 < (
        #[trigger] ranges@[y]).0 && ranges@[x].1 <= ranges@[y].0 by {
            law_bars_share_no_bin(ranges@, bars, total_bins, bins@, x, y);
        }
    }
    ranges
}

/// The bars start at strictly increasing bins.
pub proof fn law_starts_increase(
    bins: Seq<usize>,
    bars: usize,
    total_bins: usize,
    x: int,
    y: int,
)
    requires
        0 <= x < y < bars < bins.len(),
        bars <= total_bins || starts_countable(bins, bars),
    ensures
        bar_start(bins, bars, total_bins, x) < bar_start(bins, bars, total_bins, y),
        bar_start(bins, bars, total_bins, x) + (y - x) <= bar_start(bins, bars, total_bins, y),
    decreases y,
{
    if x < y - 1 {
        law_starts_increase(bins, bars, total_bins, x, y - 1);
    }
    if bars > total_bins {
        lemma_start_is_forced(bins, bars, total_bins, y - 1);
        let j = choose|j: int|
            0 <= j <= y - 1 && wanted_start(bins, bars, total_bins, y - 1) <= #[trigger] bins[j] + (
            y - 1 - j);
        assert(bins[j] + (bars - j) <= usize::MAX);
    }
}

/// Whether a bin lies in a range.
pub open spec fn in_range(bin: int, range: (usize, usize)) -> bool {
    range.0 <= bin < range.1
}

/// No two bars read the same bin.
pub proof fn law_bars_share_no_bin(
    ranges: Seq<(usize, usize)>,
    bars: usize,
    total_bins: usize,
    bins: Seq<usize>,
    x: int,
    y: int,
)
    requires
        bars < bins.len(),
        bars <= total_bins || starts_countable(bins, bars),
        are_bar_ranges(ranges, bars, total_bins, bins),
        0 <= x < y < bars,
    ensures
        ranges[x].0 < ranges[y].0,
        ranges[x].1 <= ranges[y].0,
        forall|bin: int|
            !(#[trigger] in_range(bin, ranges[x]) && #[trigger] in_range(bin, ranges[y])),
{
    law_starts_increase(bins, bars, total_bins, x, y);
    if x + 1 < y {
        law_starts_increase(bins, bars, total_bins, x + 1, y);
    }
    assert(is_bar_range(ranges[x], bins, bars, total_bins, x));
    assert(is_bar_range(ranges[y], bins, bars, total_bins, y));
    assert(bar_end(bins, bars, total_bins, x) <= bar_start(bins, bars, total_bins, x + 1));
}

/// Every bar reads at least one bin, the one that it starts at, and none above `total_bins`,
/// wherever there are no more bars than bins.
pub proof fn law_bars_read_a_bin(
    ranges: Seq<(usize, usize)>,
    bars: usize,
    total_bins: usize,
    bins: Seq<usize>,
    x: int,
)
    requires
        bars <= total_bins,
        are_bar_ranges(ranges, bars, total_bins, bins),
        0 <= x < bars,
    ensures
        in_range(ranges[x].0 as int, ranges[x]),
        ranges[x].1 <= total_bins,
{
    assert(is_bar_range(ranges[x], bins, bars, total_bins, x));
}

/// The later bars hold a bar back only where the lower edges are too crowded at the upper end:
/// where each edge leaves a bin for its own bar and every later one, every bar starts at its
/// edge or right behind the start of the bar before it.
pub proof fn law_bars_with_room_are_not_held_back(
    bins: Seq<usize>,
    bars: usize,
    total_bins: usize,
    x: int,
)
    requires
        0 <= x < bars < bins.len(),
        forall|j: int| 0 <= j < bars ==> #[trigger] bins[j] + (bars - j) <= total_bins,
    ensures
        bar_start(bins, bars, total_bins, x) == wanted_start(bins, bars, total_bins, x),
{
    lemma_start_is_forced(bins, bars, total_bins, x);
    let j = choose|j: int|
        0 <= j <= x && wanted_start(bins, bars, total_bins, x) <= #[trigger] bins[j] + (x - j);
    assert(bins[j] + (bars - j) <= total_bins);
}

/// Whether a bin range selects part of a spectrum of `len` bins.
pub open spec fn range_fits(range: (usize, usize), len: int) -> bool {
    range.0 <= range.1 <= len
}

/// Whether `value` is what `math` gives as the strength of the band that `range` selects.
pub open spec fn is_band_level<V, M: BarMath<V>>(
    math: &M,
    data: Seq<V>,
    range: (usize, usize),
    value: V,
) -> bool {
    exists|band: &[V]|
        band@ == data.subrange(range.0 as int, range.1 as int) && #[trigger] call_ensures(
            M::level,
            (math, band),
            value,
        )
}

/// The bins outside the range of a bar have no influence on its strength.
pub proof fn law_bins_outside_have_no_influence<V, M: BarMath<V>>(
    math: &M,
    one: Seq<V>,
    two: Seq<V>,
    range: (usize, usize),
    value: V,
)
    requires
        range_fits(range, one.len() as int),
        range_fits(range, two.len() as int),
        forall|bin: int| #[trigger] in_range(bin, range) ==> one[bin] == two[bin],
    ensures
        is_band_level(math, one, range, value) == is_band_level(math, two, range, value),
{
    let start = range.0 as int;
    let end = range.1 as int;
    assert forall|i: int| 0 <= i < end - start implies one.subrange(start, end)[i] == two.subrange(
        start,
        end,
    )[i] by {
        assert(in_range(start + i, range));
    }
    assert(one.subrange(start, end) =~= two.subrange(start, end));
}

/// The raw strength of one bar: the level of the magnitudes in its bin range.
pub fn compute_bar_value<V, M: BarMath<V>>(data: &[V], range: (usize, usize), math: &M) -> (value:
    V)
    requires
        range_fits(range, data@.len() as int),
    ensures
        is_band_level(math, data@, range, value),
{
    let band = slice_subrange(data, range.0, range.1);
    math.level(band)
}

/// The bins up to the total are exactly those that lie at or below the upper cutoff frequency:
/// bin `b` lies at `b * sample_rate / FFT_SIZE` hertz.
pub proof fn law_total_bins_end_at_the_cutoff(sample_rate: u32, bins: usize, b: usize)
    requires
        call_ensures(total_bins, (sample_rate,), bins),
    ensures
        b <= bins <==> b * sample_rate <= HIGHER_CUTOFF_FREQ * FFT_SIZE,
{
    if b <= bins {
        assert(b * sample_rate <= bins * sample_rate) by (nonlinear_arith)
            requires
                b <= bins,
        ;
    } else {
        assert((bins + 1) * sample_rate <= b * sample_rate) by (nonlinear_arith)
            requires
                bins + 1 <= b,
        ;
    }
}

/// The number of bars is the largest for which the bars fit side by side and each can have a bin
/// of its own.
pub proof fn law_as_many_bars_as_fit(width: u16, total_bins: usize, bars: usize, n: nat)
    requires
        call_ensures(bar_count, (width, total_bins), bars),
    ensures
        n <= bars <==> n * (BAR_WIDTH + BAR_SPACING) <= width && n <= total_bins,
{
}

/// No bin is left out between two bars: each bar ends where the next one starts, up to the last
/// bin. The last bar ends at the upper edge, or one bin behind its start, or at the last bin.
pub proof fn law_no_bin_is_left_out(
    ranges: Seq<(usize, usize)>,
    bars: usize,
    total_bins: usize,
    bins: Seq<usize>,
    x: int,
)
    requires
        bars < bins.len(),
        bars <= total_bins || starts_countable(bins, bars),
        are_bar_ranges(ranges, bars, total_bins, bins),
        0 <= x < bars,
    ensures
        x + 1 < bars && bars <= total_bins ==> ranges[x].1 == ranges[x + 1].0,
        x + 1 < bars ==> ranges[x].1 <= ranges[x + 1].0 && ranges[x].1 <= total_bins && (
        ranges[x].1 == ranges[x + 1].0 || ranges[x].1 == total_bins),
        x + 1 == bars ==> ranges[x].1 <= total_bins && (ranges[x].1 == total_bins || ranges[x].1
            == bins[bars as int] && ranges[x].0 < ranges[x].1 || ranges[x].1 == ranges[x].0 + 1
            && bins[bars as int] <= ranges[x].0),
        x + 1 == bars && ranges[x].1 == total_bins ==> total_bins <= bins[bars as int]
            || total_bins <= ranges[x].0 + 1,
{
    assert(is_bar_range(ranges[x], bins, bars, total_bins, x));
    if x + 1 < bars {
        assert(is_bar_range(ranges[x + 1], bins, bars, total_bins, x + 1));
        law_starts_increase(bins, bars, total_bins, x, x + 1);
        if bars > total_bins {
            lemma_start_is_forced(bins, bars, total_bins, x + 1);
            let j = choose|j: int|
                0 <= j <= x + 1 && wanted_start(bins, bars, total_bins, x + 1)
                    <= #[trigger] bins[j] + (x + 1 - j);
            assert(bins[j] + (bars - j) <= usize::MAX);
        }
    }
}

/// The bars start as early as they can. Each starts at its lower edge or behind it, but leaves a
/// bin for itself and for each later bar where there are no more bars than bins; the starts
/// increase strictly; and of all such starts `others` none is earlier.
pub proof fn law_bars_start_as_early_as_they_can(
    ranges: Seq<(usize, usize)>,
    bars: usize,
    total_bins: usize,
    bins: Seq<usize>,
    others: Seq<int>,
    x: int,
)
    requires
        bars < bins.len(),
        bars <= total_bins || starts_countable(bins, bars),
        are_bar_ranges(ranges, bars, total_bins, bins),
        others.len() == bars,
        forall|y: int|
            0 <= y < bars ==> vstd::math::min(
                bins[y] as int,
                if bars <= total_bins {
                    total_bins - (bars - y)
                } else {
                    usize::MAX as int
                },
            ) <= #[trigger] others[y],
        forall|y: int, z: int| 0 <= y < z < bars ==> #[trigger] others[y] < #[trigger] others[z],
        0 <= x < bars,
    ensures
        bins[x] <= ranges[x].0 || bars <= total_bins && ranges[x].0 == total_bins - (bars - x),
        bars <= total_bins ==> ranges[x].0 <= total_bins - (bars - x),
        x > 0 ==> ranges[x - 1].0 < ranges[x].0,
        ranges[x].0 <= others[x],
    decreases x,
{
    assert(is_bar_range(ranges[x], bins, bars, total_bins, x));
    if bars > total_bins {
        lemma_start_is_forced(bins, bars, total_bins, x);
        let j = choose|j: int|
            0 <= j <= x && wanted_start(bins, bars, total_bins, x) <= #[trigger] bins[j] + (x - j);
        assert(bins[j] + (bars - j) <= usize::MAX);
    }
    if x > 0 {
        assert(is_bar_range(ranges[x - 1], bins, bars, total_bins, x - 1));
        law_bars_start_as_early_as_they_can(ranges, bars, total_bins, bins, others, x - 1);
        law_starts_increase(bins, bars, total_bins, x - 1, x);
        assert(others[x - 1] < others[x]);
    }
}

/// The ranges that are built are those of the bars: one for each bar, without a gap, each as
/// early as it can be.
pub proof fn law_built_ranges_are_the_bars(
    bars: usize,
    total_bins: usize,
    bins: &[usize],
    ranges: Vec<(usize, usize)>,
    others: Seq<int>,
    x: int,
)
    requires
        bars < bins@.len(),
        bars <= total_bins || starts_countable(bins@, bars),
        call_ensures(build_bar_ranges, (bars, total_bins, bins), ranges),
        others.len() == bars,
        forall|y: int|
            0 <= y < bars ==> vstd::math::min(
                bins@[y] as int,
                if bars <= total_bins {
                    total_bins - (bars - y)
                } else {
                    usize::MAX as int
                },
            ) <= #[trigger] others[y],
        forall|y: int, z: int| 0 <= y < z < bars ==> #[trigger] others[y] < #[trigger] others[z],
        0 <= x < bars,
    ensures
        ranges@.len() == bars,
        bins@[x] <= ranges@[x].0 || bars <= total_bins && ranges@[x].0 == total_bins - (bars - x),
        bars <= total_bins ==> ranges@[x].0 <= total_bins - (bars - x),
        ranges@[x].0 <= others[x],
        x > 0 ==> ranges@[x - 1].0 < ranges@[x].0,
        x + 1 < bars && bars <= total_bins ==> ranges@[x].1 == ranges@[x + 1].0,
        x + 1 < bars ==> ranges@[x].1 <= ranges@[x + 1].0 && ranges@[x].1 <= total_bins && (
        ranges@[x].1 == ranges@[x + 1].0 || ranges@[x].1 == total_bins),
        x + 1 == bars && ranges@[x].0 < bins@[bars as int] <= total_bins ==> ranges@[x].1
            == bins@[bars as int],
        x + 1 == bars && bars <= total_bins <= bins@[bars as int] ==> ranges@[x].1 == total_bins,
        x + 1 == bars && bars <= total_bins && bins@[bars as int] <= ranges@[x].0 ==> ranges@[x].1
            == ranges@[x].0 + 1,
{
    law_no_bin_is_left_out(ranges@, bars, total_bins, bins@, x);
    law_bars_start_as_early_as_they_can(ranges@, bars, total_bins, bins@, others, x);
    if bars <= total_bins {
        law_bars_read_a_bin(ranges@, bars, total_bins, bins@, x);
    }
}

/// Whether `value` is what `math` gives as the level of exactly the bins in a range, in their
/// order.
pub open spec fn is_level_of_bins<V, M: BarMath<V>>(
    math: &M,
    data: Seq<V>,
    range: (usize, usize),
    value: V,
) -> bool {
    exists|band: &[V]|
        #[trigger] call_ensures(M::level, (math, band), value) && band@.len() == range.1 - range.0
            && forall|i: int| 0 <= i < band@.len() ==> #[trigger] band@[i] == data[range.0 + i]
}

/// The band that a range selects is made of its bins.
pub(crate) proof fn lemma_band_is_its_bins<V, M: BarMath<V>>(
    math: &M,
    data: Seq<V>,
    range: (usize, usize),
    value: V,
)
    requires
        range_fits(range, data.len() as int),
        is_band_level(math, data, range, value),
    ensures
        is_level_of_bins(math, data, range, value),
{
    let band = choose|band: &[V]|
        band@ == data.subrange(range.0 as int, range.1 as int) && #[trigger] call_ensures(
            M::level,
            (math, band),
            value,
        );
    assert(call_ensures(M::level, (math, band), value));
}

/// The strength of a bar is the level of exactly the bins in its range, in their order.
pub proof fn law_strength_is_the_level_of_the_band<V, M: BarMath<V>>(
    data: &[V],
    range: (usize, usize),
    math: &M,
    value: V,
)
    requires
        range.0 <= range.1 <= data@.len(),
        call_ensures(compute_bar_value::<V, M>, (data, range, math), value),
    ensures
        is_level_of_bins(math, data@, range, value),
{
    lemma_band_is_its_bins(math, data@, range, value);
}

} // verus!
