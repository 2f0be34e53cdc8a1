//! How the bars move from one frame to the next.
use crate::bands::{
    compute_bar_value, is_band_level, is_level_of_bins, lemma_band_is_its_bins, range_fits,
};
use crate::config::WAVES;
use crate::math::BarMath;
use crate::renderer::SpectrumRenderer;
use vstd::prelude::*;

verus! {

/// Whether `post` is `pre` with the raw strengths of a frame: of each bar, the level of its
/// band.
pub open spec fn measured<V: Copy, M: BarMath<V>>(
    math: &M,
    data: Seq<V>,
    pre: SpectrumRenderer<V>,
    post: SpectrumRenderer<V>,
) -> bool {
    &&& post == (SpectrumRenderer { bar_values: post.bar_values, ..pre })
    &&& post.bar_values@.len() == pre.bars()
    &&& forall|x: int|
        0 <= x < pre.bars() ==> is_band_level(
            math,
            data,
            pre.bar_ranges@[x],
            #[trigger] post.bar_values@[x],
        )
}

/// What the smoothing keeps of one bar.
pub struct BarState<V> {
    pub value: V,
    pub prev: V,
    pub peak: V,
    pub fall: V,
    pub mem: V,
}

/// What the smoothing keeps of bar `x`.
pub open spec fn bar_state<V: Copy>(renderer: SpectrumRenderer<V>, x: int) -> BarState<V> {
    BarState {
        value: renderer.bar_values@[x],
        prev: renderer.prev_bar@[x],
        peak: renderer.bar_peak@[x],
        fall: renderer.bar_fall@[x],
        mem: renderer.bar_mem@[x],
    }
}

/// Whether a bar falls or not, and what it shows then: a bar that falls follows the fall-off
/// curve from its peak, any other takes its amplified value and starts a new peak there.
pub open spec fn falls_to<V: Copy, M: BarMath<V>>(
    math: &M,
    pre: BarState<V>,
    amplified: V,
    falling: bool,
    post: BarState<V>,
) -> bool {
    &&& call_ensures(M::falling, (math, amplified, pre.prev), falling)
    &&& if falling {
        &&& call_ensures(M::fall_off, (math, pre.peak, pre.fall), post.prev)
        &&& call_ensures(M::next_fall, (math, pre.fall), post.fall)
        &&& post.peak == pre.peak
    } else {
        &&& post.prev == amplified
        &&& post.peak == amplified
        &&& call_ensures(M::no_fall, (math,), post.fall)
    }
}

/// Whether the smoothing takes one bar from `pre` to `post` under a gain: the value is
/// amplified, falls or not, and goes through the low-pass filter, whose output is both the new
/// value and the new memory.
pub open spec fn smoothed<V: Copy, M: BarMath<V>>(
    math: &M,
    sensitivity: V,
    pre: BarState<V>,
    post: BarState<V>,
) -> bool {
    &&& exists|amplified: V, falling: bool|
        call_ensures(M::amplify, (math, pre.value, sensitivity), amplified)
            && #[trigger] falls_to(math, pre, amplified, falling, post)
    &&& call_ensures(M::integrate, (math, pre.mem, post.prev), post.mem)
    &&& post.value == post.mem
}

/// Whether `post` is `pre` with bar `x` smoothed.
pub open spec fn bar_smoothed<V: Copy, M: BarMath<V>>(
    math: &M,
    pre: SpectrumRenderer<V>,
    post: SpectrumRenderer<V>,
    x: int,
) -> bool {
    smoothed(math, pre.sensitivity, bar_state(pre, x), bar_state(post, x))
}

/// Whether `post` is `pre` with every bar smoothed.
pub open spec fn all_smoothed<V: Copy, M: BarMath<V>>(
    math: &M,
    pre: SpectrumRenderer<V>,
    post: SpectrumRenderer<V>,
) -> bool {
    &&& post == (SpectrumRenderer {
        bar_values: post.bar_values,
        prev_bar: post.prev_bar,
        bar_peak: post.bar_peak,
        bar_fall: post.bar_fall,
        bar_mem: post.bar_mem,
        ..pre
    })
    &&& post.wf()
    &&& forall|x: int| 0 <= x < pre.bars() ==> #[trigger] bar_smoothed(math, pre, post, x)
}

/// The filters that let a strong bar lift its neighbours.
#[derive(Clone, Copy, Debug, PartialEq, Eq, Structural)]
pub enum NeighbourFilter {
    Off,
    Waves,
    Monstercat,
}

/// The filter that is in force. The quadratic one goes first.
pub open spec fn filter_in_force(waves: usize, monstercat: bool) -> NeighbourFilter {
    if waves > 0 {
        NeighbourFilter::Waves
    } else if monstercat {
        NeighbourFilter::Monstercat
    } else {
        NeighbourFilter::Off
    }
}

/// The filter that is in force. The quadratic one goes first.
pub fn neighbour_filter(waves: usize, monstercat: bool) -> (filter: NeighbourFilter)
    ensures
        filter == filter_in_force(waves, monstercat),
{
    if waves > 0 {
        NeighbourFilter::Waves
    } else if monstercat {
        NeighbourFilter::Monstercat
    } else {
        NeighbourFilter::Off
    }
}

/// Whether a filter leaves a bar of the value `before` at `after` before it spreads it.
pub open spec fn is_spread_base<V: Copy, M: BarMath<V>>(
    math: &M,
    filter: NeighbourFilter,
    before: V,
    after: V,
) -> bool {
    if filter == NeighbourFilter::Waves {
        call_ensures(M::waves_base, (math, before), after)
    } else {
        after == before
    }
}

/// Whether `lifted` is what a filter spreads from a bar of the value `base` over a distance.
pub open spec fn is_spread<V: Copy, M: BarMath<V>>(
    math: &M,
    filter: NeighbourFilter,
    height: u16,
    base: V,
    distance: usize,
    lifted: V,
) -> bool {
    if filter == NeighbourFilter::Waves {
        call_ensures(M::waves_spread, (math, base, distance, height), lifted)
    } else {
        call_ensures(M::monstercat_spread, (math, base, distance), lifted)
    }
}

/// The distance between two bars.
pub open spec fn bar_distance(x: int, y: int) -> int {
    if x <= y {
        y - x
    } else {
        x - y
    }
}

/// Whether a bar at a distance goes from `before` to `after` when a bar of the value `base`
/// spreads: it is lifted to what reaches it, where that is more than it has.
pub open spec fn lifts<V: Copy, M: BarMath<V>>(
    math: &M,
    filter: NeighbourFilter,
    height: u16,
    base: V,
    distance: usize,
    before: V,
    after: V,
) -> bool {
    exists|lifted: V, exceeds: bool|
        is_spread(math, filter, height, base, distance, lifted) && #[trigger] call_ensures(
            M::exceeds,
            (math, lifted, before),
            exceeds,
        ) && after == if exceeds {
            lifted
        } else {
            before
        }
}

/// Whether `post` are the values `pre` after bar `z` has spread to every other bar.
pub open spec fn spread_from<V: Copy, M: BarMath<V>>(
    math: &M,
    filter: NeighbourFilter,
    height: u16,
    pre: Seq<V>,
    post: Seq<V>,
    z: int,
) -> bool {
    &&& post.len() == pre.len()
    &&& is_spread_base(math, filter, pre[z], post[z])
    &&& forall|y: int|
        0 <= y < pre.len() && y != z ==> lifts(
            math,
            filter,
            height,
            post[z],
            bar_distance(z, y) as usize,
            pre[y],
            #[trigger] post[y],
        )
}

/// Whether `states` are the values before and after the first `n` bars have spread, one after
/// the other.
pub open spec fn spread_chain<V: Copy, M: BarMath<V>>(
    math: &M,
    filter: NeighbourFilter,
    height: u16,
    states: Seq<Seq<V>>,
    n: int,
) -> bool {
    &&& states.len() == n + 1
    &&& forall|z: int|
        0 <= z < n ==> spread_from(
            math,
            filter,
            height,
            states[z],
            #[trigger] states[z + 1],
            z,
        )
}

/// Whether a filter takes the values `pre` to `post`: each bar in turn spreads, and `Off`
/// changes nothing.
pub open spec fn filtered<V: Copy, M: BarMath<V>>(
    math: &M,
    filter: NeighbourFilter,
    height: u16,
    pre: Seq<V>,
    post: Seq<V>,
) -> bool {
    if filter == NeighbourFilter::Off {
        post == pre
    } else {
        exists|states: Seq<Seq<V>>|
            #[trigger] spread_chain(math, filter, height, states, pre.len() as int) && states[0]
                == pre && states[pre.len() as int] == post
    }
}

/// Whether `post` is `pre` after the filter in force.
pub open spec fn neighbours_filtered<V: Copy, M: BarMath<V>>(
    math: &M,
    pre: SpectrumRenderer<V>,
    post: SpectrumRenderer<V>,
) -> bool {
    &&& post == (SpectrumRenderer { bar_values: post.bar_values, ..pre })
    &&& exists|monstercat: bool|
        #[trigger] call_ensures(M::monstercat, (math,), monstercat) && filtered(
            math,
            filter_in_force(WAVES, monstercat),
            pre.height,
            pre.bar_values@,
            post.bar_values@,
        )
}

/// Whether `post` is `pre` with the spring of bar `x` one step on.
pub open spec fn spring_stepped<V: Copy, M: BarMath<V>>(
    math: &M,
    pre: SpectrumRenderer<V>,
    post: SpectrumRenderer<V>,
    x: int,
) -> bool {
    call_ensures(
        M::spring,
        (math, pre.bar_values@[x], pre.spring_pos@[x], pre.spring_vel@[x]),
        (post.spring_pos@[x], post.spring_vel@[x]),
    )
}

/// Whether `post` is `pre` with every spring one step on, and `over` tells of each bar whether
/// it overshoots then.
pub open spec fn all_springs_stepped<V: Copy, M: BarMath<V>>(
    math: &M,
    pre: SpectrumRenderer<V>,
    post: SpectrumRenderer<V>,
    over: Seq<bool>,
) -> bool {
    &&& post == (SpectrumRenderer {
        spring_pos: post.spring_pos,
        spring_vel: post.spring_vel,
        ..pre
    })
    &&& post.wf()
    &&& over.len() == pre.bars()
    &&& forall|x: int| 0 <= x < pre.bars() ==> #[trigger] spring_stepped(math, pre, post, x)
    &&& forall|x: int|
        0 <= x < pre.bars() ==> call_ensures(
            M::overshoots,
            (math, post.spring_pos@[x]),
            #[trigger] over[x],
        )
}

/// Whether the automatic gain goes from `pre` to `post` after a frame: it shrinks after an
/// overshoot, else it grows unless the frame was silent.
pub open spec fn gain_adjusted<V: Copy, M: BarMath<V>>(
    math: &M,
    silence: bool,
    overshoot: bool,
    pre: V,
    post: V,
) -> bool {
    if overshoot {
        call_ensures(M::shrink, (math, pre), post)
    } else if !silence {
        call_ensures(M::grow, (math, pre), post)
    } else {
        post == pre
    }
}

/// Whether `post` is `pre` with the cap of bar `x` moved for this frame: a bar that rises above
/// its cap takes it along and activates it, else the cap falls towards the bar.
pub open spec fn cap_moved<V: Copy, M: BarMath<V>>(
    math: &M,
    pre: SpectrumRenderer<V>,
    post: SpectrumRenderer<V>,
    x: int,
    bar_top: V,
    rises: bool,
) -> bool {
    &&& call_ensures(M::exceeds, (math, bar_top, pre.cap_heights@[x]), rises)
    &&& post == (SpectrumRenderer {
        cap_heights: post.cap_heights,
        cap_active: post.cap_active,
        ..pre
    })
    &&& post.wf()
    &&& forall|y: int| 0 <= y < pre.bars() && y != x ==> #[trigger] post.cap_heights@[y]
        == pre.cap_heights@[y]
    &&& post.cap_active@ == pre.cap_active@.update(x, pre.cap_active@[x] || rises)
    &&& if rises {
        post.cap_heights@[x] == bar_top
    } else {
        call_ensures(M::cap_fall, (math, pre.cap_heights@[x], bar_top), post.cap_heights@[x])
    }
}

/// A cap that has been activated stays so.
pub proof fn law_active_caps_stay<V: Copy, M: BarMath<V>>(
    math: &M,
    pre: SpectrumRenderer<V>,
    post: SpectrumRenderer<V>,
    x: int,
    bar_top: V,
    rises: bool,
    y: int,
)
    requires
        pre.wf(),
        0 <= x < pre.bars(),
        0 <= y < pre.bars(),
        cap_moved(math, pre, post, x, bar_top, rises),
    ensures
        pre.cap_active@[y] ==> post.cap_active@[y],
        !pre.cap_active@[y] && post.cap_active@[y] ==> y == x && rises,
{
}

impl<V: Copy> SpectrumRenderer<V> {
    /// Whether the band of every bar lies within a spectrum of `len` bins.
    pub open spec fn bands_fit(&self, len: int) -> bool {
        forall|x: int| 0 <= x < self.bars() ==> range_fits(#[trigger] self.bar_ranges@[x], len)
    }

    /// Whether the band of every bar lies within a spectrum of `len` bins.
    pub fn fits(&self, len: usize) -> (fit: bool)
        ensures
            fit == self.bands_fit(len as int),
    {
        for x in 0..self.bar_ranges.len()
            invariant
                forall|y: int| 0 <= y < x ==> range_fits(#[trigger] self.bar_ranges@[y], len as int),
        {
            let range = self.bar_ranges[x];
            if range.0 > range.1 || range.1 > len {
                assert(!range_fits(self.bar_ranges@[x as int], len as int));
                return false;
            }
        }
        true
    }

    /// The height of a full bar in cells: the top row is left to the cap.
    pub fn max_height(&self) -> (rows: u16)
        requires
            self.height > 0,
        ensures
            rows == self.height - 1,
    {
        self.height - 1
    }

    /// Takes the raw strength of every bar from a spectrum.
    pub fn measure<M: BarMath<V>>(&mut self, data: &[V], math: &M)
        requires
            old(self).wf(),
            old(self).bands_fit(data@.len() as int),
        ensures
            final(self).wf(),
            measured(math, data@, *old(self), *final(self)),
    {
        let bars: usize = self.bar_ranges.len();
        for x in 0..bars
            invariant
                bars == old(self).bars(),
                self.wf(),
                old(self).wf(),
                old(self).bands_fit(data@.len() as int),
                *self == (SpectrumRenderer { bar_values: self.bar_values, ..*old(self) }),
                forall|y: int|
                    0 <= y < x ==> is_band_level(
                        math,
                        data@,
                        old(self).bar_ranges@[y],
                        #[trigger] self.bar_values@[y],
                    ),
        {
            let range = self.bar_ranges[x];
            assert(range_fits(old(self).bar_ranges@[x as int], data@.len() as int));
            let value = compute_bar_value(data, range, math);
            self.bar_values[x] = value;
        }
    }

    /// The noise-reducing smoothing of every bar. The result is what the springs go towards.
    pub fn apply_cava_smoothing<M: BarMath<V>>(&mut self, math: &M)
        requires
            old(self).wf(),
        ensures
            final(self).wf(),
            all_smoothed(math, *old(self), *final(self)),
    {
        let bars: usize = self.bar_values.len();
        for x in 0..bars
            invariant
                bars == old(self).bars(),
                self.wf(),
                old(self).wf(),
                *self == (SpectrumRenderer {
                    bar_values: self.bar_values,
                    prev_bar: self.prev_bar,
                    bar_peak: self.bar_peak,
                    bar_fall: self.bar_fall,
                    bar_mem: self.bar_mem,
                    ..*old(self)
                }),
                forall|y: int|
                    0 <= y < x ==> #[trigger] bar_smoothed(math, *old(self), *self, y),
                forall|y: int|
                    x <= y < self.bars() ==> #[trigger] bar_state(*self, y) == bar_state(
                        *old(self),
                        y,
                    ),
        {
            let ghost before = *self;
            assert(bar_state(before, x as int) == bar_state(*old(self), x as int));
            let amplified = math.amplify(self.bar_values[x], self.sensitivity);
            let falling = math.falling(amplified, self.prev_bar[x]);
            let shown = if falling {
                let fallen = math.fall_off(self.bar_peak[x], self.bar_fall[x]);
                let fall = math.next_fall(self.bar_fall[x]);
                self.bar_fall[x] = fall;
                fallen
            } else {
                let fall = math.no_fall();
                self.bar_peak[x] = amplified;
                self.bar_fall[x] = fall;
                amplified
            };
            self.prev_bar[x] = shown;
            let value = math.integrate(self.bar_mem[x], shown);
            self.bar_mem[x] = value;
            self.bar_values[x] = value;
            proof {
                assert(falls_to(
                    math,
                    bar_state(*old(self), x as int),
                    amplified,
                    falling,
                    bar_state(*self, x as int),
                ));
                assert(bar_smoothed(math, *old(self), *self, x as int));
                assert forall|y: int| 0 <= y < x implies #[trigger] bar_smoothed(
                    math,
                    *old(self),
                    *self,
                    y,
                ) by {
                    assert(bar_smoothed(math, *old(self), before, y));
                    assert(bar_state(*self, y) == bar_state(before, y));
                }
                assert forall|y: int| x + 1 <= y < self.bars() implies #[trigger] bar_state(
                    *self,
                    y,
                ) == bar_state(*old(self), y) by {
                    assert(bar_state(before, y) == bar_state(*old(self), y));
                }
            }
        }
    }

    /// Lets a bar of the value `base` spread to bar `y` at a distance.
    fn lift<M: BarMath<V>>(
        &mut self,
        filter: NeighbourFilter,
        base: V,
        distance: usize,
        y: usize,
        math: &M,
    )
        requires
            old(self).wf(),
            filter != NeighbourFilter::Off,
            y < old(self).bars(),
        ensures
            final(self).wf(),
            *final(self) == (SpectrumRenderer {
                bar_values: final(self).bar_values,
                ..*old(self)
            }),
            lifts(
                math,
                filter,
                old(self).height,
                base,
                distance,
                old(self).bar_values@[y as int],
                final(self).bar_values@[y as int],
            ),
            forall|w: int|
                0 <= w < old(self).bars() && w != y ==> #[trigger] final(self).bar_values@[w]
                    == old(self).bar_values@[w],
    {
        let lifted = match filter {
            NeighbourFilter::Waves => math.waves_spread(base, distance, self.height),
            _ => math.monstercat_spread(base, distance),
        };
        let exceeds = math.exceeds(lifted, self.bar_values[y]);
        if exceeds {
            self.bar_values[y] = lifted;
        }
    }

    /// Lets bar `z` spread to every other bar: first to those below it, from the nearest
    /// downwards, then to those above it.
    pub fn spread<M: BarMath<V>>(&mut self, filter: NeighbourFilter, z: usize, math: &M)
        requires
            old(self).wf(),
            filter != NeighbourFilter::Off,
            z < old(self).bars(),
        ensures
            final(self).wf(),
            *final(self) == (SpectrumRenderer {
                bar_values: final(self).bar_values,
                ..*old(self)
            }),
            spread_from(
                math,
                filter,
                old(self).height,
                old(self).bar_values@,
                final(self).bar_values@,
                z as int,
            ),
    {
        match filter {
            NeighbourFilter::Waves => {
                let softened = math.waves_base(self.bar_values[z]);
                self.bar_values[z] = softened;
            },
            _ => {},
        }
        let base = self.bar_values[z];
        let bars: usize = self.bar_values.len();
        let mut y: usize = z;
        while y > 0
            invariant
                self.wf(),
                old(self).wf(),
                filter != NeighbourFilter::Off,
                y <= z < bars,
                bars == old(self).bars(),
                *self == (SpectrumRenderer { bar_values: self.bar_values, ..*old(self) }),
                self.bar_values@[z as int] == base,
                is_spread_base(math, filter, old(self).bar_values@[z as int], base),
                forall|w: int|
                    y <= w < z ==> lifts(
                        math,
                        filter,
                        old(self).height,
                        base,
                        bar_distance(z as int, w) as usize,
                        old(self).bar_values@[w],
                        #[trigger] self.bar_values@[w],
                    ),
                forall|w: int|
                    0 <= w < bars && (w < y || z < w) ==> #[trigger] self.bar_values@[w] == old(
                        self,
                    ).bar_values@[w],
            decreases y,
        {
            y = y - 1;
            self.lift(filter, base, z - y, y, math);
        }
        let mut y: usize = z + 1;
        while y < bars
            invariant
                self.wf(),
                old(self).wf(),
                filter != NeighbourFilter::Off,
                z < y <= bars,
                bars == old(self).bars(),
                *self == (SpectrumRenderer { bar_values: self.bar_values, ..*old(self) }),
                self.bar_values@[z as int] == base,
                is_spread_base(math, filter, old(self).bar_values@[z as int], base),
                forall|w: int|
                    0 <= w < y && w != z ==> lifts(
                        math,
                        filter,
                        old(self).height,
                        base,
                        bar_distance(z as int, w) as usize,
                        old(self).bar_values@[w],
                        #[trigger] self.bar_values@[w],
                    ),
                forall|w: int|
                    y <= w < bars ==> #[trigger] self.bar_values@[w] == old(self).bar_values@[w],
            decreases bars - y,
        {
            self.lift(filter, base, y - z, y, math);
            y = y + 1;
        }
    }

    /// Lets every bar in turn spread by a filter.
    pub fn spread_all<M: BarMath<V>>(&mut self, filter: NeighbourFilter, math: &M)
        requires
            old(self).wf(),
        ensures
            final(self).wf(),
            *final(self) == (SpectrumRenderer {
                bar_values: final(self).bar_values,
                ..*old(self)
            }),
            filtered(
                math,
                filter,
                old(self).height,
                old(self).bar_values@,
                final(self).bar_values@,
            ),
    {
        match filter {
            NeighbourFilter::Off => {
                return;
            },
            _ => {},
        }
        let bars: usize = self.bar_values.len();
        let ghost mut states: Seq<Seq<V>> = seq![self.bar_values@];
        for z in 0..bars
            invariant
                self.wf(),
                old(self).wf(),
                bars == old(self).bars(),
                filter != NeighbourFilter::Off,
                *self == (SpectrumRenderer { bar_values: self.bar_values, ..*old(self) }),
                spread_chain(math, filter, old(self).height, states, z as int),
                states[0] == old(self).bar_values@,
                states[z as int] == self.bar_values@,
        {
            let ghost before = states;
            self.spread(filter, z, math);
            proof {
                states = before.push(self.bar_values@);
                assert forall|w: int| 0 <= w < z + 1 implies spread_from(
                    math,
                    filter,
                    old(self).height,
                    states[w],
                    #[trigger] states[w + 1],
                    w,
                ) by {
                    if w < z {
                        assert(states[w + 1] == before[w + 1]);
                    }
                }
            }
        }
    }

    /// The neighbour filter: strong bars lift the bars beside them.
    pub fn apply_monstercat_filter<M: BarMath<V>>(&mut self, math: &M)
        requires
            old(self).wf(),
        ensures
            final(self).wf(),
            neighbours_filtered(math, *old(self), *final(self)),
    {
        let monstercat = math.monstercat();
        let filter = neighbour_filter(WAVES, monstercat);
        self.spread_all(filter, math);
    }

    /// One step of the spring of bar `x` towards the value of the bar. Returns the new
    /// position.
    pub fn step_spring<M: BarMath<V>>(&mut self, x: usize, math: &M) -> (position: V)
        requires
            old(self).wf(),
            x < old(self).bars(),
        ensures
            final(self).wf(),
            *final(self) == (SpectrumRenderer {
                spring_pos: final(self).spring_pos,
                spring_vel: final(self).spring_vel,
                ..*old(self)
            }),
            spring_stepped(math, *old(self), *final(self), x as int),
            position == final(self).spring_pos@[x as int],
            forall|y: int|
                0 <= y < old(self).bars() && y != x ==> #[trigger] final(self).spring_pos@[y]
                    == old(self).spring_pos@[y],
            forall|y: int|
                0 <= y < old(self).bars() && y != x ==> #[trigger] final(self).spring_vel@[y]
                    == old(self).spring_vel@[y],
    {
        let (position, velocity) = math.spring(
            self.bar_values[x],
            self.spring_pos[x],
            self.spring_vel[x],
        );
        self.spring_pos[x] = position;
        self.spring_vel[x] = velocity;
        position
    }

    /// One step of every spring. Returns whether any bar overshoots then.
    pub fn step_springs<M: BarMath<V>>(&mut self, math: &M) -> (overshoot: bool)
        requires
            old(self).wf(),
        ensures
            final(self).wf(),
            exists|over: Seq<bool>|
                #[trigger] all_springs_stepped(math, *old(self), *final(self), over) && overshoot
                    == over.contains(true),
    {
        let mut overshoot = false;
        let ghost mut over: Seq<bool> = seq![];
        let bars: usize = self.bar_ranges.len();
        for x in 0..bars
            invariant
                bars == old(self).bars(),
                self.wf(),
                old(self).wf(),
                *self == (SpectrumRenderer {
                    spring_pos: self.spring_pos,
                    spring_vel: self.spring_vel,
                    ..*old(self)
                }),
                over.len() == x,
                overshoot == over.contains(true),
                forall|y: int|
                    0 <= y < x ==> #[trigger] spring_stepped(math, *old(self), *self, y),
                forall|y: int|
                    0 <= y < x ==> call_ensures(
                        M::overshoots,
                        (math, self.spring_pos@[y]),
                        #[trigger] over[y],
                    ),
                forall|y: int|
                    x <= y < self.bars() ==> #[trigger] self.spring_pos@[y] == old(
                        self,
                    ).spring_pos@[y],
                forall|y: int|
                    x <= y < self.bars() ==> #[trigger] self.spring_vel@[y] == old(
                        self,
                    ).spring_vel@[y],
        {
            let ghost before = *self;
            let ghost over_before = over;
            let position = self.step_spring(x, math);
            let beyond = math.overshoots(position);
            if beyond {
                overshoot = true;
            }
            proof {
                over = over_before.push(beyond);
                assert forall|y: int| 0 <= y < x + 1 implies #[trigger] spring_stepped(
                    math,
                    *old(self),
                    *self,
                    y,
                ) by {
                    if y < x {
                        assert(spring_stepped(math, *old(self), before, y));
                    }
                }
                assert forall|y: int| 0 <= y < x + 1 implies call_ensures(
                    M::overshoots,
                    (math, self.spring_pos@[y]),
                    #[trigger] over[y],
                ) by {
                    if y < x {
                        assert(over[y] == over_before[y]);
                    }
                }
                if over_before.contains(true) {
                    let k = choose|k: int| 0 <= k < over_before.len() && over_before[k] == true;
                    assert(over[k] == true);
                }
                if beyond {
                    assert(over[x as int] == true);
                }
                if over.contains(true) && !beyond {
                    let k = choose|k: int| 0 <= k < over.len() && over[k] == true;
                    assert(over_before[k] == true);
                }
            }
        }
        assert(all_springs_stepped(math, *old(self), *self, over));
        overshoot
    }

    /// Adjusts the automatic gain after a frame.
    pub fn update_autosens<M: BarMath<V>>(&mut self, silence: bool, overshoot: bool, math: &M)
        requires
            old(self).wf(),
        ensures
            final(self).wf(),
            *final(self) == (SpectrumRenderer { sensitivity: final(self).sensitivity, ..*old(self) }),
            gain_adjusted(
                math,
                silence,
                overshoot,
                old(self).sensitivity,
                final(self).sensitivity,
            ),
    {
        if overshoot {
            self.sensitivity = math.shrink(self.sensitivity);
        } else if !silence {
            self.sensitivity = math.grow(self.sensitivity);
        }
    }

    /// The height of bar `x` in cells from its spring, and the height of its cap in eighths,
    /// which moves for this frame.
    pub fn update_heights<M: BarMath<V>>(&mut self, x: usize, max_height: u16, math: &M) -> (heights:
        (V, V))
        requires
            old(self).wf(),
            x < old(self).bars(),
        ensures
            final(self).wf(),
            call_ensures(
                M::bar_height,
                (math, old(self).spring_pos@[x as int], max_height),
                heights.0,
            ),
            exists|bar_top: V, rises: bool|
                call_ensures(M::bar_top, (math, heights.0), bar_top) && #[trigger] cap_moved(
                    math,
                    *old(self),
                    *final(self),
                    x as int,
                    bar_top,
                    rises,
                ),
            heights.1 == final(self).cap_heights@[x as int],
    {
        let bar_height = math.bar_height(self.spring_pos[x], max_height);
        let bar_top = math.bar_top(bar_height);
        let cap = self.cap_heights[x];
        let rises = math.exceeds(bar_top, cap);
        if rises {
            self.cap_active[x] = true;
            self.cap_heights[x] = bar_top;
        } else {
            let fallen = math.cap_fall(cap, bar_top);
            self.cap_heights[x] = fallen;
        }
        assert(self.cap_active@ =~= old(self).cap_active@.update(
            x as int,
            old(self).cap_active@[x as int] || rises,
        ));
        assert(cap_moved(math, *old(self), *self, x as int, bar_top, rises));
        (bar_height, self.cap_heights[x])
    }
}

/// The strength of every bar is measured: it is the level of exactly the bins in the range of
/// the bar. Nothing else of the display changes.
pub proof fn law_every_bar_is_measured<V: Copy, M: BarMath<V>>(
    renderer: &mut SpectrumRenderer<V>,
    data: &[V],
    math: &M,
    x: int,
)
    requires
        old(renderer).bands_fit(data@.len() as int),
        call_ensures(SpectrumRenderer::<V>::measure::<M>, (renderer, data, math), ()),
        0 <= x < old(renderer).bar_ranges@.len(),
    ensures
        is_level_of_bins(
            math,
            data@,
            old(renderer).bar_ranges@[x],
            final(renderer).bar_values@[x],
        ),
        final(renderer).bar_values@.len() == old(renderer).bar_ranges@.len(),
        *final(renderer) == (SpectrumRenderer {
            bar_values: final(renderer).bar_values,
            ..*old(renderer)
        }),
{
    let range = old(renderer).bar_ranges@[x];
    let value = final(renderer).bar_values@[x];
    assert(range_fits(range, data@.len() as int));
    lemma_band_is_its_bins(math, data@, range, value);
}

/// The smoothing amplifies the value of a bar by the gain and compares it with the last one. A
/// bar that falls follows the curve from its peak, and its fall goes on; any other shows what it
/// has, which is its new peak, and its fall begins anew. What it shows then goes through the
/// low-pass filter, whose output is the value and the memory. Nothing else changes.
pub proof fn law_every_bar_is_smoothed<V: Copy, M: BarMath<V>>(
    renderer: &mut SpectrumRenderer<V>,
    math: &M,
    x: int,
)
    requires
        old(renderer).wf(),
        call_ensures(SpectrumRenderer::<V>::apply_cava_smoothing::<M>, (renderer, math), ()),
        0 <= x < old(renderer).bar_ranges@.len(),
    ensures
        ({
            let pre = *old(renderer);
            let post = *final(renderer);
            &&& exists|amplified: V, falling: bool|
                #[trigger] call_ensures(
                    M::amplify,
                    (math, pre.bar_values@[x], pre.sensitivity),
                    amplified,
                ) && #[trigger] call_ensures(
                    M::falling,
                    (math, amplified, pre.prev_bar@[x]),
                    falling,
                ) && (falling ==> call_ensures(
                    M::fall_off,
                    (math, pre.bar_peak@[x], pre.bar_fall@[x]),
                    post.prev_bar@[x],
                ) && call_ensures(M::next_fall, (math, pre.bar_fall@[x]), post.bar_fall@[x])
                    && post.bar_peak@[x] == pre.bar_peak@[x]) && (!falling ==> post.prev_bar@[x]
                    == amplified && post.bar_peak@[x] == amplified && call_ensures(
                    M::no_fall,
                    (math,),
                    post.bar_fall@[x],
                ))
            &&& call_ensures(
                M::integrate,
                (math, pre.bar_mem@[x], post.prev_bar@[x]),
                post.bar_mem@[x],
            )
            &&& post.bar_values@[x] == post.bar_mem@[x]
            &&& post == (SpectrumRenderer {
                bar_values: post.bar_values,
                prev_bar: post.prev_bar,
                bar_peak: post.bar_peak,
                bar_fall: post.bar_fall,
                bar_mem: post.bar_mem,
                ..pre
            })
        }),
{
    let pre = *old(renderer);
    let post = *final(renderer);
    assert(bar_smoothed(math, pre, post, x));
    let before = bar_state(pre, x);
    let after = bar_state(post, x);
    let (amplified, falling) = choose|amplified: V, falling: bool|
        call_ensures(M::amplify, (math, before.value, pre.sensitivity), amplified)
            && #[trigger] falls_to(math, before, amplified, falling, after);
    assert(call_ensures(M::amplify, (math, pre.bar_values@[x], pre.sensitivity), amplified));
    assert(call_ensures(M::falling, (math, amplified, pre.prev_bar@[x]), falling));
}

/// The bars are smoothed one by one: two displays that agree on a bar and on the gain smooth it
/// to the same results, whatever the other bars do, where the formulas have one result each.
pub proof fn law_bars_are_smoothed_apart<V: Copy, M: BarMath<V>>(
    math: &M,
    gain: V,
    pre: BarState<V>,
    one: BarState<V>,
    two: BarState<V>,
)
    requires
        smoothed(math, gain, pre, one),
        smoothed(math, gain, pre, two),
        forall|v: V, s: V, a: V, b: V|
            #[trigger] call_ensures(M::amplify, (math, v, s), a) && #[trigger] call_ensures(
                M::amplify,
                (math, v, s),
                b,
            ) ==> a == b,
        forall|v: V, s: V, a: bool, b: bool|
            #[trigger] call_ensures(M::falling, (math, v, s), a) && #[trigger] call_ensures(
                M::falling,
                (math, v, s),
                b,
            ) ==> a == b,
        forall|v: V, s: V, a: V, b: V|
            #[trigger] call_ensures(M::fall_off, (math, v, s), a) && #[trigger] call_ensures(
                M::fall_off,
                (math, v, s),
                b,
            ) ==> a == b,
        forall|v: V, a: V, b: V|
            #[trigger] call_ensures(M::next_fall, (math, v), a) && #[trigger] call_ensures(
                M::next_fall,
                (math, v),
                b,
            ) ==> a == b,
        forall|a: V, b: V|
            #[trigger] call_ensures(M::no_fall, (math,), a) && #[trigger] call_ensures(
                M::no_fall,
                (math,),
                b,
            ) ==> a == b,
        forall|v: V, s: V, a: V, b: V|
            #[trigger] call_ensures(M::integrate, (math, v, s), a) && #[trigger] call_ensures(
                M::integrate,
                (math, v, s),
                b,
            ) ==> a == b,
    ensures
        one == two,
{
}

/// The quadratic filter goes first; the exponential one is in force only without it, and only
/// where it is on.
pub proof fn law_one_filter_is_in_force(waves: usize, monstercat: bool, filter: NeighbourFilter)
    requires
        call_ensures(neighbour_filter, (waves, monstercat), filter),
    ensures
        filter is Waves <==> waves != 0,
        filter is Monstercat <==> waves == 0 && monstercat,
        filter is Off <==> waves == 0 && !monstercat,
{
}

/// A bar that spreads lifts every other bar to what reaches it over the distance between them,
/// where that is more than the bar has, and lowers none. The bar itself keeps its value, but for
/// the quadratic filter, which softens it first. Nothing else of the display changes.
pub proof fn law_bar_spreads_to_all_others<V: Copy, M: BarMath<V>>(
    renderer: &mut SpectrumRenderer<V>,
    filter: NeighbourFilter,
    z: usize,
    math: &M,
    y: int,
    distance: usize,
)
    requires
        old(renderer).wf(),
        !(filter is Off),
        z < old(renderer).bar_ranges@.len(),
        call_ensures(SpectrumRenderer::<V>::spread::<M>, (renderer, filter, z, math), ()),
        0 <= y < old(renderer).bar_ranges@.len(),
        y == z + distance || z == y + distance,
    ensures
        ({
            let pre = old(renderer).bar_values@;
            let post = final(renderer).bar_values@;
            &&& post.len() == pre.len()
            &&& y == z && filter is Monstercat ==> post[y] == pre[y]
            &&& y == z && filter is Waves ==> call_ensures(M::waves_base, (math, pre[y]), post[y])
            &&& y != z ==> exists|lifted: V, exceeds: bool|
                #[trigger] call_ensures(M::exceeds, (math, lifted, pre[y]), exceeds) && (
                if filter is Waves {
                    call_ensures(
                        M::waves_spread,
                        (math, post[z as int], distance, old(renderer).height),
                        lifted,
                    )
                } else {
                    call_ensures(M::monstercat_spread, (math, post[z as int], distance), lifted)
                }) && post[y] == if exceeds {
                    lifted
                } else {
                    pre[y]
                }
            &&& *final(renderer) == (SpectrumRenderer {
                bar_values: final(renderer).bar_values,
                ..*old(renderer)
            })
        }),
{
    let pre = old(renderer).bar_values@;
    let post = final(renderer).bar_values@;
    let height = old(renderer).height;
    assert(spread_from(math, filter, height, pre, post, z as int));
    if y != z {
        let base = post[z as int];
        assert(bar_distance(z as int, y) == distance);
        assert(lifts(math, filter, height, base, distance, pre[y], post[y]));
        let (lifted, exceeds) = choose|lifted: V, exceeds: bool|
            is_spread(math, filter, height, base, distance, lifted) && #[trigger] call_ensures(
                M::exceeds,
                (math, lifted, pre[y]),
                exceeds,
            ) && post[y] == if exceeds {
                lifted
            } else {
                pre[y]
            };
        assert(call_ensures(M::exceeds, (math, lifted, pre[y]), exceeds));
    }
}

/// Whether `exceeds` goes by an order of the values.
pub open spec fn goes_by_order<V, M: BarMath<V>>(math: &M, le: spec_fn(V, V) -> bool) -> bool {
    &&& forall|a: V| #[trigger] le(a, a)
    &&& forall|a: V, b: V, c: V| #[trigger] le(a, b) && #[trigger] le(b, c) ==> le(a, c)
    &&& forall|a: V, b: V, exceeds: bool|
        #[trigger] call_ensures(M::exceeds, (math, a, b), exceeds) ==> if exceeds {
            le(b, a)
        } else {
            le(a, b)
        }
}

/// The exponential filter only ever lifts a bar.
proof fn lemma_chain_lifts<V: Copy, M: BarMath<V>>(
    math: &M,
    height: u16,
    states: Seq<Seq<V>>,
    bars: int,
    le: spec_fn(V, V) -> bool,
    from: int,
    to: int,
    y: int,
)
    requires
        goes_by_order(math, le),
        spread_chain(math, NeighbourFilter::Monstercat, height, states, bars),
        states[0].len() == bars <= usize::MAX,
        0 <= from <= to <= bars,
        0 <= y < bars,
    ensures
        states[to].len() == bars,
        le(states[from][y], states[to][y]),
        from == 0 && states[to][y] != states[0][y] ==> exists|base: V, reach: usize|
            #[trigger] call_ensures(M::monstercat_spread, (math, base, reach), states[to][y]) && 0
                < reach && (reach <= y || y + reach < bars),
    decreases to,
{
    if to > 0 {
        let n = to - 1;
        let pre = states[n];
        let post = states[n + 1];
        assert(spread_from(
            math,
            NeighbourFilter::Monstercat,
            height,
            states[n],
            states[n + 1],
            n,
        ));
        if from < to {
            lemma_chain_lifts(math, height, states, bars, le, from, n, y);
        } else {
            lemma_chain_lifts(math, height, states, bars, le, n, n, y);
        }
        if y == n {
            assert(post[y] == pre[y]);
        } else {
            let distance = bar_distance(n, y) as usize;
            assert(lifts(
                math,
                NeighbourFilter::Monstercat,
                height,
                post[n],
                distance,
                pre[y],
                post[y],
            ));
            let (lifted, exceeds) = choose|lifted: V, exceeds: bool|
                is_spread(
                    math,
                    NeighbourFilter::Monstercat,
                    height,
                    post[n],
                    distance,
                    lifted,
                ) && #[trigger] call_ensures(M::exceeds, (math, lifted, pre[y]), exceeds)
                    && post[y] == if exceeds {
                    lifted
                } else {
                    pre[y]
                };
            assert(le(pre[y], post[y]));
            if exceeds {
                assert(call_ensures(M::monstercat_spread, (math, post[n], distance), post[y]));
            }
        }
        assert(le(pre[y], post[y]));
        assert(le(states[from][y], states[to][y]));
    }
}

/// Under the exponential filter no bar sinks, every bar reaches at least what each other bar
/// spreads to it, and a bar that changes has what some other bar spreads to it. `le` is the order
/// that the formulas compare by.
pub proof fn law_strong_bars_lift_the_others<V: Copy, M: BarMath<V>>(
    renderer: &mut SpectrumRenderer<V>,
    math: &M,
    le: spec_fn(V, V) -> bool,
    z: int,
    y: int,
    distance: usize,
)
    requires
        old(renderer).wf(),
        call_ensures(
            SpectrumRenderer::<V>::spread_all::<M>,
            (renderer, NeighbourFilter::Monstercat, math),
            (),
        ),
        goes_by_order(math, le),
        0 <= z < old(renderer).bar_ranges@.len(),
        0 <= y < old(renderer).bar_ranges@.len(),
        y != z,
        y == z + distance || z == y + distance,
    ensures
        ({
            let pre = old(renderer).bar_values@;
            let post = final(renderer).bar_values@;
            &&& le(pre[y], post[y])
            &&& exists|base: V, lifted: V|
                #[trigger] call_ensures(
                    M::monstercat_spread,
                    (math, base, distance),
                    lifted,
                ) && le(pre[z], base) && le(base, post[z]) && le(lifted, post[y])
            &&& post[y] == pre[y] || exists|base: V, reach: usize|
                #[trigger] call_ensures(M::monstercat_spread, (math, base, reach), post[y]) && 0
                    < reach && (reach <= y || y + reach < pre.len())
        }),
{
    let pre = old(renderer).bar_values@;
    let post = final(renderer).bar_values@;
    let bars = pre.len() as int;
    let height = old(renderer).height;
    let filter = NeighbourFilter::Monstercat;
    let states = choose|states: Seq<Seq<V>>|
        #[trigger] spread_chain(math, filter, height, states, bars) && states[0] == pre
            && states[bars] == post;
    lemma_chain_lifts(math, height, states, bars, le, 0, bars, y);
    lemma_chain_lifts(math, height, states, bars, le, 0, z, z);
    lemma_chain_lifts(math, height, states, bars, le, z, bars, z);
    lemma_chain_lifts(math, height, states, bars, le, z + 1, bars, y);
    lemma_chain_lifts(math, height, states, bars, le, 0, z, y);
    assert(spread_from(math, filter, height, states[z], states[z + 1], z));
    let base = states[z + 1][z];
    assert(bar_distance(z, y) == distance);
    let before = states[z][y];
    let after = states[z + 1][y];
    assert(lifts(math, filter, height, base, distance, before, after));
    let (lifted, exceeds) = choose|lifted: V, exceeds: bool|
        is_spread(math, filter, height, base, distance, lifted) && #[trigger] call_ensures(
            M::exceeds,
            (math, lifted, before),
            exceeds,
        ) && after == if exceeds {
            lifted
        } else {
            before
        };
    assert(le(lifted, after));
    assert(le(after, post[y]));
    assert(le(lifted, post[y]));
    assert(base == states[z][z]);
    assert(call_ensures(M::monstercat_spread, (math, base, distance), lifted));
}

/// A filter lets every bar spread once, in the order of the bars, each from what the bars before
/// it have left: `states` are the values before the first bar, between two bars, and behind the
/// last. Without a filter the values stay as they are.
pub proof fn law_every_bar_spreads_once<V: Copy, M: BarMath<V>>(
    renderer: &mut SpectrumRenderer<V>,
    filter: NeighbourFilter,
    math: &M,
)
    requires
        old(renderer).wf(),
        call_ensures(SpectrumRenderer::<V>::spread_all::<M>, (renderer, filter, math), ()),
    ensures
        *final(renderer) == (SpectrumRenderer {
            bar_values: final(renderer).bar_values,
            ..*old(renderer)
        }),
        filter is Off ==> final(renderer).bar_values@ == old(renderer).bar_values@,
        !(filter is Off) ==> exists|states: Seq<Seq<V>>|
            #[trigger] states.last() == final(renderer).bar_values@ && states.first() == old(
                renderer,
            ).bar_values@ && states.len() == old(renderer).bar_ranges@.len() + 1 && forall|z: int|
                0 <= z < old(renderer).bar_ranges@.len() ==> spread_from(
                    math,
                    filter,
                    old(renderer).height,
                    states[z],
                    #[trigger] states[z + 1],
                    z,
                ),
{
    if !(filter is Off) {
        let bars = old(renderer).bars();
        let states = choose|states: Seq<Seq<V>>|
            #[trigger] spread_chain(math, filter, old(renderer).height, states, bars) && states[0]
                == old(renderer).bar_values@ && states[bars] == final(renderer).bar_values@;
        assert(states.last() == final(renderer).bar_values@);
    }
}

/// Without a filter in force the values stay as they are, and the filters change nothing else.
pub proof fn law_no_filter_no_change<V: Copy, M: BarMath<V>>(
    renderer: &mut SpectrumRenderer<V>,
    math: &M,
)
    requires
        call_ensures(SpectrumRenderer::<V>::apply_monstercat_filter::<M>, (renderer, math), ()),
    ensures
        *final(renderer) == (SpectrumRenderer {
            bar_values: final(renderer).bar_values,
            ..*old(renderer)
        }),
        exists|monstercat: bool|
            #[trigger] call_ensures(M::monstercat, (math,), monstercat) && (WAVES == 0
                && !monstercat ==> final(renderer).bar_values@ == old(renderer).bar_values@) && (
            WAVES == 0 && monstercat ==> filtered(
                math,
                NeighbourFilter::Monstercat,
                old(renderer).height,
                old(renderer).bar_values@,
                final(renderer).bar_values@,
            )) && (WAVES > 0 ==> filtered(
                math,
                NeighbourFilter::Waves,
                old(renderer).height,
                old(renderer).bar_values@,
                final(renderer).bar_values@,
            )),
{
}

/// The spring of a bar goes one step towards the value of the bar, and the new position is
/// returned. No other spring moves.
pub proof fn law_spring_goes_towards_the_bar<V: Copy, M: BarMath<V>>(
    renderer: &mut SpectrumRenderer<V>,
    x: usize,
    math: &M,
    position: V,
    y: int,
)
    requires
        old(renderer).wf(),
        x < old(renderer).bar_ranges@.len(),
        call_ensures(SpectrumRenderer::<V>::step_spring::<M>, (renderer, x, math), position),
        0 <= y < old(renderer).bar_ranges@.len(),
    ensures
        ({
            let pre = *old(renderer);
            let post = *final(renderer);
            &&& position == post.spring_pos@[x as int]
            &&& y == x ==> call_ensures(
                M::spring,
                (math, pre.bar_values@[y], pre.spring_pos@[y], pre.spring_vel@[y]),
                (post.spring_pos@[y], post.spring_vel@[y]),
            )
            &&& y != x ==> post.spring_pos@[y] == pre.spring_pos@[y] && post.spring_vel@[y]
                == pre.spring_vel@[y]
            &&& post == (SpectrumRenderer {
                spring_pos: post.spring_pos,
                spring_vel: post.spring_vel,
                ..pre
            })
        }),
{
    assert(spring_stepped(math, *old(renderer), *final(renderer), x as int));
}

/// Every spring goes one step towards the value of its bar. The display overshoots where some
/// spring does after its step, and only there.
pub proof fn law_every_spring_steps<V: Copy, M: BarMath<V>>(
    renderer: &mut SpectrumRenderer<V>,
    math: &M,
    overshoot: bool,
    x: int,
)
    requires
        old(renderer).wf(),
        call_ensures(SpectrumRenderer::<V>::step_springs::<M>, (renderer, math), overshoot),
        0 <= x < old(renderer).bar_ranges@.len(),
    ensures
        ({
            let pre = *old(renderer);
            let post = *final(renderer);
            &&& call_ensures(
                M::spring,
                (math, pre.bar_values@[x], pre.spring_pos@[x], pre.spring_vel@[x]),
                (post.spring_pos@[x], post.spring_vel@[x]),
            )
            &&& overshoot ==> exists|y: int|
                0 <= y < pre.bar_ranges@.len() && call_ensures(
                    M::overshoots,
                    (math, #[trigger] post.spring_pos@[y]),
                    true,
                )
            &&& !overshoot ==> call_ensures(M::overshoots, (math, post.spring_pos@[x]), false)
            &&& post == (SpectrumRenderer {
                spring_pos: post.spring_pos,
                spring_vel: post.spring_vel,
                ..pre
            })
        }),
{
    let pre = *old(renderer);
    let post = *final(renderer);
    let over = choose|over: Seq<bool>|
        #[trigger] all_springs_stepped(math, pre, post, over) && overshoot == over.contains(true);
    assert(spring_stepped(math, pre, post, x));
    assert(call_ensures(M::overshoots, (math, post.spring_pos@[x]), over[x]));
    if overshoot {
        let k = choose|k: int| 0 <= k < over.len() && over[k] == true;
        assert(call_ensures(M::overshoots, (math, post.spring_pos@[k]), over[k]));
    } else {
        assert(over[x] == false);
    }
}

/// The gain shrinks after an overshoot, silent or not. Else it grows after sound and stays after
/// silence. Nothing else of the display changes.
pub proof fn law_gain_follows_the_frame<V: Copy, M: BarMath<V>>(
    renderer: &mut SpectrumRenderer<V>,
    silence: bool,
    overshoot: bool,
    math: &M,
)
    requires
        call_ensures(
            SpectrumRenderer::<V>::update_autosens::<M>,
            (renderer, silence, overshoot, math),
            (),
        ),
    ensures
        ({
            let pre = old(renderer).sensitivity;
            let post = final(renderer).sensitivity;
            &&& overshoot ==> call_ensures(M::shrink, (math, pre), post)
            &&& !overshoot && !silence ==> call_ensures(M::grow, (math, pre), post)
            &&& !overshoot && silence ==> post == pre
            &&& *final(renderer) == (SpectrumRenderer { sensitivity: post, ..*old(renderer) })
        }),
{
}

/// The height of a bar comes from the position of its spring. A bar that is higher than its cap
/// takes the cap along and activates it; else the cap falls towards the bar, and stays activated
/// or not. No other cap moves.
pub proof fn law_cap_rides_on_the_bar<V: Copy, M: BarMath<V>>(
    renderer: &mut SpectrumRenderer<V>,
    x: usize,
    max_height: u16,
    math: &M,
    heights: (V, V),
    y: int,
)
    requires
        old(renderer).wf(),
        x < old(renderer).bar_ranges@.len(),
        call_ensures(
            SpectrumRenderer::<V>::update_heights::<M>,
            (renderer, x, max_height, math),
            heights,
        ),
        0 <= y < old(renderer).bar_ranges@.len(),
    ensures
        ({
            let pre = *old(renderer);
            let post = *final(renderer);
            let cap = pre.cap_heights@[x as int];
            let moved = post.cap_heights@[x as int];
            &&& call_ensures(
                M::bar_height,
                (math, pre.spring_pos@[x as int], max_height),
                heights.0,
            )
            &&& heights.1 == moved
            &&& exists|bar_top: V, rises: bool|
                #[trigger] call_ensures(M::bar_top, (math, heights.0), bar_top)
                    && #[trigger] call_ensures(M::exceeds, (math, bar_top, cap), rises) && (rises
                    ==> moved == bar_top && post.cap_active@[x as int]) && (!rises ==> call_ensures(
                    M::cap_fall,
                    (math, cap, bar_top),
                    moved,
                ) && post.cap_active@[x as int] == pre.cap_active@[x as int])
            &&& y != x ==> post.cap_heights@[y] == pre.cap_heights@[y] && post.cap_active@[y]
                == pre.cap_active@[y]
            &&& post == (SpectrumRenderer {
                cap_heights: post.cap_heights,
                cap_active: post.cap_active,
                ..pre
            })
        }),
{
    let pre = *old(renderer);
    let post = *final(renderer);
    let (bar_top, rises) = choose|bar_top: V, rises: bool|
        call_ensures(M::bar_top, (math, heights.0), bar_top) && #[trigger] cap_moved(
            math,
            pre,
            post,
            x as int,
            bar_top,
            rises,
        );
    assert(call_ensures(M::bar_top, (math, heights.0), bar_top));
    assert(call_ensures(M::exceeds, (math, bar_top, pre.cap_heights@[x as int]), rises));
}

/// A cap never lies below the upper edge of its bar, and never rises on its own: `le` is the
/// order that the formulas compare by, and a falling cap ends between the edge and where it was.
pub proof fn law_cap_stays_above_the_bar<V: Copy, M: BarMath<V>>(
    math: &M,
    pre: SpectrumRenderer<V>,
    post: SpectrumRenderer<V>,
    x: int,
    bar_top: V,
    rises: bool,
    le: spec_fn(V, V) -> bool,
)
    requires
        pre.wf(),
        0 <= x < pre.bar_ranges@.len(),
        cap_moved(math, pre, post, x, bar_top, rises),
        goes_by_order(math, le),
        forall|cap: V, top: V, fallen: V| #[trigger]
            call_ensures(M::cap_fall, (math, cap, top), fallen) && le(top, cap) ==> le(top, fallen)
                && le(fallen, cap),
    ensures
        le(bar_top, post.cap_heights@[x]),
        !rises ==> le(post.cap_heights@[x], pre.cap_heights@[x]),
        rises ==> post.cap_heights@[x] == bar_top && post.cap_active@[x],
{
}

/// The bands of the bars fit a spectrum exactly where each is a range of its bins.
pub proof fn law_fit_is_judged_on_every_band<V: Copy>(
    renderer: &SpectrumRenderer<V>,
    len: usize,
    fit: bool,
)
    requires
        call_ensures(SpectrumRenderer::<V>::fits, (renderer, len), fit),
    ensures
        fit <==> forall|x: int|
            0 <= x < renderer.bar_ranges@.len() ==> (#[trigger] renderer.bar_ranges@[x]).0
                <= renderer.bar_ranges@[x].1 && renderer.bar_ranges@[x].1 <= len,
{
    if !fit {
        let x = choose|x: int|
            0 <= x < renderer.bars() && !range_fits(#[trigger] renderer.bar_ranges@[x], len as int);
        assert(!(renderer.bar_ranges@[x].0 <= renderer.bar_ranges@[x].1
            && renderer.bar_ranges@[x].1 <= len));
    }
}

/// A full bar leaves one row of the screen free.
pub proof fn law_full_bar_leaves_a_row<V: Copy>(renderer: &SpectrumRenderer<V>, rows: u16)
    requires
        renderer.height > 0,
        call_ensures(SpectrumRenderer::<V>::max_height, (renderer,), rows),
    ensures
        rows + 1 == renderer.height,
{
}

} // verus!
