//! One frame of the animation, from the spectrum to the positions of the bars.
use crate::bands::{is_level_of_bins, lemma_band_is_its_bins, range_fits};
use crate::config::WAVES;
use crate::math::BarMath;
use crate::motion::{
    all_smoothed, all_springs_stepped, bar_smoothed, bar_state, falls_to, filter_in_force,
    filtered, gain_adjusted, measured, neighbours_filtered, spring_stepped, NeighbourFilter,
};
use crate::renderer::SpectrumRenderer;
use vstd::prelude::*;

verus! {

/// Whether a frame with these raw strengths counts as silent.
pub open spec fn is_silence<V, M: BarMath<V>>(math: &M, values: Seq<V>, silence: bool) -> bool {
    exists|slice: &[V]|
        slice@ == values && #[trigger] call_ensures(M::silent, (math, slice), silence)
}

/// Whether `after` is the intensity that follows `before` in a frame with these raw strengths.
pub open spec fn is_intensity<V, M: BarMath<V>>(
    math: &M,
    before: V,
    values: Seq<V>,
    after: V,
) -> bool {
    exists|slice: &[V]|
        slice@ == values && #[trigger] call_ensures(M::intensity, (math, before, slice), after)
}

/// Whether `post` is `pre` with the intensity of the frame, and the palette turned by it.
pub open spec fn tinted<V: Copy, M: BarMath<V>>(
    math: &M,
    pre: SpectrumRenderer<V>,
    post: SpectrumRenderer<V>,
) -> bool {
    &&& post == (SpectrumRenderer { intensity: post.intensity, hue_phase: post.hue_phase, ..pre })
    &&& is_intensity(math, pre.intensity, pre.bar_values@, post.intensity)
    &&& call_ensures(M::hue_phase, (math, pre.hue_phase, post.intensity), post.hue_phase)
}

/// The displays between the steps of a frame.
pub struct FrameSteps<V> {
    /// With the raw strengths.
    pub measured: SpectrumRenderer<V>,
    /// With the new intensity and palette.
    pub tinted: SpectrumRenderer<V>,
    /// With the values smoothed.
    pub smoothed: SpectrumRenderer<V>,
    /// With the values spread to their neighbours.
    pub filtered: SpectrumRenderer<V>,
    /// With the springs one step on.
    pub sprung: SpectrumRenderer<V>,
}

/// Whether a frame with the spectrum `data` takes the display from `pre` to `post` by way of
/// `steps`. Silence is judged on the raw strengths, and overshooting on the springs after
/// their step; both adjust the gain for the next frame.
pub open spec fn frame_by<V: Copy, M: BarMath<V>>(
    math: &M,
    data: Seq<V>,
    pre: SpectrumRenderer<V>,
    steps: FrameSteps<V>,
    silence: bool,
    over: Seq<bool>,
    post: SpectrumRenderer<V>,
) -> bool {
    &&& measured(math, data, pre, steps.measured)
    &&& is_silence(math, steps.measured.bar_values@, silence)
    &&& tinted(math, steps.measured, steps.tinted)
    &&& all_smoothed(math, steps.tinted, steps.smoothed)
    &&& neighbours_filtered(math, steps.smoothed, steps.filtered)
    &&& all_springs_stepped(math, steps.filtered, steps.sprung, over)
    &&& post == (SpectrumRenderer { sensitivity: post.sensitivity, ..steps.sprung })
    &&& gain_adjusted(
        math,
        silence,
        over.contains(true),
        steps.sprung.sensitivity,
        post.sensitivity,
    )
}

/// Whether a frame with the spectrum `data` takes the display from `pre` to `post`.
pub open spec fn frame_advanced<V: Copy, M: BarMath<V>>(
    math: &M,
    data: Seq<V>,
    pre: SpectrumRenderer<V>,
    post: SpectrumRenderer<V>,
) -> bool {
    exists|steps: FrameSteps<V>, silence: bool, over: Seq<bool>|
        #[trigger] frame_by(math, data, pre, steps, silence, over, post)
}

/// A frame moves the bars only: the size of the screen, what it shows, the bands and the caps
/// stay as they are.
pub proof fn law_frame_keeps_the_screen<V: Copy, M: BarMath<V>>(
    math: &M,
    data: Seq<V>,
    pre: SpectrumRenderer<V>,
    post: SpectrumRenderer<V>,
)
    requires
        frame_advanced(math, data, pre, post),
    ensures
        post.width == pre.width,
        post.height == pre.height,
        post.frame_buffer == pre.frame_buffer,
        post.bar_ranges == pre.bar_ranges,
        post.cap_heights == pre.cap_heights,
        post.cap_active == pre.cap_active,
{
}

impl<V: Copy> SpectrumRenderer<V> {
    /// Takes the display through one frame up to the positions of the bars; caps and cells
    /// follow when the bars are drawn. A display without bars stays as it is.
    pub fn advance_frame<M: BarMath<V>>(&mut self, data: &[V], math: &M)
        requires
            old(self).wf(),
            old(self).bands_fit(data@.len() as int),
        ensures
            final(self).wf(),
            old(self).bars() == 0 ==> *final(self) == *old(self),
            old(self).bars() > 0 ==> frame_advanced(math, data@, *old(self), *final(self)),
    {
        if self.bar_ranges.len() == 0 {
            return;
        }
        self.measure(data, math);
        let ghost with_values = *self;
        let silence = math.silent(self.bar_values.as_slice());
        self.intensity = math.intensity(self.intensity, self.bar_values.as_slice());
        self.hue_phase = math.hue_phase(self.hue_phase, self.intensity);
        let ghost with_tint = *self;
        self.apply_cava_smoothing(math);
        let ghost with_smoothing = *self;
        self.apply_monstercat_filter(math);
        let ghost with_filter = *self;
        let overshoot = self.step_springs(math);
        let ghost with_springs = *self;
        self.update_autosens(silence, overshoot, math);
        proof {
            let steps = FrameSteps {
                measured: with_values,
                tinted: with_tint,
                smoothed: with_smoothing,
                filtered: with_filter,
                sprung: with_springs,
            };
            let over = choose|over: Seq<bool>|
                #[trigger] all_springs_stepped(math, with_filter, with_springs, over) && overshoot
                    == over.contains(true);
            assert(frame_by(math, data@, *old(self), steps, silence, over, *self));
        }
    }
}

/// What is found out in a frame about the display and one of its bars.
pub struct FrameMarks<V> {
    /// The raw strengths of all bars.
    pub raw: Seq<V>,
    /// Whether the frame is silent.
    pub silence: bool,
    /// Whether a bar overshoots.
    pub overshoot: bool,
    /// Whether the exponential filter is on.
    pub monstercat: bool,
    /// The raw strength of the bar under the gain.
    pub amplified: V,
    /// Whether the bar falls.
    pub falling: bool,
}

/// Whether bar `x` and the display as a whole go through a frame in order: the raw strengths are
/// the levels of the bins in the ranges of the bars; silence and intensity are judged on them,
/// and the palette turns by the new intensity; the bar is smoothed under the old gain; its spring
/// goes towards the value that the filters leave it then; and the gain follows last.
pub open spec fn goes_through_frame<V: Copy, M: BarMath<V>>(
    math: &M,
    data: Seq<V>,
    pre: SpectrumRenderer<V>,
    post: SpectrumRenderer<V>,
    x: int,
    marks: FrameMarks<V>,
) -> bool {
    &&& marks.raw.len() == pre.bar_ranges@.len()
    &&& forall|y: int|
        0 <= y < pre.bar_ranges@.len() ==> is_level_of_bins(
            math,
            data,
            pre.bar_ranges@[y],
            #[trigger] marks.raw[y],
        )
    &&& exists|values: &[V]|
        #[trigger] call_ensures(M::silent, (math, values), marks.silence) && values@ == marks.raw
    &&& exists|values: &[V]|
        #[trigger] call_ensures(M::intensity, (math, pre.intensity, values), post.intensity)
            && values@ == marks.raw
    &&& call_ensures(M::hue_phase, (math, pre.hue_phase, post.intensity), post.hue_phase)
    &&& call_ensures(M::amplify, (math, marks.raw[x], pre.sensitivity), marks.amplified)
    &&& call_ensures(M::falling, (math, marks.amplified, pre.prev_bar@[x]), marks.falling)
    &&& marks.falling ==> call_ensures(
        M::fall_off,
        (math, pre.bar_peak@[x], pre.bar_fall@[x]),
        post.prev_bar@[x],
    ) && call_ensures(M::next_fall, (math, pre.bar_fall@[x]), post.bar_fall@[x])
        && post.bar_peak@[x] == pre.bar_peak@[x]
    &&& !marks.falling ==> post.prev_bar@[x] == marks.amplified && post.bar_peak@[x]
        == marks.amplified && call_ensures(M::no_fall, (math,), post.bar_fall@[x])
    &&& call_ensures(
        M::integrate,
        (math, pre.bar_mem@[x], post.prev_bar@[x]),
        post.bar_mem@[x],
    )
    &&& call_ensures(M::monstercat, (math,), marks.monstercat)
    &&& WAVES == 0 && !marks.monstercat ==> post.bar_values@ == post.bar_mem@
    &&& WAVES == 0 && marks.monstercat ==> filtered(
        math,
        NeighbourFilter::Monstercat,
        pre.height,
        post.bar_mem@,
        post.bar_values@,
    )
    &&& WAVES > 0 ==> filtered(
        math,
        NeighbourFilter::Waves,
        pre.height,
        post.bar_mem@,
        post.bar_values@,
    )
    &&& call_ensures(
        M::spring,
        (math, post.bar_values@[x], pre.spring_pos@[x], pre.spring_vel@[x]),
        (post.spring_pos@[x], post.spring_vel@[x]),
    )
    &&& marks.overshoot ==> exists|y: int|
        0 <= y < pre.bar_ranges@.len() && call_ensures(
            M::overshoots,
            (math, #[trigger] post.spring_pos@[y]),
            true,
        )
    &&& !marks.overshoot ==> forall|y: int|
        0 <= y < pre.bar_ranges@.len() ==> call_ensures(
            M::overshoots,
            (math, #[trigger] post.spring_pos@[y]),
            false,
        )
    &&& marks.overshoot ==> call_ensures(M::shrink, (math, pre.sensitivity), post.sensitivity)
    &&& !marks.overshoot && !marks.silence ==> call_ensures(
        M::grow,
        (math, pre.sensitivity),
        post.sensitivity,
    )
    &&& !marks.overshoot && marks.silence ==> post.sensitivity == pre.sensitivity
}

/// A frame takes every bar and the display as a whole from the spectrum to the springs in order.
/// The screen, the bands and the caps stay as they are.
pub proof fn law_frame_goes_in_order<V: Copy, M: BarMath<V>>(
    renderer: &mut SpectrumRenderer<V>,
    data: &[V],
    math: &M,
    x: int,
)
    requires
        old(renderer).wf(),
        old(renderer).bands_fit(data@.len() as int),
        call_ensures(SpectrumRenderer::<V>::advance_frame::<M>, (renderer, data, math), ()),
        0 <= x < old(renderer).bar_ranges@.len(),
    ensures
        exists|marks: FrameMarks<V>|
            #[trigger] goes_through_frame(
                math,
                data@,
                *old(renderer),
                *final(renderer),
                x,
                marks,
            ),
        call_ensures(
            M::hue_phase,
            (math, old(renderer).hue_phase, final(renderer).intensity),
            final(renderer).hue_phase,
        ),
        call_ensures(
            M::integrate,
            (math, old(renderer).bar_mem@[x], final(renderer).prev_bar@[x]),
            final(renderer).bar_mem@[x],
        ),
        call_ensures(
            M::spring,
            (
                math,
                final(renderer).bar_values@[x],
                old(renderer).spring_pos@[x],
                old(renderer).spring_vel@[x],
            ),
            (final(renderer).spring_pos@[x], final(renderer).spring_vel@[x]),
        ),
        final(renderer).width == old(renderer).width,
        final(renderer).height == old(renderer).height,
        final(renderer).frame_buffer == old(renderer).frame_buffer,
        final(renderer).bar_ranges == old(renderer).bar_ranges,
        final(renderer).cap_heights == old(renderer).cap_heights,
        final(renderer).cap_active == old(renderer).cap_active,
{
    let pre = *old(renderer);
    let post = *final(renderer);
    let (steps, silence, over) = choose|steps: FrameSteps<V>, silence: bool, over: Seq<bool>|
        #[trigger] frame_by(math, data@, pre, steps, silence, over, post);
    let raw = steps.measured.bar_values@;
    assert forall|y: int| 0 <= y < pre.bars() implies is_level_of_bins(
        math,
        data@,
        pre.bar_ranges@[y],
        #[trigger] raw[y],
    ) by {
        assert(range_fits(pre.bar_ranges@[y], data@.len() as int));
        lemma_band_is_its_bins(math, data@, pre.bar_ranges@[y], raw[y]);
    }
    assert(bar_smoothed(math, steps.tinted, steps.smoothed, x));
    let before = bar_state(steps.tinted, x);
    let after = bar_state(steps.smoothed, x);
    let (amplified, falling) = choose|amplified: V, falling: bool|
        call_ensures(M::amplify, (math, before.value, pre.sensitivity), amplified)
            && #[trigger] falls_to(math, before, amplified, falling, after);
    let monstercat = choose|monstercat: bool|
        #[trigger] call_ensures(M::monstercat, (math,), monstercat) && filtered(
            math,
            filter_in_force(WAVES, monstercat),
            steps.smoothed.height,
            steps.smoothed.bar_values@,
            steps.filtered.bar_values@,
        );
    assert(spring_stepped(math, steps.filtered, steps.sprung, x));
    assert(call_ensures(M::overshoots, (math, steps.sprung.spring_pos@[x]), over[x]));
    let overshoot = over.contains(true);
    if overshoot {
        let k = choose|k: int| 0 <= k < over.len() && over[k] == true;
        assert(call_ensures(M::overshoots, (math, post.spring_pos@[k]), over[k]));
    } else {
        assert forall|y: int| 0 <= y < pre.bars() implies call_ensures(
            M::overshoots,
            (math, #[trigger] post.spring_pos@[y]),
            false,
        ) by {
            assert(call_ensures(M::overshoots, (math, steps.sprung.spring_pos@[y]), over[y]));
            assert(over[y] == false);
        }
    }
    assert forall|y: int| 0 <= y < pre.bars() implies #[trigger] steps.smoothed.bar_values@[y]
        == steps.smoothed.bar_mem@[y] by {
        assert(bar_smoothed(math, steps.tinted, steps.smoothed, y));
    }
    assert(steps.smoothed.bar_values@ =~= post.bar_mem@);
    let judged = choose|values: &[V]|
        values@ == raw && #[trigger] call_ensures(M::silent, (math, values), silence);
    assert(call_ensures(M::silent, (math, judged), silence));
    assert(steps.measured.intensity == pre.intensity && post.intensity == steps.tinted.intensity);
    assert(is_intensity(math, steps.measured.intensity, raw, steps.tinted.intensity));
    let felt = choose|values: &[V]|
        values@ == raw && #[trigger] call_ensures(
            M::intensity,
            (math, pre.intensity, values),
            post.intensity,
        );
    assert(call_ensures(M::intensity, (math, pre.intensity, felt), post.intensity));
    let marks = FrameMarks { raw, silence, overshoot, monstercat, amplified, falling };
    assert(call_ensures(M::silent, (math, judged), marks.silence));
    assert(goes_through_frame(math, data@, pre, post, x, marks));
}

/// A display without bars does not change in a frame.
pub proof fn law_frame_without_bars_changes_nothing<V: Copy, M: BarMath<V>>(
    renderer: &mut SpectrumRenderer<V>,
    data: &[V],
    math: &M,
)
    requires
        call_ensures(SpectrumRenderer::<V>::advance_frame::<M>, (renderer, data, math), ()),
        old(renderer).bar_ranges@.len() == 0,
    ensures
        *final(renderer) == *old(renderer),
{
}

} // verus!
