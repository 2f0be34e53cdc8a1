//! The scalar arithmetic that drives the bars.
use vstd::prelude::*;

verus! {

/// The formulas of the animation over a scalar type `V`. The rest of the library fixes when
/// each formula is applied, to which values, and where its result goes; it relies on nothing
/// about the results.
pub trait BarMath<V> {
    /// Raw strength of a bar from the magnitudes of its frequency band.
    fn level(&self, band: &[V]) -> V;

    /// Whether a frame with these raw strengths holds next to no energy.
    fn silent(&self, values: &[V]) -> bool;

    /// The smoothed overall intensity after a frame with these raw strengths.
    fn intensity(&self, intensity: V, values: &[V]) -> V;

    /// The next phase of the colour palette.
    fn hue_phase(&self, phase: V, intensity: V) -> V;

    /// A raw strength under the automatic gain.
    fn amplify(&self, value: V, sensitivity: V) -> V;

    /// Whether a bar that showed `previous` falls to `value`.
    fn falling(&self, value: V, previous: V) -> bool;

    /// The value of a bar that has fallen from `peak` for the time `fall`.
    fn fall_off(&self, peak: V, fall: V) -> V;

    /// The fall time one frame later.
    fn next_fall(&self, fall: V) -> V;

    /// The fall time of a bar that is not falling.
    fn no_fall(&self) -> V;

    /// The low-pass filter: `memory` is its last output.
    fn integrate(&self, memory: V, value: V) -> V;

    /// One step of a bar's spring from position and velocity towards `value`: the new
    /// position and velocity.
    fn spring(&self, value: V, position: V, velocity: V) -> (V, V);

    /// Whether a spring position lies above the full height.
    fn overshoots(&self, position: V) -> bool;

    /// The automatic gain after a frame that overshot.
    fn shrink(&self, sensitivity: V) -> V;

    /// The automatic gain after a frame that stayed below the full height.
    fn grow(&self, sensitivity: V) -> V;

    /// Whether the exponential neighbour filter is on.
    fn monstercat(&self) -> bool;

    /// What the exponential filter spreads from a bar of the given value over a distance.
    fn monstercat_spread(&self, value: V, distance: usize) -> V;

    /// The value that the quadratic filter leaves a bar before it spreads it.
    fn waves_base(&self, value: V) -> V;

    /// What the quadratic filter spreads from a bar of the given value over a distance, on a
    /// screen of the given height.
    fn waves_spread(&self, value: V, distance: usize, height: u16) -> V;

    /// Whether `a` is greater than `b`.
    fn exceeds(&self, a: V, b: V) -> bool;

    /// The height in cells of a bar whose spring is at `position`, where a full bar is
    /// `max_height` cells high.
    fn bar_height(&self, position: V, max_height: u16) -> V;

    /// The upper edge of a bar of the given height, in eighths of a cell.
    fn bar_top(&self, bar_height: V) -> V;

    /// The height of a cap one frame later, above a bar with its upper edge at `bar_top`.
    fn cap_fall(&self, cap: V, bar_top: V) -> V;
}

} // verus!
