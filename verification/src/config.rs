//! The fixed sizes of the visualiser.
use vstd::prelude::*;

verus! {

/// Samples per channel in one transform.
pub const FFT_SIZE: usize = 1024;

/// Capacity of the ring between the capture callback and the transform worker.
pub const RING_CAPACITY_CPAL_FFT: usize = FFT_SIZE * 40;

/// Capacity of the ring between the transform worker and the display worker.
pub const RING_CAPACITY_FFT_UI: usize = FFT_SIZE * 40;

/// Columns that one bar takes.
pub const BAR_WIDTH: usize = 1;

/// Blank columns behind each bar.
pub const BAR_SPACING: usize = 0;

/// Height of the falling cap above a bar, in eighths of a cell. It is at least 8 (or 0):
/// no glyph fills the middle of a cell only.
pub const CAP_SIZE: usize = 8;

/// Whether the quadratic neighbour filter is on (any value above 0).
pub const WAVES: usize = 0;

/// The highest displayed frequency in hertz.
pub const HIGHER_CUTOFF_FREQ: u64 = 13000;

} // verus!
