//! Curves, peaks and the bookkeeping that travels with a sample.

use vstd::prelude::*;

pub mod metadata;
pub mod peak;
pub mod sample;

pub use metadata::{FlowLedger, FlowMetadata, PeakLedger, SampleMetadata};
pub use peak::{calc_prominence, diff, find_max, find_peaks, find_peaks_batch, Peak};
pub use sample::{Sample, SampleError, SampleView};

verus! {

/// Number of fixed-point steps in one unit: the value `1.0` is stored as
/// `SCALE`, and `0.5` as `SCALE / 2`.
pub const SCALE: i64 = 1_000_000;

} // verus!
