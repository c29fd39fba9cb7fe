//! The stage that removes one fitted peak from a sample.
//!
//! The fit itself is numerical work on the curve and is done by the caller.
//! This module holds what the stage decides around it: whether there is a
//! peak to fit, which points the fit may look at, and how the sample and its
//! descriptor are booked once the fitted peak has been subtracted.

use super::traits::{keeps_books, obeys_protocol, StageId, StageRequest, StageResult};
use crate::data::metadata::{FlowLedger, FlowMetadata, PeakLedger};
use crate::data::sample::{Sample, SampleView};
use crate::data::SCALE;
use vstd::prelude::*;

verus! {

broadcast use vstd::std_specs::hash::group_hash_axioms;

/// Settings of peak processing.
#[derive(Debug, Clone, Copy)]
pub struct ProcessPeakConfig {
    /// Number of points on each side of the peak that the first estimate
    /// looks at.
    pub parabola_range: usize,
    /// Half width of the refinement window in units of the estimated width
    /// of the peak, in fixed-point units.
    pub gaussian_range_multiplier: i64,
}

impl Default for ProcessPeakConfig {
    fn default() -> (config: Self)
        ensures
            config.parabola_range == 5,
            config.gaussian_range_multiplier == 3 * SCALE,
    {
        ProcessPeakConfig { parabola_range: 5, gaussian_range_multiplier: 3 * SCALE }
    }
}

/// The peak that the stage has to fit: the peak in work, if it is an index
/// of the intensity.
pub open spec fn target_of(sample: SampleView, metadata: FlowLedger) -> Option<usize> {
    match metadata.peaks.current {
        Some(p) => if p < sample.intensity.len() {
            Some(p)
        } else {
            None
        },
        None => None,
    }
}

/// The points `start..end` that lie within `radius` indices of `peak` in
/// data of `len` points.
pub open spec fn window_of(peak: usize, radius: usize, len: usize) -> (int, int) {
    (
        if peak >= radius {
            peak - radius
        } else {
            0
        },
        if peak + radius + 1 <= len {
            peak + radius + 1
        } else {
            len as int
        },
    )
}

/// The result of a stage that found no peak to fit: the sample as it was,
/// the descriptor without a peak in work, and no request.
pub open spec fn skips_peak(sample: Sample, metadata: FlowLedger, result: StageResult) -> bool {
    &&& result.sample == sample
    &&& result.metadata@ == (FlowLedger {
        peaks: PeakLedger { current: None, ..metadata.peaks },
        ..metadata
    })
    &&& result.requests@.len() == 0
}

/// The result of a stage that has subtracted a fitted peak: `residual` is
/// the sample's intensity, the peak in work is booked as done with
/// `amplitude`, the sample takes over the descriptor's bookkeeping and
/// counts one stage, and the one request goes back to the peak finder.
pub open spec fn books_peak(
    sample: SampleView,
    metadata: FlowLedger,
    amplitude: i64,
    residual: Seq<i64>,
    result: StageResult,
) -> bool {
    &&& result.metadata@ == (FlowLedger { peaks: metadata.peaks.mark(amplitude), ..metadata })
    &&& result.sample@ == (SampleView {
        intensity: residual,
        stage_num: (sample.stage_num + 1) as u32,
        metadata: result.metadata@.peaks,
        ..sample
    })
    &&& result.requests@.len() == 1
    &&& result.requests@[0]@ == (StageId::FindPeak, result.metadata@)
}

/// The stage that fits one peak and subtracts it from the intensity.
#[derive(Debug, Clone, Copy)]
pub struct ProcessPeakStage {
    pub config: ProcessPeakConfig,
}

impl Default for ProcessPeakStage {
    fn default() -> (stage: Self)
        ensures
            stage.config.parabola_range == 5,
            stage.config.gaussian_range_multiplier == 3 * SCALE,
    {
        ProcessPeakStage { config: ProcessPeakConfig::default() }
    }
}

impl ProcessPeakStage {
    /// A stage with the given settings.
    pub fn new(config: ProcessPeakConfig) -> (stage: Self)
        ensures
            stage.config == config,
    {
        ProcessPeakStage { config }
    }

    /// A stage with the default settings: 5 points on each side, 3 widths.
    pub fn with_defaults() -> (stage: Self)
        ensures
            stage.config.parabola_range == 5,
            stage.config.gaussian_range_multiplier == 3 * SCALE,
    {
        ProcessPeakStage { config: ProcessPeakConfig::default() }
    }

    /// The identifier of the stage.
    pub fn id(&self) -> (id: StageId)
        ensures
            id == StageId::ProcessPeak,
    {
        StageId::ProcessPeak
    }

    /// The peak to fit, or `None` where no peak is in work or the peak in
    /// work lies past the end of the intensity.
    pub fn target(&self, sample: &Sample, metadata: &FlowMetadata) -> (peak: Option<usize>)
        ensures
            peak == target_of(sample@, metadata@),
    {
        match metadata.current_peak {
            Some(p) => if p < sample.intensity.len() {
                Some(p)
            } else {
                None
            },
            None => None,
        }
    }

    /// The window of a fit around `peak`: the points within `radius`
    /// indices of it, cut off at the ends of the data. A window of fewer
    /// than three points gives no support for a fit and comes back as
    /// `None`.
    pub fn fit_window(peak: usize, radius: usize, len: usize) -> (window: Option<(usize, usize)>)
        ensures
            window is Some <==> window_of(peak, radius, len).1 - window_of(peak, radius, len).0
                >= 3,
            window matches Some((start, end)) ==> (start as int, end as int) == window_of(
                peak,
                radius,
                len,
            ) && start <= end <= len,
    {
        let start: usize = if peak >= radius {
            peak - radius
        } else {
            0
        };
        let reach: usize = match peak.checked_add(radius) {
            Some(sum) => match sum.checked_add(1) {
                Some(past) => if past <= len {
                    past
                } else {
                    len
                },
                None => len,
            },
            None => len,
        };
        if reach >= start && reach - start >= 3 {
            Some((start, reach))
        } else {
            None
        }
    }

    /// The window of the first estimate around `peak`.
    pub fn parabola_window(&self, peak: usize, len: usize) -> (window: Option<(usize, usize)>)
        ensures
            window is Some <==> window_of(peak, self.config.parabola_range, len).1 - window_of(
                peak,
                self.config.parabola_range,
                len,
            ).0 >= 3,
            window matches Some((start, end)) ==> (start as int, end as int) == window_of(
                peak,
                self.config.parabola_range,
                len,
            ) && start <= end <= len,
    {
        Self::fit_window(peak, self.config.parabola_range, len)
    }

    /// Ends the run of a sample that has no peak to fit: the peak in work is
    /// cleared, nothing else changes, and the stage counter stays.
    pub fn skip(&self, sample: Sample, metadata: FlowMetadata) -> (result: StageResult)
        ensures
            skips_peak(sample, metadata@, result),
            obeys_protocol(sample@, result),
            keeps_books(sample@, metadata@, result),
            metadata@.peaks.disjoint() ==> result.metadata@.peaks.disjoint(),
    {
        let mut metadata = metadata;
        metadata.current_peak = None;
        StageResult::terminal(sample, metadata)
    }

    /// Books a fitted peak: `residual`, the intensity after the fitted peak
    /// was subtracted, replaces the intensity, and the peak in work is done
    /// with `amplitude`.
    pub fn finish(
        &self,
        sample: Sample,
        metadata: FlowMetadata,
        amplitude: i64,
        residual: Vec<i64>,
    ) -> (result: StageResult)
        requires
            sample.stage_num < u32::MAX,
            residual@.len() == sample@.intensity.len(),
        ensures
            books_peak(sample@, metadata@, amplitude, residual@, result),
            obeys_protocol(sample@, result),
            keeps_books(sample@, metadata@, result),
            metadata@.peaks.disjoint() ==> result.metadata@.peaks.disjoint(),
            metadata@.peaks.within(sample@.intensity.len()) ==> result.metadata@.peaks.within(
                sample@.intensity.len(),
            ),
    {
        let mut sample = sample;
        let mut metadata = metadata;
        sample.intensity = residual;
        metadata.mark_current_processed(amplitude);
        metadata.apply_to_sample(&mut sample.metadata);
        let requests = vec![StageRequest::new(StageId::FindPeak, metadata.clone())];
        sample.advance_stage();
        StageResult::with_requests(sample, metadata, requests)
    }
}

} // verus!
