//! The stage protocol: identifiers, requests, results and the handler trait.

use crate::data::metadata::{FlowLedger, FlowMetadata, PeakLedger};
use crate::data::sample::{Sample, SampleView};
use vstd::prelude::*;

verus! {

/// Identifier of a kind of stage.
#[derive(Debug, Clone, Copy, PartialEq, Eq, Hash, Structural)]
pub enum StageId {
    /// Remove the background signal.
    Background,
    /// Trim the data range.
    Cut,
    /// Smooth the curve.
    Filter,
    /// Find peaks in the intensity.
    FindPeak,
    /// Fit and subtract one peak.
    ProcessPeak,
    /// Identify the phase.
    Phase,
}

/// The name of each stage identifier.
pub open spec fn name_of(id: StageId) -> Seq<char> {
    match id {
        StageId::Background => "background"@,
        StageId::Cut => "cut"@,
        StageId::Filter => "filter"@,
        StageId::FindPeak => "find_peak"@,
        StageId::ProcessPeak => "process_peak"@,
        StageId::Phase => "phase"@,
    }
}

impl StageId {
    /// The name of the stage, in lower case with underscores.
    pub fn name(&self) -> (name: &'static str)
        ensures
            name@ == name_of(*self),
    {
        match self {
            StageId::Background => "background",
            StageId::Cut => "cut",
            StageId::Filter => "filter",
            StageId::FindPeak => "find_peak",
            StageId::ProcessPeak => "process_peak",
            StageId::Phase => "phase",
        }
    }
}

/// A stage that a handler wants to run next on the same sample.
#[derive(Debug)]
pub struct StageRequest {
    /// The stage to run.
    pub stage_id: StageId,
    /// The descriptor to hand to it.
    pub metadata: FlowMetadata,
}

impl View for StageRequest {
    type V = (StageId, FlowLedger);

    open spec fn view(&self) -> (StageId, FlowLedger) {
        (self.stage_id, self.metadata@)
    }
}

impl Clone for StageRequest {
    fn clone(&self) -> (copy: Self)
        ensures
            copy@ == self@,
    {
        StageRequest { stage_id: self.stage_id, metadata: self.metadata.clone() }
    }
}

impl StageRequest {
    pub fn new(stage_id: StageId, metadata: FlowMetadata) -> (request: Self)
        ensures
            request == (StageRequest { stage_id, metadata }),
    {
        StageRequest { stage_id, metadata }
    }
}

/// What a handler hands back: the sample, its descriptor, and the stages it
/// asks for. A result without requests ends the sample's run.
#[derive(Debug)]
pub struct StageResult {
    /// The sample after the stage.
    pub sample: Sample,
    /// The descriptor after the stage.
    pub metadata: FlowMetadata,
    /// The stages the handler asks for.
    pub requests: Vec<StageRequest>,
}

impl StageResult {
    /// A result that asks for nothing more.
    pub fn terminal(sample: Sample, metadata: FlowMetadata) -> (result: Self)
        ensures
            result.sample == sample,
            result.metadata == metadata,
            result.requests@.len() == 0,
    {
        StageResult { sample, metadata, requests: Vec::new() }
    }

    /// A result that asks for `requests`.
    pub fn with_requests(sample: Sample, metadata: FlowMetadata, requests: Vec<StageRequest>) -> (result:
        Self)
        ensures
            result == (StageResult { sample, metadata, requests }),
    {
        StageResult { sample, metadata, requests }
    }
}

/// What every handler owes the scheduler. The sample keeps its identifier,
/// and its vectors stay aligned. Its stage counter goes up by exactly one;
/// only a result that asks for nothing more may leave the counter as it was.
pub open spec fn obeys_protocol(before: SampleView, result: StageResult) -> bool {
    &&& result.sample@.id == before.id
    &&& before.aligned() ==> result.sample@.aligned()
    &&& {
        ||| result.sample@.stage_num == before.stage_num + 1
        ||| result.sample@.stage_num == before.stage_num && result.requests@.len() == 0
    }
}

/// The ledger is disjoint and speaks of indices of the sample's intensity
/// only.
pub open spec fn fits(sample: SampleView, ledger: PeakLedger) -> bool {
    ledger.disjoint() && ledger.within(sample.intensity.len())
}

/// What every handler owes the bookkeeping. Given a well-formed sample and
/// a descriptor that fits it, the sample comes back well formed, and the
/// descriptor of the result and those of its requests fit the sample.
pub open spec fn keeps_books(before: SampleView, metadata: FlowLedger, result: StageResult) -> bool {
    before.well_formed() && fits(before, metadata.peaks) ==> {
        &&& result.sample@.well_formed()
        &&& fits(result.sample@, result.metadata@.peaks)
        &&& forall|i: int|
            0 <= i < result.requests@.len() ==> fits(
                result.sample@,
                (#[trigger] result.requests@[i]).metadata@.peaks,
            )
    }
}

/// Number of the first `n` invocations that left the stage counter as it
/// was: invocation `i` ran on `samples[i]` and gave `results[i]`.
pub open spec fn early_returns(samples: Seq<SampleView>, results: Seq<StageResult>, n: int) -> int
    decreases n,
{
    if n <= 0 {
        0
    } else {
        early_returns(samples, results, n - 1) + if results[n - 1].sample@.stage_num == samples[n
            - 1].stage_num {
            1int
        } else {
            0int
        }
    }
}

/// A sample that passes through a sequence of stage invocations, each of
/// which obeys the protocol and runs on the sample that the one before gave
/// back, ends with a stage counter that has grown by the number of
/// invocations less the ones that returned early.
pub proof fn lemma_stage_counter_counts_stages(
    samples: Seq<SampleView>,
    results: Seq<StageResult>,
    n: int,
)
    requires
        1 <= n <= samples.len(),
        samples.len() == results.len(),
        forall|i: int| 0 <= i < n ==> obeys_protocol(#[trigger] samples[i], results[i]),
        forall|i: int| 0 < i < n ==> #[trigger] samples[i] == results[i - 1].sample@,
    ensures
        results[n - 1].sample@.stage_num == samples[0].stage_num + n - early_returns(
            samples,
            results,
            n,
        ),
    decreases n,
{
    if n > 1 {
        lemma_stage_counter_counts_stages(samples, results, n - 1);
    } else {
        assert(early_returns(samples, results, 0) == 0);
    }
}

/// A handler for one kind of stage. Handlers hold configuration only and
/// can be shared between threads.
pub trait Stage: Send + Sync {
    /// The identifier under which the handler is registered.
    spec fn stage_id(&self) -> StageId;

    /// What this handler promises of its result, beyond the protocol:
    /// nothing, unless the handler says more.
    open spec fn outcome(
        &self,
        sample: SampleView,
        metadata: FlowLedger,
        result: StageResult,
    ) -> bool {
        true
    }

    /// The identifier under which the handler is registered.
    fn id(&self) -> (id: StageId)
        ensures
            id == self.stage_id(),
    ;

    /// Runs the stage on `sample`, whose counter must have room for one more
    /// stage.
    fn process(&self, sample: Sample, metadata: FlowMetadata) -> (result: StageResult)
        requires
            sample.stage_num < u32::MAX,
        ensures
            obeys_protocol(sample@, result),
            keeps_books(sample@, metadata@, result),
            self.outcome(sample@, metadata@, result),
    ;

    /// The name of the stage.
    fn name(&self) -> (name: &'static str)
        ensures
            name@ == name_of(self.stage_id()),
    {
        self.id().name()
    }
}

} // verus!
