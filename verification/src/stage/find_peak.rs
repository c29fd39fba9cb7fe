//! The stage that detects peaks and picks the next one to work on.

use super::traits::{Stage, StageId, StageRequest, StageResult};
use crate::data::metadata::{FlowLedger, FlowMetadata, PeakLedger};
use crate::data::peak::{find_peaks, lemma_peaks_before, peaks_of, Peak};
use crate::data::sample::{Sample, SampleView};
use crate::data::SCALE;
use vstd::prelude::*;

verus! {

broadcast use vstd::std_specs::hash::group_hash_axioms;

/// `sorted` with `p` put behind the last peak that is at least as high.
pub open spec fn insert_by_value(sorted: Seq<Peak>, p: Peak) -> Seq<Peak>
    decreases sorted.len(),
{
    if sorted.len() == 0 {
        seq![p]
    } else if sorted.last().value >= p.value {
        sorted.push(p)
    } else {
        insert_by_value(sorted.drop_last(), p).push(sorted.last())
    }
}

/// `peaks` from the highest value down; peaks of one value keep their order.
pub open spec fn by_value(peaks: Seq<Peak>) -> Seq<Peak>
    decreases peaks.len(),
{
    if peaks.len() == 0 {
        Seq::empty()
    } else {
        insert_by_value(by_value(peaks.drop_last()), peaks.last())
    }
}

/// `sorted` with `p` put behind the last peak whose index is not larger.
pub open spec fn insert_by_index(sorted: Seq<Peak>, p: Peak) -> Seq<Peak>
    decreases sorted.len(),
{
    if sorted.len() == 0 {
        seq![p]
    } else if sorted.last().index <= p.index {
        sorted.push(p)
    } else {
        insert_by_index(sorted.drop_last(), p).push(sorted.last())
    }
}

/// `peaks` from the lowest index up; peaks of one index keep their order.
pub open spec fn by_index(peaks: Seq<Peak>) -> Seq<Peak>
    decreases peaks.len(),
{
    if peaks.len() == 0 {
        Seq::empty()
    } else {
        insert_by_index(by_index(peaks.drop_last()), peaks.last())
    }
}

/// The two peaks are fewer than `min_distance` indices apart.
pub open spec fn crowds(a: Peak, b: Peak, min_distance: usize) -> bool {
    a.index - b.index < min_distance && b.index - a.index < min_distance
}

/// Some peak of `kept` is fewer than `min_distance` indices from `p`.
pub open spec fn crowded(kept: Seq<Peak>, p: Peak, min_distance: usize) -> bool {
    exists|i: int| 0 <= i < kept.len() && crowds(#[trigger] kept[i], p, min_distance)
}

/// Goes through `ranked` from the front and keeps each peak that no peak
/// kept before it crowds.
pub open spec fn thinned(ranked: Seq<Peak>, min_distance: usize) -> Seq<Peak>
    decreases ranked.len(),
{
    if ranked.len() == 0 {
        Seq::empty()
    } else {
        let kept = thinned(ranked.drop_last(), min_distance);
        if crowded(kept, ranked.last(), min_distance) {
            kept
        } else {
            kept.push(ranked.last())
        }
    }
}

/// The peaks that survive a minimum distance: higher peaks win over lower
/// ones near them, and the survivors stand in order of index.
pub open spec fn spaced(peaks: Seq<Peak>, min_distance: usize) -> Seq<Peak> {
    by_index(thinned(by_value(peaks), min_distance))
}

proof fn lemma_insert_by_value_at(s: Seq<Peak>, p: Peak, pos: int)
    requires
        0 <= pos <= s.len(),
        forall|j: int| pos <= j < s.len() ==> (#[trigger] s[j]).value < p.value,
        pos > 0 ==> s[pos - 1].value >= p.value,
    ensures
        insert_by_value(s, p) == s.insert(pos, p),
    decreases s.len(),
{
    if 0 < s.len() && pos < s.len() {
        lemma_insert_by_value_at(s.drop_last(), p, pos);
    }
}

proof fn lemma_insert_by_index_at(s: Seq<Peak>, p: Peak, pos: int)
    requires
        0 <= pos <= s.len(),
        forall|j: int| pos <= j < s.len() ==> (#[trigger] s[j]).index > p.index,
        pos > 0 ==> s[pos - 1].index <= p.index,
    ensures
        insert_by_index(s, p) == s.insert(pos, p),
    decreases s.len(),
{
    if 0 < s.len() && pos < s.len() {
        lemma_insert_by_index_at(s.drop_last(), p, pos);
    }
}

fn sort_by_value(peaks: &Vec<Peak>) -> (sorted: Vec<Peak>)
    ensures
        sorted@ == by_value(peaks@),
{
    let mut sorted: Vec<Peak> = Vec::new();
    let mut i: usize = 0;
    while i < peaks.len()
        invariant
            i <= peaks@.len(),
            sorted@ == by_value(peaks@.take(i as int)),
        decreases peaks@.len() - i,
    {
        let p = peaks[i];
        let mut pos: usize = sorted.len();
        while pos > 0 && sorted[pos - 1].value < p.value
            invariant
                pos <= sorted@.len(),
                forall|j: int| pos <= j < sorted@.len() ==> (#[trigger] sorted@[j]).value < p.value,
            decreases pos,
        {
            pos = pos - 1;
        }
        proof {
            lemma_insert_by_value_at(sorted@, p, pos as int);
            assert(peaks@.take(i + 1).drop_last() =~= peaks@.take(i as int));
        }
        sorted.insert(pos, p);
        i = i + 1;
    }
    assert(peaks@.take(peaks@.len() as int) =~= peaks@);
    sorted
}

fn sort_by_index(peaks: &Vec<Peak>) -> (sorted: Vec<Peak>)
    ensures
        sorted@ == by_index(peaks@),
{
    let mut sorted: Vec<Peak> = Vec::new();
    let mut i: usize = 0;
    while i < peaks.len()
        invariant
            i <= peaks@.len(),
            sorted@ == by_index(peaks@.take(i as int)),
        decreases peaks@.len() - i,
    {
        let p = peaks[i];
        let mut pos: usize = sorted.len();
        while pos > 0 && sorted[pos - 1].index > p.index
            invariant
                pos <= sorted@.len(),
                forall|j: int| pos <= j < sorted@.len() ==> (#[trigger] sorted@[j]).index > p.index,
            decreases pos,
        {
            pos = pos - 1;
        }
        proof {
            lemma_insert_by_index_at(sorted@, p, pos as int);
            assert(peaks@.take(i + 1).drop_last() =~= peaks@.take(i as int));
        }
        sorted.insert(pos, p);
        i = i + 1;
    }
    assert(peaks@.take(peaks@.len() as int) =~= peaks@);
    sorted
}

fn is_crowded(kept: &Vec<Peak>, p: Peak, min_distance: usize) -> (too_close: bool)
    ensures
        too_close == crowded(kept@, p, min_distance),
{
    let mut i: usize = 0;
    while i < kept.len()
        invariant
            i <= kept@.len(),
            forall|j: int| 0 <= j < i ==> !crowds(#[trigger] kept@[j], p, min_distance),
        decreases kept@.len() - i,
    {
        let k = kept[i];
        let gap: usize = if k.index >= p.index {
            k.index - p.index
        } else {
            p.index - k.index
        };
        if gap < min_distance {
            return true;
        }
        i = i + 1;
    }
    false
}

/// Thins `peaks` so that no two survivors are fewer than `min_distance`
/// indices apart. Peaks are taken from the highest value down, a peak is
/// dropped when a peak kept before it is too close, and the survivors come
/// back in order of index.
pub fn filter_by_distance(peaks: Vec<Peak>, min_distance: usize) -> (kept: Vec<Peak>)
    ensures
        kept@ == spaced(peaks@, min_distance),
{
    let ranked = sort_by_value(&peaks);
    let mut kept: Vec<Peak> = Vec::new();
    let mut i: usize = 0;
    while i < ranked.len()
        invariant
            i <= ranked@.len(),
            kept@ == thinned(ranked@.take(i as int), min_distance),
        decreases ranked@.len() - i,
    {
        let p = ranked[i];
        assert(ranked@.take(i + 1).drop_last() =~= ranked@.take(i as int));
        if !is_crowded(&kept, p, min_distance) {
            kept.push(p);
        }
        i = i + 1;
    }
    assert(ranked@.take(ranked@.len() as int) =~= ranked@);
    sort_by_index(&kept)
}

proof fn lemma_insert_by_value_members(s: Seq<Peak>, p: Peak)
    ensures
        forall|x: Peak| #[trigger] insert_by_value(s, p).contains(x) ==> s.contains(x) || x == p,
    decreases s.len(),
{
    if s.len() > 0 && s.last().value < p.value {
        lemma_insert_by_value_members(s.drop_last(), p);
        let head = insert_by_value(s.drop_last(), p);
        assert forall|x: Peak| #[trigger] insert_by_value(s, p).contains(x) implies s.contains(x)
            || x == p by {
            let i = choose|i: int| 0 <= i < head.push(s.last()).len() && head.push(s.last())[i] == x;
            if i < head.len() {
                assert(head.contains(x));
            }
        }
    }
}

proof fn lemma_insert_by_index_members(s: Seq<Peak>, p: Peak)
    ensures
        forall|x: Peak| #[trigger] insert_by_index(s, p).contains(x) ==> s.contains(x) || x == p,
    decreases s.len(),
{
    if s.len() > 0 && s.last().index > p.index {
        lemma_insert_by_index_members(s.drop_last(), p);
        let head = insert_by_index(s.drop_last(), p);
        assert forall|x: Peak| #[trigger] insert_by_index(s, p).contains(x) implies s.contains(x)
            || x == p by {
            let i = choose|i: int| 0 <= i < head.push(s.last()).len() && head.push(s.last())[i] == x;
            if i < head.len() {
                assert(head.contains(x));
            }
        }
    }
}

proof fn lemma_by_value_members(peaks: Seq<Peak>)
    ensures
        forall|x: Peak| #[trigger] by_value(peaks).contains(x) ==> peaks.contains(x),
    decreases peaks.len(),
{
    if peaks.len() > 0 {
        let head = peaks.drop_last();
        lemma_by_value_members(head);
        lemma_insert_by_value_members(by_value(head), peaks.last());
    }
}

proof fn lemma_by_index_members(peaks: Seq<Peak>)
    ensures
        forall|x: Peak| #[trigger] by_index(peaks).contains(x) ==> peaks.contains(x),
    decreases peaks.len(),
{
    if peaks.len() > 0 {
        let head = peaks.drop_last();
        lemma_by_index_members(head);
        lemma_insert_by_index_members(by_index(head), peaks.last());
    }
}

proof fn lemma_thinned_members(ranked: Seq<Peak>, min_distance: usize)
    ensures
        forall|x: Peak| #[trigger] thinned(ranked, min_distance).contains(x) ==> ranked.contains(x),
    decreases ranked.len(),
{
    if ranked.len() > 0 {
        let head = ranked.drop_last();
        lemma_thinned_members(head, min_distance);
        let kept = thinned(head, min_distance);
        assert forall|x: Peak| #[trigger] thinned(ranked, min_distance).contains(x) implies ranked.contains(
            x,
        ) by {
            let t = thinned(ranked, min_distance);
            let i = choose|i: int| 0 <= i < t.len() && t[i] == x;
            if i < kept.len() {
                assert(kept.contains(x));
            }
        }
    }
}

proof fn lemma_thinned_apart(ranked: Seq<Peak>, min_distance: usize)
    ensures
        forall|i: int, j: int|
            0 <= i < j < thinned(ranked, min_distance).len() ==> !crowds(
                #[trigger] thinned(ranked, min_distance)[i],
                #[trigger] thinned(ranked, min_distance)[j],
                min_distance,
            ),
    decreases ranked.len(),
{
    if ranked.len() > 0 {
        lemma_thinned_apart(ranked.drop_last(), min_distance);
        let kept = thinned(ranked.drop_last(), min_distance);
        let all = thinned(ranked, min_distance);
        assert forall|i: int, j: int| 0 <= i < j < all.len() implies !crowds(
            #[trigger] all[i],
            #[trigger] all[j],
            min_distance,
        ) by {
            if j < kept.len() {
                assert(!crowds(kept[i], kept[j], min_distance));
            } else {
                assert(!crowded(kept, ranked.last(), min_distance));
                assert(!crowds(kept[i], ranked.last(), min_distance));
            }
        }
    }
}

/// No two peaks that survive the distance filter are fewer than
/// `min_distance` indices apart.
pub proof fn lemma_spaced_apart(peaks: Seq<Peak>, min_distance: usize, a: Peak, b: Peak)
    requires
        spaced(peaks, min_distance).contains(a),
        spaced(peaks, min_distance).contains(b),
        a != b,
    ensures
        !crowds(a, b, min_distance),
{
    let kept = thinned(by_value(peaks), min_distance);
    lemma_thinned_apart(by_value(peaks), min_distance);
    lemma_by_index_members(kept);
}

/// Thinning by distance brings no peak that was not there before.
pub proof fn lemma_spaced_members(peaks: Seq<Peak>, min_distance: usize)
    ensures
        forall|x: Peak| #[trigger] spaced(peaks, min_distance).contains(x) ==> peaks.contains(x),
{
    lemma_by_value_members(peaks);
    lemma_thinned_members(by_value(peaks), min_distance);
    lemma_by_index_members(thinned(by_value(peaks), min_distance));
}

/// Thresholds of peak detection, in fixed-point units.
#[derive(Debug, Clone, Copy)]
pub struct FindPeakConfig {
    /// Least intensity of a peak.
    pub min_height: i64,
    /// Least prominence of a peak.
    pub min_prominence: i64,
    /// Least distance between two peaks, in indices; 0 and 1 switch the
    /// distance filter off.
    pub min_distance: usize,
}

impl Default for FindPeakConfig {
    fn default() -> (config: Self)
        ensures
            config.min_height == SCALE / 2,
            config.min_prominence == 3 * (SCALE / 10),
            config.min_distance == 10,
    {
        FindPeakConfig { min_height: SCALE / 2, min_prominence: 3 * (SCALE / 10), min_distance: 10 }
    }
}

impl FindPeakConfig {
    /// The peaks of `y` that the thresholds let through, in order of index.
    /// A minimum distance of at most 1 leaves the detected peaks as they are.
    pub open spec fn candidates(self, y: Seq<i64>) -> Seq<Peak> {
        let peaks = peaks_of(y, self.min_height, self.min_prominence);
        if self.min_distance > 1 {
            spaced(peaks, self.min_distance)
        } else {
            peaks
        }
    }
}

/// `ledger` after each of `peaks` that is not yet done was entered as
/// waiting with its value.
pub open spec fn entered(ledger: PeakLedger, peaks: Seq<Peak>) -> PeakLedger
    decreases peaks.len(),
{
    if peaks.len() == 0 {
        ledger
    } else {
        let head = entered(ledger, peaks.drop_last());
        let p = peaks.last();
        if head.processed.contains_key(p.index) {
            head
        } else {
            PeakLedger { unprocessed: head.unprocessed.insert(p.index, p.value), ..head }
        }
    }
}

proof fn lemma_entered(ledger: PeakLedger, peaks: Seq<Peak>, len: nat)
    requires
        forall|i: int| 0 <= i < peaks.len() ==> (#[trigger] peaks[i]).index < len,
    ensures
        entered(ledger, peaks).processed == ledger.processed,
        entered(ledger, peaks).current == ledger.current,
        peaks.len() == 0 ==> entered(ledger, peaks) == ledger,
        forall|k: usize| #[trigger]
            entered(ledger, peaks).unprocessed.contains_key(k) ==> ledger.unprocessed.contains_key(
                k,
            ) || (k < len && !ledger.processed.contains_key(k)),
        forall|k: usize| #[trigger]
            ledger.unprocessed.contains_key(k) ==> entered(ledger, peaks).unprocessed.contains_key(
                k,
            ),
    decreases peaks.len(),
{
    if peaks.len() > 0 {
        let head = peaks.drop_last();
        lemma_entered(ledger, head, len);
    }
}

/// What the peak-finding stage does to a sample and its descriptor: the
/// candidates that are not yet done are entered as waiting; if none waits
/// the result asks for nothing more, else a highest waiting peak becomes
/// the peak in work and the one request goes to the peak processor. The
/// sample takes over the descriptor's bookkeeping and counts one stage.
pub open spec fn finds_peaks(
    config: FindPeakConfig,
    sample: SampleView,
    metadata: FlowLedger,
    result: StageResult,
) -> bool {
    let waiting = entered(metadata.peaks, config.candidates(sample.intensity));
    &&& result.sample@ == (SampleView {
        stage_num: (sample.stage_num + 1) as u32,
        metadata: result.metadata@.peaks,
        ..sample
    })
    &&& result.metadata@.sample_id == metadata.sample_id
    &&& if waiting.unprocessed.dom() =~= Set::<usize>::empty() {
        &&& result.metadata@.peaks == waiting
        &&& result.requests@.len() == 0
    } else {
        &&& result.metadata@.peaks.current matches Some(k) && waiting.is_highest(k)
            && result.metadata@.peaks == waiting.select(k)
        &&& result.requests@.len() == 1
        &&& result.requests@[0]@ == (StageId::ProcessPeak, result.metadata@)
    }
}

/// A minimum distance of 0 or 1 switches the distance filter off: the
/// candidates are the detected peaks, all of them.
pub proof fn lemma_small_distance_keeps_every_peak(config: FindPeakConfig, y: Seq<i64>)
    requires
        config.min_distance <= 1,
    ensures
        config.candidates(y) == peaks_of(y, config.min_height, config.min_prominence),
{
}

/// A sample in which the peak finder detects no peak, and for which none
/// waits, ends its run with that one invocation: the result asks for nothing
/// more, and the stage counter has gone up by one.
pub proof fn lemma_no_peak_ends_the_run(
    config: FindPeakConfig,
    sample: SampleView,
    metadata: FlowLedger,
    result: StageResult,
)
    requires
        finds_peaks(config, sample, metadata, result),
        config.candidates(sample.intensity).len() == 0,
        metadata.peaks.unprocessed.dom() =~= Set::<usize>::empty(),
    ensures
        result.requests@.len() == 0,
        result.sample@.stage_num == (sample.stage_num + 1) as u32,
        result.metadata@.peaks == metadata.peaks,
{
}

/// The stage that finds the peaks of a sample's intensity.
#[derive(Debug, Clone, Copy)]
pub struct FindPeakStage {
    pub config: FindPeakConfig,
}

impl Default for FindPeakStage {
    fn default() -> (stage: Self)
        ensures
            stage.config.min_height == SCALE / 2,
            stage.config.min_prominence == 3 * (SCALE / 10),
            stage.config.min_distance == 10,
    {
        FindPeakStage { config: FindPeakConfig::default() }
    }
}

impl FindPeakStage {
    /// A stage with the given thresholds.
    pub fn new(config: FindPeakConfig) -> (stage: Self)
        ensures
            stage.config == config,
    {
        FindPeakStage { config }
    }

    /// A stage with the default thresholds: height 0.5, prominence 0.3,
    /// distance 10.
    pub fn with_defaults() -> (stage: Self)
        ensures
            stage.config.min_height == SCALE / 2,
            stage.config.min_prominence == 3 * (SCALE / 10),
            stage.config.min_distance == 10,
    {
        FindPeakStage { config: FindPeakConfig::default() }
    }

    /// The peaks of `intensity` that the thresholds let through.
    pub fn detect(&self, intensity: &[i64]) -> (peaks: Vec<Peak>)
        ensures
            peaks@ == self.config.candidates(intensity@),
            forall|i: int| 0 <= i < peaks@.len() ==> (#[trigger] peaks@[i]).index < intensity@.len(),
    {
        let found = find_peaks(intensity, self.config.min_height, self.config.min_prominence);
        let len: usize = intensity.len();
        proof {
            let all = peaks_of(intensity@, self.config.min_height, self.config.min_prominence);
            lemma_peaks_before(
                intensity@,
                self.config.min_height,
                self.config.min_prominence,
                intensity@.len() as int,
            );
            lemma_spaced_members(all, self.config.min_distance);
            let chosen = self.config.candidates(intensity@);
            assert forall|i: int| 0 <= i < chosen.len() implies (#[trigger] chosen[i]).index
                < intensity@.len() by {
                if self.config.min_distance > 1 {
                    assert(chosen.contains(chosen[i]));
                }
            }
        }
        if self.config.min_distance > 1 {
            filter_by_distance(found, self.config.min_distance)
        } else {
            found
        }
    }
}

impl Stage for FindPeakStage {
    open spec fn stage_id(&self) -> StageId {
        StageId::FindPeak
    }

    open spec fn outcome(&self, sample: SampleView, metadata: FlowLedger, result: StageResult) -> bool {
        &&& finds_peaks(self.config, sample, metadata, result)
        &&& metadata.peaks.disjoint() ==> result.metadata@.peaks.disjoint()
        &&& metadata.peaks.within(sample.intensity.len()) ==> result.metadata@.peaks.within(
            sample.intensity.len(),
        )
    }

    fn id(&self) -> (id: StageId) {
        StageId::FindPeak
    }

    /// Detects the peaks of the sample's intensity and picks the next one to
    /// work on. A sample without a waiting peak ends here. A disjoint ledger
    /// stays disjoint, and one within the sample's length stays within it.
    fn process(&self, sample: Sample, metadata: FlowMetadata) -> (result: StageResult) {
        let mut sample = sample;
        let mut metadata = metadata;
        let ghost before = metadata@;
        let peaks = self.detect(sample.intensity_ref());

        let mut i: usize = 0;
        while i < peaks.len()
            invariant
                i <= peaks@.len(),
                metadata@.sample_id == before.sample_id,
                metadata@.peaks == entered(before.peaks, peaks@.take(i as int)),
            decreases peaks@.len() - i,
        {
            let peak = peaks[i];
            assert(peaks@.take(i + 1).drop_last() =~= peaks@.take(i as int));
            if !metadata.processed_peaks.contains_key(&peak.index) {
                metadata.unprocessed_peaks.insert(peak.index, peak.value);
            }
            i = i + 1;
        }
        proof {
            assert(peaks@.take(peaks@.len() as int) =~= peaks@);
            lemma_entered(before.peaks, peaks@, sample@.intensity.len());
        }

        let requests = match metadata.select_highest_peak() {
            Some(_) => vec![StageRequest::new(StageId::ProcessPeak, metadata.clone())],
            None => Vec::new(),
        };
        metadata.apply_to_sample(&mut sample.metadata);
        sample.advance_stage();
        StageResult::with_requests(sample, metadata, requests)
    }
}

} // verus!
