//! Peak bookkeeping of a sample and the copy of it that travels between stages.

use std::collections::HashMap;
use vstd::prelude::*;
use vstd::std_specs::iter::IteratorSpec;

verus! {

broadcast use vstd::std_specs::hash::group_hash_axioms;

/// The bookkeeping of one sample as mathematical maps: the peaks that wait,
/// the peaks that are done, and the one in work.
pub struct PeakLedger {
    /// Detected peaks that still wait, by index, with their intensity.
    pub unprocessed: Map<usize, i64>,
    /// Peaks that were fitted and subtracted, by index, with their amplitude.
    pub processed: Map<usize, i64>,
    /// The peak in work, if any.
    pub current: Option<usize>,
}

impl PeakLedger {
    /// The ledger of a fresh sample.
    pub open spec fn empty() -> PeakLedger {
        PeakLedger { unprocessed: Map::empty(), processed: Map::empty(), current: None }
    }

    /// No index is waiting and done at once, and the peak in work is neither.
    pub open spec fn disjoint(self) -> bool {
        &&& forall|k: usize| !(self.unprocessed.contains_key(k) && self.processed.contains_key(k))
        &&& self.current matches Some(c) ==> !self.unprocessed.contains_key(c)
            && !self.processed.contains_key(c)
    }

    /// Every index in the ledger is below `len`.
    pub open spec fn within(self, len: nat) -> bool {
        &&& forall|k: usize| self.unprocessed.contains_key(k) ==> k < len
        &&& forall|k: usize| self.processed.contains_key(k) ==> k < len
        &&& self.current matches Some(c) ==> c < len
    }

    /// `k` waits, and no waiting peak has a larger intensity.
    pub open spec fn is_highest(self, k: usize) -> bool {
        &&& self.unprocessed.contains_key(k)
        &&& forall|j: usize|
            self.unprocessed.contains_key(j) ==> self.unprocessed[j] <= self.unprocessed[k]
    }

    /// The ledger after `k` left the waiting peaks to become the peak in work.
    pub open spec fn select(self, k: usize) -> PeakLedger {
        PeakLedger { unprocessed: self.unprocessed.remove(k), current: Some(k), ..self }
    }

    /// The ledger after the peak in work, if any, was booked as done with
    /// `amplitude`.
    pub open spec fn mark(self, amplitude: i64) -> PeakLedger {
        match self.current {
            Some(c) => PeakLedger {
                processed: self.processed.insert(c, amplitude),
                current: None,
                ..self
            },
            None => self,
        }
    }

    /// The ledger after `peaks` were entered as waiting, one after the other;
    /// a later entry for an index replaces an earlier one.
    pub open spec fn extend(self, peaks: Seq<(usize, i64)>) -> PeakLedger
        decreases peaks.len(),
    {
        if peaks.len() == 0 {
            self
        } else {
            let head = self.extend(peaks.drop_last());
            PeakLedger {
                unprocessed: head.unprocessed.insert(peaks.last().0, peaks.last().1),
                ..head
            }
        }
    }
}

/// Selecting a highest peak and booking the peak in work keep a ledger
/// disjoint: at no point is an index waiting, done or in work twice over.
pub proof fn lemma_ledger_stays_disjoint(ledger: PeakLedger, k: usize, amplitude: i64)
    requires
        ledger.disjoint(),
    ensures
        ledger.unprocessed.contains_key(k) ==> ledger.select(k).disjoint(),
        ledger.mark(amplitude).disjoint(),
{
}

/// Entering peaks as waiting keeps a disjoint ledger disjoint where none of
/// them is done or in work.
pub proof fn lemma_extend_stays_disjoint(ledger: PeakLedger, peaks: Seq<(usize, i64)>)
    requires
        ledger.disjoint(),
        forall|i: int|
            0 <= i < peaks.len() ==> !ledger.processed.contains_key((#[trigger] peaks[i]).0)
                && ledger.current != Some(peaks[i].0),
    ensures
        ledger.extend(peaks).disjoint(),
        ledger.extend(peaks).processed == ledger.processed,
        ledger.extend(peaks).current == ledger.current,
    decreases peaks.len(),
{
    if peaks.len() > 0 {
        let head = peaks.drop_last();
        lemma_extend_stays_disjoint(ledger, head);
    }
}

/// Key of a largest value of `m`, or `None` for an empty map.
fn highest_entry(m: &HashMap<usize, i64>) -> (found: Option<usize>)
    ensures
        found is None <==> m@.dom() =~= Set::<usize>::empty(),
        found matches Some(k) ==> {
            &&& m@.contains_key(k)
            &&& forall|j: usize| m@.contains_key(j) ==> m@[j] <= m@[k]
        },
{
    let mut best: Option<(usize, i64)> = None;
    for entry in it: m.iter()
        invariant
            best is None <==> it.index() == 0,
            best matches Some((k, v)) ==> {
                &&& m@.contains_key(k)
                &&& m@[k] == v
                &&& forall|i: int| 0 <= i < it.index() ==> *(#[trigger] it.seq()[i]).1 <= v
            },
            it.seq() == m.iter().remaining(),
    {
        let (k, v) = entry;
        match best {
            None => {
                best = Some((*k, *v));
            },
            Some((_, bv)) => {
                if *v > bv {
                    best = Some((*k, *v));
                }
            },
        }
    }
    match best {
        None => None,
        Some((k, _)) => Some(k),
    }
}

/// Peak bookkeeping that a sample carries.
#[derive(Debug)]
pub struct SampleMetadata {
    /// Detected peaks that still wait, by index, with their intensity.
    pub unprocessed_peaks: HashMap<usize, i64>,
    /// Peaks that were fitted and subtracted, by index, with their amplitude.
    pub processed_peaks: HashMap<usize, i64>,
    /// The peak in work, if any.
    pub current_peak: Option<usize>,
}

impl View for SampleMetadata {
    type V = PeakLedger;

    open spec fn view(&self) -> PeakLedger {
        PeakLedger {
            unprocessed: self.unprocessed_peaks@,
            processed: self.processed_peaks@,
            current: self.current_peak,
        }
    }
}

impl Clone for SampleMetadata {
    fn clone(&self) -> (copy: Self)
        ensures
            copy@ == self@,
    {
        SampleMetadata {
            unprocessed_peaks: self.unprocessed_peaks.clone(),
            processed_peaks: self.processed_peaks.clone(),
            current_peak: self.current_peak,
        }
    }
}

impl Default for SampleMetadata {
    fn default() -> (metadata: Self)
        ensures
            metadata@ == PeakLedger::empty(),
    {
        SampleMetadata::new()
    }
}

impl SampleMetadata {
    /// Bookkeeping with no peak in it.
    pub fn new() -> (metadata: Self)
        ensures
            metadata@ == PeakLedger::empty(),
    {
        SampleMetadata {
            unprocessed_peaks: HashMap::new(),
            processed_peaks: HashMap::new(),
            current_peak: None,
        }
    }

    /// Enters `peaks` as waiting, in their order.
    pub fn add_unprocessed_peaks(&mut self, peaks: Vec<(usize, i64)>)
        ensures
            final(self)@ == old(self)@.extend(peaks@),
    {
        let mut i: usize = 0;
        while i < peaks.len()
            invariant
                i <= peaks@.len(),
                self@ == old(self)@.extend(peaks@.take(i as int)),
            decreases peaks@.len() - i,
        {
            assert(peaks@.take(i + 1).drop_last() =~= peaks@.take(i as int));
            let (index, value) = peaks[i];
            self.unprocessed_peaks.insert(index, value);
            i = i + 1;
        }
        assert(peaks@.take(peaks@.len() as int) =~= peaks@);
    }

    /// Takes a waiting peak of the highest intensity out of the waiting
    /// peaks and makes it the peak in work. Which of several equally high
    /// peaks is taken is left open. With no peak waiting nothing changes.
    pub fn select_highest_peak(&mut self) -> (selected: Option<usize>)
        ensures
            selected is None <==> old(self)@.unprocessed.dom() =~= Set::<usize>::empty(),
            selected is None ==> final(self)@ == old(self)@,
            selected matches Some(k) ==> old(self)@.is_highest(k) && final(self)@ == old(
                self,
            )@.select(k),
            old(self)@.disjoint() ==> final(self)@.disjoint(),
    {
        match highest_entry(&self.unprocessed_peaks) {
            Some(idx) => {
                self.unprocessed_peaks.remove(&idx);
                self.current_peak = Some(idx);
                Some(idx)
            },
            None => None,
        }
    }

    /// Books the peak in work as done with `amplitude`; without a peak in
    /// work nothing changes.
    pub fn mark_current_processed(&mut self, amplitude: i64)
        ensures
            final(self)@ == old(self)@.mark(amplitude),
            old(self)@.disjoint() ==> final(self)@.disjoint(),
    {
        match self.current_peak {
            Some(idx) => {
                self.processed_peaks.insert(idx, amplitude);
                self.current_peak = None;
            },
            None => {},
        }
    }

    /// Whether any peak waits.
    pub fn has_unprocessed_peaks(&self) -> (any: bool)
        ensures
            any == !(self@.unprocessed.dom() =~= Set::<usize>::empty()),
    {
        !self.unprocessed_peaks.is_empty()
    }

    /// Forgets every peak.
    pub fn clear_peaks(&mut self)
        ensures
            final(self)@ == PeakLedger::empty(),
    {
        self.unprocessed_peaks.clear();
        self.processed_peaks.clear();
        self.current_peak = None;
    }
}

/// What a [`FlowMetadata`] holds: the sample's identifier and a ledger.
pub struct FlowLedger {
    pub sample_id: Seq<char>,
    pub peaks: PeakLedger,
}

/// The descriptor handed from stage to stage: the sample's identifier and a
/// copy of its peak bookkeeping, which a stage may change without touching
/// the sample's own.
#[derive(Debug)]
pub struct FlowMetadata {
    /// Identifier of the sample this descriptor belongs to.
    pub sample_id: String,
    /// Peaks that were fitted and subtracted, by index, with their amplitude.
    pub processed_peaks: HashMap<usize, i64>,
    /// Detected peaks that still wait, by index, with their intensity.
    pub unprocessed_peaks: HashMap<usize, i64>,
    /// The peak in work, if any.
    pub current_peak: Option<usize>,
}

impl View for FlowMetadata {
    type V = FlowLedger;

    open spec fn view(&self) -> FlowLedger {
        FlowLedger {
            sample_id: self.sample_id@,
            peaks: PeakLedger {
                unprocessed: self.unprocessed_peaks@,
                processed: self.processed_peaks@,
                current: self.current_peak,
            },
        }
    }
}

impl Clone for FlowMetadata {
    fn clone(&self) -> (copy: Self)
        ensures
            copy@ == self@,
    {
        FlowMetadata {
            sample_id: self.sample_id.clone(),
            processed_peaks: self.processed_peaks.clone(),
            unprocessed_peaks: self.unprocessed_peaks.clone(),
            current_peak: self.current_peak,
        }
    }
}

impl Default for FlowMetadata {
    fn default() -> (metadata: Self)
        ensures
            metadata@ == (FlowLedger { sample_id: Seq::empty(), peaks: PeakLedger::empty() }),
    {
        FlowMetadata {
            sample_id: String::new(),
            processed_peaks: HashMap::new(),
            unprocessed_peaks: HashMap::new(),
            current_peak: None,
        }
    }
}

impl FlowMetadata {
    /// A descriptor for `sample_id` with no peak in it.
    pub fn new(sample_id: &str) -> (metadata: Self)
        ensures
            metadata@ == (FlowLedger { sample_id: sample_id@, peaks: PeakLedger::empty() }),
    {
        FlowMetadata {
            sample_id: sample_id.to_owned(),
            processed_peaks: HashMap::new(),
            unprocessed_peaks: HashMap::new(),
            current_peak: None,
        }
    }

    /// Number of peaks that are done.
    pub fn processed_count(&self) -> (count: usize)
        ensures
            count == self@.peaks.processed.len(),
    {
        self.processed_peaks.len()
    }

    /// Number of peaks that wait.
    pub fn unprocessed_count(&self) -> (count: usize)
        ensures
            count == self@.peaks.unprocessed.len(),
    {
        self.unprocessed_peaks.len()
    }

    /// A descriptor for `sample_id` with a copy of `metadata`.
    pub fn from_sample(sample_id: &str, metadata: &SampleMetadata) -> (flow: Self)
        ensures
            flow@ == (FlowLedger { sample_id: sample_id@, peaks: metadata@ }),
    {
        FlowMetadata {
            sample_id: sample_id.to_owned(),
            processed_peaks: metadata.processed_peaks.clone(),
            unprocessed_peaks: metadata.unprocessed_peaks.clone(),
            current_peak: metadata.current_peak,
        }
    }

    /// Writes the descriptor's bookkeeping over `metadata`.
    pub fn apply_to_sample(&self, metadata: &mut SampleMetadata)
        ensures
            final(metadata)@ == self@.peaks,
    {
        metadata.processed_peaks = self.processed_peaks.clone();
        metadata.unprocessed_peaks = self.unprocessed_peaks.clone();
        metadata.current_peak = self.current_peak;
    }

    /// Takes a waiting peak of the highest intensity out of the waiting
    /// peaks and makes it the peak in work. Which of several equally high
    /// peaks is taken is left open. With no peak waiting nothing changes.
    pub fn select_highest_peak(&mut self) -> (selected: Option<usize>)
        ensures
            final(self)@.sample_id == old(self)@.sample_id,
            selected is None <==> old(self)@.peaks.unprocessed.dom() =~= Set::<usize>::empty(),
            selected is None ==> final(self)@ == old(self)@,
            selected matches Some(k) ==> old(self)@.peaks.is_highest(k) && final(self)@.peaks
                == old(self)@.peaks.select(k),
            old(self)@.peaks.disjoint() ==> final(self)@.peaks.disjoint(),
    {
        match highest_entry(&self.unprocessed_peaks) {
            Some(idx) => {
                self.unprocessed_peaks.remove(&idx);
                self.current_peak = Some(idx);
                Some(idx)
            },
            None => None,
        }
    }

    /// Books the peak in work as done with `amplitude`; without a peak in
    /// work nothing changes.
    pub fn mark_current_processed(&mut self, amplitude: i64)
        ensures
            final(self)@.sample_id == old(self)@.sample_id,
            final(self)@.peaks == old(self)@.peaks.mark(amplitude),
            old(self)@.peaks.disjoint() ==> final(self)@.peaks.disjoint(),
    {
        match self.current_peak {
            Some(idx) => {
                self.processed_peaks.insert(idx, amplitude);
                self.current_peak = None;
            },
            None => {},
        }
    }
}

} // verus!
