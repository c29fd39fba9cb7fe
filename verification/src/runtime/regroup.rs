//! The regroup pool: samples gathered by stage, with checkpoint barriers.

use crate::data::sample::Sample;
use std::collections::{HashMap, HashSet};
use vstd::prelude::*;
use vstd::std_specs::iter::IteratorSpec;

verus! {

broadcast use vstd::std_specs::hash::group_hash_axioms;

/// What a [`RegroupPool`] holds.
pub struct PoolView {
    /// The samples of each stage that has any, in the order they came.
    pub buckets: Map<u32, Seq<Sample>>,
    /// The stages at which the whole batch has to meet.
    pub checkpoints: Set<u32>,
    /// Number of samples in the batch.
    pub expected_count: nat,
}

impl PoolView {
    /// The samples gathered at `stage`, in the order they came.
    pub open spec fn bucket(self, stage: u32) -> Seq<Sample> {
        if self.buckets.contains_key(stage) {
            self.buckets[stage]
        } else {
            Seq::empty()
        }
    }

    /// `stage` is a checkpoint that the whole batch has reached.
    pub open spec fn ready(self, stage: u32) -> bool {
        &&& self.checkpoints.contains(stage)
        &&& self.expected_count > 0
        &&& self.bucket(stage).len() >= self.expected_count
    }

    /// No bucket is empty, and every sample lies in the bucket of its own
    /// stage counter.
    pub open spec fn sound(self) -> bool {
        forall|stage: u32| #[trigger]
            self.buckets.contains_key(stage) ==> self.buckets[stage].len() > 0 && forall|i: int|
                0 <= i < self.buckets[stage].len() ==> (
                #[trigger] self.buckets[stage][i]).stage_num == stage
    }

    /// Number of samples in all buckets.
    pub open spec fn total(self) -> nat {
        self.buckets.dom().fold(0nat, tally(self.buckets))
    }

    /// `sample` lies in the bucket of a stage from `min_stage` on.
    pub open spec fn holds_from(self, min_stage: u32, sample: Sample) -> bool {
        exists|stage: u32|
            stage >= min_stage && #[trigger] self.buckets.contains_key(stage)
                && self.buckets[stage].contains(sample)
    }

    /// The stages from `min_stage` on that have samples.
    pub open spec fn stages_from(self, min_stage: u32) -> Set<u32> {
        self.buckets.dom().filter(|stage: u32| stage >= min_stage)
    }
}

/// Adds the size of the bucket of a stage to a sum.
pub open spec fn tally(buckets: Map<u32, Seq<Sample>>) -> spec_fn(nat, u32) -> nat {
    |sum: nat, stage: u32| sum + buckets[stage].len()
}

/// Each element of `stages` is below the next.
pub open spec fn ascending(stages: Seq<u32>) -> bool {
    forall|i: int, j: int| 0 <= i < j < stages.len() ==> stages[i] < stages[j]
}

/// The buckets of the stages in `order`, one after the other.
pub open spec fn gathered(buckets: Map<u32, Seq<Sample>>, order: Seq<u32>) -> Seq<Sample>
    decreases order.len(),
{
    if order.len() == 0 {
        Seq::empty()
    } else {
        gathered(buckets, order.drop_last()) + buckets[order.last()]
    }
}

/// Gathers samples by their stage counter. Some stages can be named
/// checkpoints: their samples are handed out only when as many have arrived
/// as the batch holds.
pub struct RegroupPool {
    pools: HashMap<u32, Vec<Sample>>,
    checkpoints: HashSet<u32>,
    expected_count: usize,
}

impl View for RegroupPool {
    type V = PoolView;

    closed spec fn view(&self) -> PoolView {
        PoolView {
            buckets: Map::new(
                |stage: u32| self.pools@.contains_key(stage),
                |stage: u32| self.pools@[stage]@,
            ),
            checkpoints: self.checkpoints@,
            expected_count: self.expected_count as nat,
        }
    }
}

impl Default for RegroupPool {
    fn default() -> (pool: Self)
        ensures
            pool@ == (PoolView { buckets: Map::empty(), checkpoints: Set::empty(), expected_count: 0 }),
    {
        RegroupPool::new()
    }
}

impl RegroupPool {
    /// An empty pool without checkpoints.
    pub fn new() -> (pool: Self)
        ensures
            pool@ == (PoolView { buckets: Map::empty(), checkpoints: Set::empty(), expected_count: 0 }),
    {
        let pool = RegroupPool {
            pools: HashMap::new(),
            checkpoints: HashSet::new(),
            expected_count: 0,
        };
        assert(pool@.buckets =~= Map::<u32, Seq<Sample>>::empty());
        pool
    }

    /// An empty pool for a batch of `expected` samples.
    pub fn with_expected_count(expected: usize) -> (pool: Self)
        ensures
            pool@ == (PoolView {
                buckets: Map::empty(),
                checkpoints: Set::empty(),
                expected_count: expected as nat,
            }),
    {
        let pool = RegroupPool {
            pools: HashMap::new(),
            checkpoints: HashSet::new(),
            expected_count: expected,
        };
        assert(pool@.buckets =~= Map::<u32, Seq<Sample>>::empty());
        pool
    }

    /// Sets the number of samples in the batch.
    pub fn set_expected_count(&mut self, count: usize)
        ensures
            final(self)@ == (PoolView { expected_count: count as nat, ..old(self)@ }),
    {
        self.expected_count = count;
    }

    /// Makes `stages`, and no others, the checkpoints.
    pub fn set_checkpoints(&mut self, stages: &[u32])
        ensures
            final(self)@ == (PoolView { checkpoints: stages@.to_set(), ..old(self)@ }),
    {
        self.checkpoints.clear();
        let mut i: usize = 0;
        while i < stages.len()
            invariant
                i <= stages@.len(),
                self.pools == old(self).pools,
                self.expected_count == old(self).expected_count,
                self.checkpoints@ =~= stages@.take(i as int).to_set(),
            decreases stages@.len() - i,
        {
            self.checkpoints.insert(stages[i]);
            assert(stages@.take(i + 1).to_set() =~= stages@.take(i as int).to_set().insert(
                stages@[i as int],
            )) by {
                assert(stages@.take(i + 1) =~= stages@.take(i as int).push(stages@[i as int]));
                assert forall|x: u32|
                    stages@.take(i as int).push(stages@[i as int]).to_set().contains(x)
                    == stages@.take(i as int).to_set().insert(stages@[i as int]).contains(x) by {
                    let longer = stages@.take(i as int).push(stages@[i as int]);
                    assert(longer[i as int] == stages@[i as int]);
                }
            }
            i = i + 1;
        }
        assert(stages@.take(stages@.len() as int) =~= stages@);
    }

    /// Makes `stage` a checkpoint.
    pub fn add_checkpoint(&mut self, stage: u32)
        ensures
            final(self)@ == (PoolView {
                checkpoints: old(self)@.checkpoints.insert(stage),
                ..old(self)@
            }),
    {
        self.checkpoints.insert(stage);
    }

    /// Leaves no stage a checkpoint.
    pub fn clear_checkpoints(&mut self)
        ensures
            final(self)@ == (PoolView { checkpoints: Set::empty(), ..old(self)@ }),
    {
        self.checkpoints.clear();
    }

    /// Whether `stage` is a checkpoint.
    pub fn is_checkpoint(&self, stage: u32) -> (held: bool)
        ensures
            held == self@.checkpoints.contains(stage),
    {
        self.checkpoints.contains(&stage)
    }

    /// Puts `sample` behind the samples of its stage counter.
    pub fn add(&mut self, sample: Sample)
        ensures
            final(self)@ == (PoolView {
                buckets: old(self)@.buckets.insert(
                    sample.stage_num,
                    old(self)@.bucket(sample.stage_num).push(sample),
                ),
                ..old(self)@
            }),
            old(self)@.sound() ==> final(self)@.sound(),
    {
        let stage: u32 = sample.stage_num;
        let mut bucket: Vec<Sample> = match self.pools.remove(&stage) {
            Some(bucket) => bucket,
            None => Vec::new(),
        };
        bucket.push(sample);
        self.pools.insert(stage, bucket);
        assert(self@.buckets =~= old(self)@.buckets.insert(
            stage,
            old(self)@.bucket(stage).push(sample),
        ));
    }

    /// Whether `stage` is a checkpoint that the whole batch has reached: the
    /// batch is not empty and at least as many samples wait at `stage` as
    /// the batch holds.
    pub fn checkpoint_ready(&self, stage: u32) -> (ready: bool)
        ensures
            ready == self@.ready(stage),
            ready ==> self@.bucket(stage).len() >= self@.expected_count,
    {
        if !self.checkpoints.contains(&stage) {
            return false;
        }
        let count: usize = self.count_at_stage(stage);
        count >= self.expected_count && self.expected_count > 0
    }

    /// Number of samples gathered at `stage`.
    pub fn count_at_stage(&self, stage: u32) -> (count: usize)
        ensures
            count == self@.bucket(stage).len(),
    {
        match self.pools.get(&stage) {
            Some(bucket) => bucket.len(),
            None => 0,
        }
    }

    /// Harvests every sample whose stage is `min_stage` or later, whether or
    /// not its stage is a checkpoint. The samples come bucket by bucket in
    /// ascending order of stage, and within a bucket in the order they came.
    /// No sample of such a stage stays behind.
    pub fn regroup(&mut self, min_stage: u32) -> (harvest: Vec<Sample>)
        ensures
            final(self)@ == (PoolView {
                buckets: old(self)@.buckets.remove_keys(old(self)@.stages_from(min_stage)),
                ..old(self)@
            }),
            exists|order: Seq<u32>|
                ascending(order) && order.to_set() == old(self)@.stages_from(min_stage)
                    && harvest@ == gathered(old(self)@.buckets, order),
            forall|stage: u32| #[trigger]
                final(self)@.buckets.contains_key(stage) ==> stage < min_stage,
            old(self)@.sound() ==> final(self)@.sound(),
            old(self)@.sound() ==> forall|i: int|
                0 <= i < harvest@.len() ==> (#[trigger] harvest@[i]).stage_num >= min_stage,
            forall|i: int|
                0 <= i < harvest@.len() ==> old(self)@.holds_from(min_stage, #[trigger] harvest@[i]),
    {
        let stages = self.stages_with_samples();
        let mut harvest: Vec<Sample> = Vec::new();
        let ghost before = self@;
        let ghost mut order: Seq<u32> = Seq::empty();
        let mut i: usize = 0;
        assert(self@.buckets =~= before.buckets.remove_keys(order.to_set()));
        while i < stages.len()
            invariant
                i <= stages@.len(),
                before == old(self)@,
                ascending(stages@),
                stages@.to_set() == before.buckets.dom(),
                self@.checkpoints == before.checkpoints,
                self@.expected_count == before.expected_count,
                self@.buckets == before.buckets.remove_keys(order.to_set()),
                ascending(order),
                forall|x: u32|
                    order.contains(x) <==> x >= min_stage && exists|k: int|
                        0 <= k < i && #[trigger] stages@[k] == x,
                harvest@ == gathered(before.buckets, order),
                before.sound() ==> forall|j: int|
                    0 <= j < harvest@.len() ==> (#[trigger] harvest@[j]).stage_num >= min_stage,
                forall|j: int|
                    0 <= j < harvest@.len() ==> before.holds_from(min_stage, #[trigger] harvest@[j]),
            decreases stages@.len() - i,
        {
            let stage: u32 = stages[i];
            let ghost earlier = order;
            let ghost gathered_before = harvest@;
            if stage >= min_stage {
                proof {
                    assert(stages@.contains(stage));
                    assert(stages@.to_set().contains(stage));
                    assert(before.buckets.contains_key(stage));
                    if earlier.contains(stage) {
                        let k = choose|k: int| 0 <= k < i && #[trigger] stages@[k] == stage;
                        assert(stages@[k] < stages@[i as int]);
                    }
                    assert(!earlier.to_set().contains(stage));
                    assert(self@.buckets.contains_key(stage));
                    assert(self@.buckets[stage] == before.buckets[stage]);
                }
                let ghost mid = self@;
                let ghost held = self.pools@;
                assert(held.contains_key(stage) && held[stage]@ == mid.buckets[stage]);
                match self.pools.remove(&stage) {
                    Some(bucket) => {
                        let mut bucket = bucket;
                        assert(bucket@ == before.buckets[stage]);
                        harvest.append(&mut bucket);
                        assert forall|j: int| 0 <= j < harvest@.len() implies before.holds_from(
                            min_stage,
                            #[trigger] harvest@[j],
                        ) by {
                            if j >= gathered_before.len() {
                                assert(harvest@[j] == before.buckets[stage][j
                                    - gathered_before.len()]);
                                assert(before.buckets[stage].contains(harvest@[j]));
                            } else {
                                assert(harvest@[j] == gathered_before[j]);
                            }
                        }
                    },
                    None => {},
                }
                proof {
                    assert(self.pools@ == held.remove(stage));
                    assert(self@.buckets =~= mid.buckets.remove(stage));
                    order = earlier.push(stage);
                    assert(order.drop_last() =~= earlier);
                    assert(ascending(order)) by {
                        assert forall|a: int, b: int| 0 <= a < b < order.len() implies order[a]
                            < order[b] by {
                            if b == order.len() - 1 {
                                assert(earlier.contains(earlier[a]));
                                let k = choose|k: int|
                                    0 <= k < i && #[trigger] stages@[k] == earlier[a];
                                assert(stages@[k] < stages@[i as int]);
                            } else {
                                assert(earlier[a] < earlier[b]);
                            }
                        }
                    }
                    assert(order.to_set() =~= earlier.to_set().insert(stage)) by {
                        assert forall|x: u32| order.to_set().contains(x) == earlier.to_set().insert(
                            stage,
                        ).contains(x) by {
                            if order.contains(x) {
                                let k = choose|k: int| 0 <= k < order.len() && order[k] == x;
                                if k < earlier.len() {
                                    assert(earlier[k] == x);
                                }
                            }
                            if earlier.contains(x) {
                                let k = choose|k: int| 0 <= k < earlier.len() && earlier[k] == x;
                                assert(order[k] == x);
                            }
                            assert(order[order.len() - 1] == stage);
                        }
                    }
                    assert(self@.buckets =~= before.buckets.remove_keys(order.to_set()));
                }
            }
            proof {
                assert forall|x: u32|
                    order.contains(x) <==> x >= min_stage && exists|k: int|
                        0 <= k < i + 1 && #[trigger] stages@[k] == x by {
                    let listed = earlier.contains(x);
                    let met = exists|k: int| 0 <= k < i && #[trigger] stages@[k] == x;
                    assert(listed <==> x >= min_stage && met);
                    assert(stages@[i as int] == stage);
                    if order.contains(x) {
                        let j = choose|j: int| 0 <= j < order.len() && order[j] == x;
                        if j < earlier.len() {
                            assert(earlier[j] == x);
                            assert(listed);
                            let k = choose|k: int| 0 <= k < i && #[trigger] stages@[k] == x;
                            assert(0 <= k < i + 1 && stages@[k] == x);
                        } else {
                            assert(x == stage);
                        }
                    }
                    if x >= min_stage && exists|k: int| 0 <= k < i + 1 && #[trigger] stages@[k] == x {
                        let k = choose|k: int| 0 <= k < i + 1 && #[trigger] stages@[k] == x;
                        if k < i {
                            assert(met);
                            let j = choose|j: int| 0 <= j < earlier.len() && earlier[j] == x;
                            assert(order[j] == x);
                        } else {
                            assert(order[order.len() - 1] == x);
                        }
                    }
                }
            }
            i = i + 1;
        }
        proof {
            assert(order.to_set() =~= before.stages_from(min_stage)) by {
                assert forall|x: u32| order.to_set().contains(x) == before.stages_from(
                    min_stage,
                ).contains(x) by {
                    if order.contains(x) {
                        let k = choose|k: int| 0 <= k < stages@.len() && #[trigger] stages@[k] == x;
                        assert(stages@.contains(x));
                        assert(stages@.to_set().contains(x));
                    }
                    if before.buckets.dom().contains(x) && x >= min_stage {
                        assert(stages@.to_set().contains(x));
                        let k = choose|k: int| 0 <= k < stages@.len() && stages@[k] == x;
                        assert(stages@[k] == x);
                    }
                }
            }
        }
        harvest
    }

    /// Hands out the samples gathered at `stage`. Nothing is handed out
    /// where none is gathered there, nor at a checkpoint that the batch has
    /// not reached yet.
    pub fn collect_at_stage(&mut self, stage: u32) -> (samples: Option<Vec<Sample>>)
        ensures
            samples is Some <==> old(self)@.buckets.contains_key(stage) && (old(
                self,
            )@.checkpoints.contains(stage) ==> old(self)@.ready(stage)),
            samples matches Some(bucket) ==> bucket@ == old(self)@.buckets[stage] && final(self)@
                == (PoolView { buckets: old(self)@.buckets.remove(stage), ..old(self)@ }),
            samples is None ==> final(self)@ == old(self)@,
            old(self)@.sound() ==> final(self)@.sound(),
    {
        if self.is_checkpoint(stage) && !self.checkpoint_ready(stage) {
            return None;
        }
        let samples = self.pools.remove(&stage);
        assert(self@.buckets =~= old(self)@.buckets.remove(stage));
        if samples.is_none() {
            assert(self@.buckets =~= old(self)@.buckets);
        }
        samples
    }

    /// Hands out the samples gathered at the checkpoint `stage`, once the
    /// whole batch has reached it.
    pub fn collect_checkpoint(&mut self, stage: u32) -> (samples: Option<Vec<Sample>>)
        ensures
            samples is Some <==> old(self)@.ready(stage),
            samples matches Some(bucket) ==> bucket@ == old(self)@.buckets[stage] && final(self)@
                == (PoolView { buckets: old(self)@.buckets.remove(stage), ..old(self)@ }),
            samples is None ==> final(self)@ == old(self)@,
            old(self)@.sound() ==> final(self)@.sound(),
    {
        if !self.checkpoint_ready(stage) {
            return None;
        }
        let samples = self.pools.remove(&stage);
        assert(self@.buckets =~= old(self)@.buckets.remove(stage));
        samples
    }

    /// The samples gathered at `stage`, which stay in the pool.
    pub fn peek_at_stage(&self, stage: u32) -> (samples: Option<&[Sample]>)
        ensures
            samples is Some <==> self@.buckets.contains_key(stage),
            samples matches Some(bucket) ==> bucket@ == self@.buckets[stage],
    {
        match self.pools.get(&stage) {
            Some(bucket) => Some(bucket.as_slice()),
            None => None,
        }
    }

    /// Number of samples in the pool, or `usize::MAX` if there are more.
    pub fn total_count(&self) -> (count: usize)
        ensures
            count == if self@.total() <= usize::MAX {
                self@.total()
            } else {
                usize::MAX as nat
            },
    {
        let ghost add = tally(self@.buckets);
        let ghost mut seen: Set<u32> = Set::empty();
        let ghost pairs = self.pools.iter().remaining();
        let ghost mut done: int = 0;
        let mut count: usize = 0;
        proof {
            vstd::set::fold::lemma_fold_empty::<u32, nat>(0nat, add);
        }
        for entry in it: self.pools.iter()
            invariant
                it.seq() == pairs,
                pairs == self.pools.iter().remaining(),
                pairs.no_duplicates(),
                done == it.index(),
                add == tally(self@.buckets),
                vstd::set::fold::is_fun_commutative(add),
                seen.finite(),
                forall|stage: u32|
                    seen.contains(stage) <==> exists|k: int|
                        0 <= k < it.index() && *(#[trigger] it.seq()[k]).0 == stage,
                count == if seen.fold(0nat, add) <= usize::MAX {
                    seen.fold(0nat, add)
                } else {
                    usize::MAX as nat
                },
        {
            let (stage, bucket) = entry;
            proof {
                assert(self.pools@.contains_key(*stage) && self.pools@[*stage] == *bucket);
                vstd::set::fold::lemma_fold_insert::<u32, nat>(seen, 0nat, add, *stage);
                seen = seen.insert(*stage);
                done = done + 1;
            }
            count = count.saturating_add(bucket.len());
        }
        proof {
            assert(seen =~= self@.buckets.dom());
        }
        count
    }

    /// The stages that have samples, in ascending order.
    pub fn stages_with_samples(&self) -> (stages: Vec<u32>)
        ensures
            ascending(stages@),
            stages@.to_set() == self@.buckets.dom(),
    {
        let mut stages: Vec<u32> = Vec::new();
        let ghost keys = self.pools.keys().remaining();
        let ghost mut done: int = 0;
        for key in it: self.pools.keys()
            invariant
                it.seq() == keys,
                keys == self.pools.keys().remaining(),
                done == it.index(),
                ascending(stages@),
                forall|stage: u32|
                    stages@.contains(stage) <==> exists|k: int|
                        0 <= k < it.index() && *(#[trigger] it.seq()[k]) == stage,
        {
            let stage: u32 = *key;
            let ghost before = stages@;
            let ghost at = it.index();
            proof {
                assert(*it.seq()[at] == stage);
                if before.contains(stage) {
                    let k = choose|k: int| 0 <= k < at && *(#[trigger] it.seq()[k]) == stage;
                    assert(it.seq()[k] == it.seq()[at]);
                }
            }
            let mut pos: usize = stages.len();
            while pos > 0 && stages[pos - 1] > stage
                invariant
                    pos <= stages@.len(),
                    stages@ == before,
                    forall|j: int| pos <= j < stages@.len() ==> stages@[j] > stage,
                decreases pos,
            {
                pos = pos - 1;
            }
            proof {
                if pos > 0 {
                    assert(before.contains(before[pos - 1]));
                    assert(before[pos - 1] != stage);
                }
            }
            stages.insert(pos, stage);
            proof {
                assert forall|s: u32|
                    stages@.contains(s) <==> exists|k: int|
                        0 <= k < at + 1 && *(#[trigger] it.seq()[k]) == s by {
                    if stages@.contains(s) {
                        let j = choose|j: int| 0 <= j < stages@.len() && stages@[j] == s;
                        if j < pos {
                            assert(before[j] == s);
                            assert(before.contains(s));
                        } else if j > pos {
                            assert(before[j - 1] == s);
                            assert(before.contains(s));
                        }
                        if before.contains(s) {
                            let k = choose|k: int| 0 <= k < at && *(#[trigger] it.seq()[k]) == s;
                            assert(0 <= k < at + 1 && *it.seq()[k] == s);
                        }
                    }
                    if exists|k: int| 0 <= k < at + 1 && *(#[trigger] it.seq()[k]) == s {
                        let k = choose|k: int| 0 <= k < at + 1 && *(#[trigger] it.seq()[k]) == s;
                        if k < at {
                            assert(before.contains(s));
                            let j = choose|j: int| 0 <= j < before.len() && before[j] == s;
                            if j < pos {
                                assert(stages@[j] == s);
                            } else {
                                assert(stages@[j + 1] == s);
                            }
                        } else {
                            assert(stages@[pos as int] == s);
                        }
                    }
                }
                done = done + 1;
            }
        }
        proof {
            assert(done == keys.len());
            assert(stages@.to_set() =~= self@.buckets.dom()) by {
                assert forall|stage: u32| stages@.to_set().contains(stage)
                    == self@.buckets.dom().contains(stage) by {
                    if stages@.contains(stage) {
                        let k = choose|k: int| 0 <= k < keys.len() && *(#[trigger] keys[k]) == stage;
                        assert(keys.unref()[k] == stage);
                        assert(keys.unref().to_set().contains(stage));
                    }
                    if self.pools@.contains_key(stage) {
                        assert(keys.unref().to_set().contains(stage));
                        let k = choose|k: int| 0 <= k < keys.unref().len() && keys.unref()[k] == stage;
                        assert(*keys[k] == stage);
                    }
                }
            }
        }
        stages
    }

    /// Empties every bucket.
    pub fn clear(&mut self)
        ensures
            final(self)@ == (PoolView { buckets: Map::empty(), ..old(self)@ }),
    {
        self.pools.clear();
        assert(self@.buckets =~= Map::<u32, Seq<Sample>>::empty());
    }

    /// Empties every bucket and forgets the size of the batch; the
    /// checkpoints stay.
    pub fn reset(&mut self)
        ensures
            final(self)@ == (PoolView {
                buckets: Map::empty(),
                expected_count: 0,
                ..old(self)@
            }),
    {
        self.pools.clear();
        self.expected_count = 0;
        assert(self@.buckets =~= Map::<u32, Seq<Sample>>::empty());
    }
}

} // verus!
