//! Insertion policies: the gatekeepers over the stages that handlers ask for.

use crate::stage::traits::StageRequest;
use vstd::prelude::*;

verus! {

/// A gatekeeper over stage requests. A policy has a state, its view; what it
/// answers to a request and how its state moves depend on the state and on
/// the identifier of the sample that the request belongs to.
pub trait InsertionPolicy: View + Send + Sync {
    /// Whether a policy in `state` admits a request for `sample_id`.
    spec fn admits(state: Self::V, sample_id: Seq<char>) -> bool;

    /// The state after a policy in `state` was asked about a request for
    /// `sample_id`.
    spec fn after(state: Self::V, sample_id: Seq<char>) -> Self::V;

    /// The state after a reset.
    spec fn cleared(state: Self::V) -> Self::V;

    /// Decides whether `request` becomes a work item.
    fn should_insert(&mut self, request: &StageRequest) -> (admitted: bool)
        ensures
            admitted == Self::admits(old(self)@, request.metadata@.sample_id),
            final(self)@ == Self::after(old(self)@, request.metadata@.sample_id),
    ;

    /// Forgets what the policy has counted.
    fn reset(&mut self)
        ensures
            final(self)@ == Self::cleared(old(self)@),
    ;
}

/// Admits every request.
#[derive(Debug, Clone, Copy)]
pub struct AlwaysInsertPolicy;

impl View for AlwaysInsertPolicy {
    type V = ();

    open spec fn view(&self) -> () {
        ()
    }
}

impl Default for AlwaysInsertPolicy {
    fn default() -> Self {
        AlwaysInsertPolicy
    }
}

impl InsertionPolicy for AlwaysInsertPolicy {
    open spec fn admits(state: (), sample_id: Seq<char>) -> bool {
        true
    }

    open spec fn after(state: (), sample_id: Seq<char>) -> () {
        ()
    }

    open spec fn cleared(state: ()) -> () {
        ()
    }

    fn should_insert(&mut self, request: &StageRequest) -> (admitted: bool) {
        true
    }

    fn reset(&mut self) {
    }
}

/// Admits no request: every sample runs one stage.
#[derive(Debug, Clone, Copy)]
pub struct NeverInsertPolicy;

impl View for NeverInsertPolicy {
    type V = ();

    open spec fn view(&self) -> () {
        ()
    }
}

impl Default for NeverInsertPolicy {
    fn default() -> Self {
        NeverInsertPolicy
    }
}

impl InsertionPolicy for NeverInsertPolicy {
    open spec fn admits(state: (), sample_id: Seq<char>) -> bool {
        false
    }

    open spec fn after(state: (), sample_id: Seq<char>) -> () {
        ()
    }

    open spec fn cleared(state: ()) -> () {
        ()
    }

    fn should_insert(&mut self, request: &StageRequest) -> (admitted: bool) {
        false
    }

    fn reset(&mut self) {
    }
}

/// State of a [`SaturationPolicy`]: the limit and the requests admitted so far.
pub struct Saturation {
    pub max: nat,
    pub count: nat,
}

/// Admits requests until `max_insertions` were admitted, whatever sample
/// they belong to. A rejected request uses up nothing.
#[derive(Debug)]
pub struct SaturationPolicy {
    max_insertions: usize,
    current_count: usize,
}

impl View for SaturationPolicy {
    type V = Saturation;

    closed spec fn view(&self) -> Saturation {
        Saturation { max: self.max_insertions as nat, count: self.current_count as nat }
    }
}

impl SaturationPolicy {
    /// A policy that admits `max_insertions` requests.
    pub fn new(max_insertions: usize) -> (policy: Self)
        ensures
            policy@ == (Saturation { max: max_insertions as nat, count: 0 }),
    {
        SaturationPolicy { max_insertions, current_count: 0 }
    }
}

impl InsertionPolicy for SaturationPolicy {
    open spec fn admits(state: Saturation, sample_id: Seq<char>) -> bool {
        state.count < state.max
    }

    open spec fn after(state: Saturation, sample_id: Seq<char>) -> Saturation {
        if state.count < state.max {
            Saturation { count: state.count + 1, ..state }
        } else {
            state
        }
    }

    open spec fn cleared(state: Saturation) -> Saturation {
        Saturation { count: 0, ..state }
    }

    fn should_insert(&mut self, request: &StageRequest) -> (admitted: bool) {
        if self.current_count < self.max_insertions {
            self.current_count = self.current_count + 1;
            true
        } else {
            false
        }
    }

    fn reset(&mut self) {
        self.current_count = 0;
    }
}

/// State of a [`PerSampleLimitPolicy`]: the limit and, for each sample that
/// was asked about, the requests admitted for it.
pub struct PerSampleLimit {
    pub max: nat,
    pub counts: Map<Seq<char>, nat>,
}

impl PerSampleLimit {
    /// Requests admitted so far for `sample_id`.
    pub open spec fn count_of(self, sample_id: Seq<char>) -> nat {
        if self.counts.contains_key(sample_id) {
            self.counts[sample_id]
        } else {
            0
        }
    }
}

/// One sample's count in a [`PerSampleLimitPolicy`].
#[derive(Debug)]
pub struct SampleCount {
    pub sample_id: String,
    pub count: usize,
}

/// The counts that `entries` hold. Where a sample has several entries the
/// first one counts.
pub open spec fn counts_of(entries: Seq<SampleCount>) -> Map<Seq<char>, nat>
    decreases entries.len(),
{
    if entries.len() == 0 {
        Map::empty()
    } else {
        counts_of(entries.drop_first()).insert(entries[0].sample_id@, entries[0].count as nat)
    }
}

/// Admits up to `max_per_sample` requests for each sample.
#[derive(Debug)]
pub struct PerSampleLimitPolicy {
    max_per_sample: usize,
    counts: Vec<SampleCount>,
}

impl View for PerSampleLimitPolicy {
    type V = PerSampleLimit;

    closed spec fn view(&self) -> PerSampleLimit {
        PerSampleLimit { max: self.max_per_sample as nat, counts: counts_of(self.counts@) }
    }
}

proof fn lemma_counts_absent(entries: Seq<SampleCount>, sample_id: Seq<char>)
    requires
        forall|j: int| 0 <= j < entries.len() ==> (#[trigger] entries[j]).sample_id@ != sample_id,
    ensures
        !counts_of(entries).contains_key(sample_id),
    decreases entries.len(),
{
    if entries.len() > 0 {
        let rest = entries.drop_first();
        lemma_counts_absent(rest, sample_id);
    }
}

proof fn lemma_counts_first(entries: Seq<SampleCount>, sample_id: Seq<char>, at: int)
    requires
        0 <= at < entries.len(),
        entries[at].sample_id@ == sample_id,
        forall|j: int| 0 <= j < at ==> (#[trigger] entries[j]).sample_id@ != sample_id,
    ensures
        counts_of(entries).contains_key(sample_id),
        counts_of(entries)[sample_id] == entries[at].count,
    decreases entries.len(),
{
    if at > 0 {
        let rest = entries.drop_first();
        lemma_counts_first(rest, sample_id, at - 1);
    }
}

proof fn lemma_counts_push(entries: Seq<SampleCount>, entry: SampleCount)
    requires
        forall|j: int|
            0 <= j < entries.len() ==> (#[trigger] entries[j]).sample_id@ != entry.sample_id@,
    ensures
        counts_of(entries.push(entry)) == counts_of(entries).insert(
            entry.sample_id@,
            entry.count as nat,
        ),
    decreases entries.len(),
{
    if entries.len() == 0 {
        assert(entries.push(entry).drop_first() =~= entries);
    } else {
        let rest = entries.drop_first();
        lemma_counts_push(rest, entry);
        assert(entries.push(entry).drop_first() =~= rest.push(entry));
    }
}

proof fn lemma_counts_update(entries: Seq<SampleCount>, at: int, entry: SampleCount)
    requires
        0 <= at < entries.len(),
        entries[at].sample_id@ == entry.sample_id@,
        forall|j: int| 0 <= j < at ==> (#[trigger] entries[j]).sample_id@ != entry.sample_id@,
    ensures
        counts_of(entries.update(at, entry)) == counts_of(entries).insert(
            entry.sample_id@,
            entry.count as nat,
        ),
    decreases entries.len(),
{
    let rest = entries.drop_first();
    if at == 0 {
        assert(entries.update(at, entry).drop_first() =~= rest);
    } else {
        lemma_counts_update(rest, at - 1, entry);
        assert(entries.update(at, entry).drop_first() =~= rest.update(at - 1, entry));
    }
}

impl PerSampleLimitPolicy {
    /// A policy that admits `max_per_sample` requests for each sample.
    pub fn new(max_per_sample: usize) -> (policy: Self)
        ensures
            policy@ == (PerSampleLimit { max: max_per_sample as nat, counts: Map::empty() }),
    {
        PerSampleLimitPolicy { max_per_sample, counts: Vec::new() }
    }

    fn position(&self, sample_id: &String) -> (found: Option<usize>)
        ensures
            found is None ==> forall|j: int|
                0 <= j < self.counts@.len() ==> (#[trigger] self.counts@[j]).sample_id@
                    != sample_id@,
            found matches Some(i) ==> i < self.counts@.len() && self.counts@[i as int].sample_id@
                == sample_id@ && forall|j: int|
                0 <= j < i ==> (#[trigger] self.counts@[j]).sample_id@ != sample_id@,
    {
        let mut i: usize = 0;
        while i < self.counts.len()
            invariant
                i <= self.counts@.len(),
                forall|j: int| 0 <= j < i ==> (#[trigger] self.counts@[j]).sample_id@ != sample_id@,
            decreases self.counts@.len() - i,
        {
            if self.counts[i].sample_id == *sample_id {
                return Some(i);
            }
            i = i + 1;
        }
        None
    }
}

impl InsertionPolicy for PerSampleLimitPolicy {
    open spec fn admits(state: PerSampleLimit, sample_id: Seq<char>) -> bool {
        state.count_of(sample_id) < state.max
    }

    open spec fn after(state: PerSampleLimit, sample_id: Seq<char>) -> PerSampleLimit {
        PerSampleLimit {
            counts: state.counts.insert(
                sample_id,
                if state.count_of(sample_id) < state.max {
                    state.count_of(sample_id) + 1
                } else {
                    state.count_of(sample_id)
                },
            ),
            ..state
        }
    }

    open spec fn cleared(state: PerSampleLimit) -> PerSampleLimit {
        PerSampleLimit { counts: Map::empty(), ..state }
    }

    fn should_insert(&mut self, request: &StageRequest) -> (admitted: bool) {
        let sample_id = &request.metadata.sample_id;
        let ghost id = sample_id@;
        let ghost before = self.counts@;
        match self.position(sample_id) {
            Some(at) => {
                let count: usize = self.counts[at].count;
                proof {
                    lemma_counts_first(before, id, at as int);
                }
                if count < self.max_per_sample {
                    let entry = SampleCount { sample_id: sample_id.clone(), count: count + 1 };
                    proof {
                        lemma_counts_update(before, at as int, entry);
                    }
                    self.counts[at] = entry;
                    true
                } else {
                    assert(counts_of(before).insert(id, count as nat) =~= counts_of(before));
                    false
                }
            },
            None => {
                proof {
                    lemma_counts_absent(before, id);
                }
                let admitted = 0 < self.max_per_sample;
                let entry = SampleCount {
                    sample_id: sample_id.clone(),
                    count: if admitted {
                        1
                    } else {
                        0
                    },
                };
                proof {
                    lemma_counts_push(before, entry);
                }
                self.counts.push(entry);
                admitted
            },
        }
    }

    fn reset(&mut self) {
        self.counts.clear();
    }
}

/// The states of `policies`, one by one.
pub open spec fn states_of<P: InsertionPolicy>(policies: Seq<P>) -> Seq<P::V> {
    Seq::new(policies.len(), |i: int| policies[i]@)
}

/// Every policy of `states` before position `i` admits a request for
/// `sample_id`.
pub open spec fn all_admit_before<P: InsertionPolicy>(
    states: Seq<P::V>,
    sample_id: Seq<char>,
    i: int,
) -> bool {
    forall|j: int| 0 <= j < i && j < states.len() ==> P::admits(#[trigger] states[j], sample_id)
}

/// Every policy of `states` before position `i` rejects a request for
/// `sample_id`.
pub open spec fn none_admits_before<P: InsertionPolicy>(
    states: Seq<P::V>,
    sample_id: Seq<char>,
    i: int,
) -> bool {
    forall|j: int| 0 <= j < i && j < states.len() ==> !P::admits(#[trigger] states[j], sample_id)
}

/// Admits a request when every one of its policies admits it. The policies
/// are asked in their order, up to the first that rejects; the ones behind
/// it are not asked and keep their state.
pub struct AllPolicy<P: InsertionPolicy> {
    policies: Vec<P>,
}

impl<P: InsertionPolicy> View for AllPolicy<P> {
    type V = Seq<P::V>;

    closed spec fn view(&self) -> Seq<P::V> {
        states_of(self.policies@)
    }
}

impl<P: InsertionPolicy> AllPolicy<P> {
    /// The conjunction of `policies`.
    pub fn new(policies: Vec<P>) -> (policy: Self)
        ensures
            policy@ == states_of(policies@),
    {
        AllPolicy { policies }
    }
}

impl<P: InsertionPolicy> InsertionPolicy for AllPolicy<P> {
    open spec fn admits(state: Seq<P::V>, sample_id: Seq<char>) -> bool {
        all_admit_before::<P>(state, sample_id, state.len() as int)
    }

    open spec fn after(state: Seq<P::V>, sample_id: Seq<char>) -> Seq<P::V> {
        Seq::new(
            state.len(),
            |i: int|
                if all_admit_before::<P>(state, sample_id, i) {
                    P::after(state[i], sample_id)
                } else {
                    state[i]
                },
        )
    }

    open spec fn cleared(state: Seq<P::V>) -> Seq<P::V> {
        Seq::new(state.len(), |i: int| P::cleared(state[i]))
    }

    fn should_insert(&mut self, request: &StageRequest) -> (admitted: bool) {
        let ghost before = self@;
        let ghost id = request.metadata@.sample_id;
        let mut i: usize = 0;
        let mut admitted = true;
        while admitted && i < self.policies.len()
            invariant
                i <= self.policies@.len(),
                self.policies@.len() == before.len(),
                id == request.metadata@.sample_id,
                admitted == all_admit_before::<P>(before, id, i as int),
                forall|j: int| 0 <= j < i ==> all_admit_before::<P>(before, id, j),
                forall|j: int| 0 <= j < i ==> (#[trigger] self.policies@[j])@ == P::after(before[j], id),
                forall|j: int|
                    i <= j < self.policies@.len() ==> (#[trigger] self.policies@[j])@ == before[j],
            decreases self.policies@.len() - i,
        {
            admitted = self.policies[i].should_insert(request);
            i = i + 1;
        }
        proof {
            assert(self@ =~= Self::after(before, id));
        }
        admitted
    }

    fn reset(&mut self) {
        let ghost before = self@;
        let mut i: usize = 0;
        while i < self.policies.len()
            invariant
                i <= self.policies@.len(),
                self.policies@.len() == before.len(),
                forall|j: int| 0 <= j < i ==> (#[trigger] self.policies@[j])@ == P::cleared(before[j]),
                forall|j: int|
                    i <= j < self.policies@.len() ==> (#[trigger] self.policies@[j])@ == before[j],
            decreases self.policies@.len() - i,
        {
            self.policies[i].reset();
            i = i + 1;
        }
        assert(self@ =~= Self::cleared(before));
    }
}

/// Admits a request when one of its policies admits it. The policies are
/// asked in their order, up to the first that admits; the ones behind it
/// are not asked and keep their state.
pub struct AnyPolicy<P: InsertionPolicy> {
    policies: Vec<P>,
}

impl<P: InsertionPolicy> View for AnyPolicy<P> {
    type V = Seq<P::V>;

    closed spec fn view(&self) -> Seq<P::V> {
        states_of(self.policies@)
    }
}

impl<P: InsertionPolicy> AnyPolicy<P> {
    /// The disjunction of `policies`.
    pub fn new(policies: Vec<P>) -> (policy: Self)
        ensures
            policy@ == states_of(policies@),
    {
        AnyPolicy { policies }
    }
}

impl<P: InsertionPolicy> InsertionPolicy for AnyPolicy<P> {
    open spec fn admits(state: Seq<P::V>, sample_id: Seq<char>) -> bool {
        !none_admits_before::<P>(state, sample_id, state.len() as int)
    }

    open spec fn after(state: Seq<P::V>, sample_id: Seq<char>) -> Seq<P::V> {
        Seq::new(
            state.len(),
            |i: int|
                if none_admits_before::<P>(state, sample_id, i) {
                    P::after(state[i], sample_id)
                } else {
                    state[i]
                },
        )
    }

    open spec fn cleared(state: Seq<P::V>) -> Seq<P::V> {
        Seq::new(state.len(), |i: int| P::cleared(state[i]))
    }

    fn should_insert(&mut self, request: &StageRequest) -> (admitted: bool) {
        let ghost before = self@;
        let ghost id = request.metadata@.sample_id;
        let mut i: usize = 0;
        let mut admitted = false;
        while !admitted && i < self.policies.len()
            invariant
                i <= self.policies@.len(),
                self.policies@.len() == before.len(),
                id == request.metadata@.sample_id,
                admitted == !none_admits_before::<P>(before, id, i as int),
                forall|j: int| 0 <= j < i ==> none_admits_before::<P>(before, id, j),
                forall|j: int| 0 <= j < i ==> (#[trigger] self.policies@[j])@ == P::after(before[j], id),
                forall|j: int|
                    i <= j < self.policies@.len() ==> (#[trigger] self.policies@[j])@ == before[j],
            decreases self.policies@.len() - i,
        {
            admitted = self.policies[i].should_insert(request);
            i = i + 1;
        }
        proof {
            assert(self@ =~= Self::after(before, id));
        }
        admitted
    }

    fn reset(&mut self) {
        let ghost before = self@;
        let mut i: usize = 0;
        while i < self.policies.len()
            invariant
                i <= self.policies@.len(),
                self.policies@.len() == before.len(),
                forall|j: int| 0 <= j < i ==> (#[trigger] self.policies@[j])@ == P::cleared(before[j]),
                forall|j: int|
                    i <= j < self.policies@.len() ==> (#[trigger] self.policies@[j])@ == before[j],
            decreases self.policies@.len() - i,
        {
            self.policies[i].reset();
            i = i + 1;
        }
        assert(self@ =~= Self::cleared(before));
    }
}

/// The state of a policy that started in `state` and was asked about one
/// request for each of `ids`, in their order.
pub open spec fn state_after<P: InsertionPolicy>(state: P::V, ids: Seq<Seq<char>>) -> P::V
    decreases ids.len(),
{
    if ids.len() == 0 {
        state
    } else {
        P::after(state_after::<P>(state, ids.drop_last()), ids.last())
    }
}

/// How many of the requests for `ids`, asked in their order, a policy that
/// started in `state` admits.
pub open spec fn admitted_count<P: InsertionPolicy>(state: P::V, ids: Seq<Seq<char>>) -> nat
    decreases ids.len(),
{
    if ids.len() == 0 {
        0
    } else {
        let earlier = admitted_count::<P>(state, ids.drop_last());
        if P::admits(state_after::<P>(state, ids.drop_last()), ids.last()) {
            earlier + 1
        } else {
            earlier
        }
    }
}

/// How many of the requests for `ids` that belong to sample `who` a policy
/// that started in `state` admits.
pub open spec fn admitted_for<P: InsertionPolicy>(
    state: P::V,
    ids: Seq<Seq<char>>,
    who: Seq<char>,
) -> nat
    decreases ids.len(),
{
    if ids.len() == 0 {
        0
    } else {
        let earlier = admitted_for::<P>(state, ids.drop_last(), who);
        if ids.last() == who && P::admits(state_after::<P>(state, ids.drop_last()), ids.last()) {
            earlier + 1
        } else {
            earlier
        }
    }
}

/// What a policy that started in `state` answers to one request for each of
/// `ids`, asked in their order.
pub open spec fn verdicts<P: InsertionPolicy>(state: P::V, ids: Seq<Seq<char>>) -> Seq<bool>
    decreases ids.len(),
{
    if ids.len() == 0 {
        Seq::empty()
    } else {
        verdicts::<P>(state, ids.drop_last()).push(
            P::admits(state_after::<P>(state, ids.drop_last()), ids.last()),
        )
    }
}

/// A fresh saturation policy with limit `max` admits the first `max`
/// requests and no other: of `n` requests it admits the smaller of `max`
/// and `n`, whatever samples they belong to and in whatever order they come.
pub proof fn lemma_saturation_admits_up_to_limit(max: nat, ids: Seq<Seq<char>>)
    ensures
        admitted_count::<SaturationPolicy>(Saturation { max, count: 0 }, ids) == if ids.len()
            <= max {
            ids.len()
        } else {
            max
        },
        state_after::<SaturationPolicy>(Saturation { max, count: 0 }, ids) == (Saturation {
            max,
            count: if ids.len() <= max {
                ids.len()
            } else {
                max
            },
        }),
    decreases ids.len(),
{
    if ids.len() > 0 {
        lemma_saturation_admits_up_to_limit(max, ids.drop_last());
    }
}

/// A fresh per-sample policy with limit `max` admits at most `max` requests
/// for any one sample: the requests it has admitted for `who` are the ones
/// it has counted for `who`, and that count never passes `max`.
pub proof fn lemma_per_sample_limit_holds(max: nat, ids: Seq<Seq<char>>, who: Seq<char>)
    ensures
        admitted_for::<PerSampleLimitPolicy>(
            PerSampleLimit { max, counts: Map::empty() },
            ids,
            who,
        ) == state_after::<PerSampleLimitPolicy>(
            PerSampleLimit { max, counts: Map::empty() },
            ids,
        ).count_of(who),
        admitted_for::<PerSampleLimitPolicy>(
            PerSampleLimit { max, counts: Map::empty() },
            ids,
            who,
        ) <= max,
        state_after::<PerSampleLimitPolicy>(PerSampleLimit { max, counts: Map::empty() }, ids).max
            == max,
    decreases ids.len(),
{
    if ids.len() > 0 {
        lemma_per_sample_limit_holds(max, ids.drop_last(), who);
    }
}

} // verus!
