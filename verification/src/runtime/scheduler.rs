//! The priority scheduler: work items in order of stage, and the step that
//! runs the next one through its handler.

use crate::data::metadata::{FlowLedger, FlowMetadata};
use crate::data::sample::{Sample, SampleView};
use crate::runtime::policy::{state_after, verdicts, InsertionPolicy};
use crate::stage::registry::StageRegistry;
use crate::stage::traits::{
    fits, keeps_books, obeys_protocol, Stage, StageId, StageRequest, StageResult,
};
use std::cmp::Ordering;
use std::sync::Arc;
use vstd::prelude::*;
use vstd::std_specs::cmp::{PartialEqSpecImpl, PartialOrdSpecImpl};

verus! {

/// One scheduled run of one stage on one sample.
#[derive(Debug)]
pub struct WorkItem {
    /// The sample to work on.
    pub sample: Sample,
    /// The descriptor for this run.
    pub metadata: FlowMetadata,
    /// The stage to run.
    pub stage_id: StageId,
    /// Raises the item above others of the same stage.
    pub priority_boost: i32,
}

/// `a` is to run strictly before `b`: its sample has passed fewer stages,
/// or as many and `a` has the larger boost.
pub open spec fn outranks(a: WorkItem, b: WorkItem) -> bool {
    a.sample.stage_num < b.sample.stage_num || (a.sample.stage_num == b.sample.stage_num
        && a.priority_boost > b.priority_boost)
}

impl View for WorkItem {
    type V = (SampleView, FlowLedger, StageId, i32);

    open spec fn view(&self) -> (SampleView, FlowLedger, StageId, i32) {
        (self.sample@, self.metadata@, self.stage_id, self.priority_boost)
    }
}

impl Clone for WorkItem {
    fn clone(&self) -> (copy: Self)
        ensures
            copy@ == self@,
    {
        WorkItem {
            sample: self.sample.clone(),
            metadata: self.metadata.clone(),
            stage_id: self.stage_id,
            priority_boost: self.priority_boost,
        }
    }
}

impl PartialEqSpecImpl for WorkItem {
    open spec fn obeys_eq_spec() -> bool {
        true
    }

    open spec fn eq_spec(&self, other: &WorkItem) -> bool {
        self.sample.stage_num == other.sample.stage_num && self.priority_boost
            == other.priority_boost
    }
}

impl PartialEq for WorkItem {
    /// Two items are equal in priority when neither outranks the other.
    fn eq(&self, other: &WorkItem) -> (equal: bool) {
        self.sample.stage_num == other.sample.stage_num && self.priority_boost
            == other.priority_boost
    }
}

impl PartialOrdSpecImpl for WorkItem {
    open spec fn obeys_partial_cmp_spec() -> bool {
        true
    }

    open spec fn partial_cmp_spec(&self, other: &WorkItem) -> Option<Ordering> {
        if outranks(*self, *other) {
            Some(Ordering::Greater)
        } else if outranks(*other, *self) {
            Some(Ordering::Less)
        } else {
            Some(Ordering::Equal)
        }
    }
}

impl PartialOrd for WorkItem {
    /// The item that is to run first is the greater one.
    fn partial_cmp(&self, other: &WorkItem) -> (order: Option<Ordering>) {
        if self.sample.stage_num < other.sample.stage_num {
            Some(Ordering::Greater)
        } else if self.sample.stage_num > other.sample.stage_num {
            Some(Ordering::Less)
        } else if self.priority_boost > other.priority_boost {
            Some(Ordering::Greater)
        } else if self.priority_boost < other.priority_boost {
            Some(Ordering::Less)
        } else {
            Some(Ordering::Equal)
        }
    }
}

impl WorkItem {
    /// A work item without boost.
    pub fn new(sample: Sample, metadata: FlowMetadata, stage_id: StageId) -> (item: Self)
        ensures
            item == (WorkItem { sample, metadata, stage_id, priority_boost: 0 }),
    {
        WorkItem { sample, metadata, stage_id, priority_boost: 0 }
    }

    /// The item with `boost` as its boost.
    pub fn with_priority(self, boost: i32) -> (item: Self)
        ensures
            item == (WorkItem { priority_boost: boost, ..self }),
    {
        let mut item = self;
        item.priority_boost = boost;
        item
    }

    /// Whether the item is to run strictly before `other`.
    pub fn runs_before(&self, other: &WorkItem) -> (first: bool)
        ensures
            first == outranks(*self, *other),
    {
        self.sample.stage_num < other.sample.stage_num || (self.sample.stage_num
            == other.sample.stage_num && self.priority_boost > other.priority_boost)
    }
}

/// `waiting` with `item` put in: behind every item that it does not
/// outrank, counted from the end, where the next item to run stands.
pub open spec fn queue_with(waiting: Seq<WorkItem>, item: WorkItem) -> Seq<WorkItem>
    decreases waiting.len(),
{
    if waiting.len() == 0 {
        seq![item]
    } else if outranks(item, waiting.last()) {
        waiting.push(item)
    } else {
        queue_with(waiting.drop_last(), item).push(waiting.last())
    }
}

/// No item of `waiting` is outranked by an item that stands before it: the
/// last item is one that no other outranks.
pub open spec fn in_order(waiting: Seq<WorkItem>) -> bool {
    forall|i: int, j: int| 0 <= i < j < waiting.len() ==> !outranks(waiting[i], waiting[j])
}

/// The item's sample is well formed, and its descriptor fits the sample.
pub open spec fn tidy_item(item: WorkItem) -> bool {
    item.sample@.well_formed() && fits(item.sample@, item.metadata@.peaks)
}

/// Every item of `waiting` is tidy.
pub open spec fn tidy_queue(waiting: Seq<WorkItem>) -> bool {
    forall|i: int| 0 <= i < waiting.len() ==> tidy_item(#[trigger] waiting[i])
}

/// What a [`PriorityScheduler`] holds, apart from its registry.
pub struct SchedulerView {
    /// The waiting items; the last one is the next to run.
    pub waiting: Seq<WorkItem>,
    /// Number of items ever put in.
    pub total_enqueued: nat,
    /// Number of items run through a handler.
    pub total_processed: nat,
}

/// `n + 1`, held at `usize::MAX`.
pub open spec fn counted(n: nat) -> nat {
    if n < usize::MAX {
        n + 1
    } else {
        n
    }
}

proof fn lemma_queue_with_at(s: Seq<WorkItem>, item: WorkItem, pos: int)
    requires
        0 <= pos <= s.len(),
        forall|j: int| pos <= j < s.len() ==> !outranks(item, #[trigger] s[j]),
        pos > 0 ==> outranks(item, s[pos - 1]),
    ensures
        queue_with(s, item) == s.insert(pos, item),
    decreases s.len(),
{
    if 0 < s.len() && pos < s.len() {
        lemma_queue_with_at(s.drop_last(), item, pos);
    }
}

/// Putting an item into a queue that is in order leaves it in order.
pub proof fn lemma_queue_with_in_order(s: Seq<WorkItem>, item: WorkItem)
    requires
        in_order(s),
    ensures
        in_order(queue_with(s, item)),
        queue_with(s, item).len() == s.len() + 1,
    decreases s.len(),
{
    if s.len() > 0 && !outranks(item, s.last()) {
        let head = s.drop_last();
        lemma_queue_with_in_order(head, item);
        lemma_queue_with_members(head, item);
        let t = queue_with(head, item);
        let all = t.push(s.last());
        assert forall|i: int, j: int| 0 <= i < j < all.len() implies !outranks(all[i], all[j]) by {
            if j == all.len() - 1 {
                assert(t.contains(t[i]));
            }
        }
    } else if s.len() > 0 {
        let all = s.push(item);
        assert forall|i: int, j: int| 0 <= i < j < all.len() implies !outranks(all[i], all[j]) by {
            if j == all.len() - 1 {
                lemma_outranks_order(s[i], s.last(), item);
            }
        }
    }
}

proof fn lemma_outranks_order(a: WorkItem, b: WorkItem, c: WorkItem)
    requires
        !outranks(a, b),
        outranks(c, b),
    ensures
        !outranks(a, c),
{
}

proof fn lemma_queue_with_members(s: Seq<WorkItem>, item: WorkItem)
    ensures
        forall|x: WorkItem| #[trigger] queue_with(s, item).contains(x) ==> s.contains(x) || x == item,
    decreases s.len(),
{
    if s.len() > 0 && !outranks(item, s.last()) {
        lemma_queue_with_members(s.drop_last(), item);
        let head = queue_with(s.drop_last(), item);
        assert forall|x: WorkItem| #[trigger] queue_with(s, item).contains(x) implies s.contains(x)
            || x == item by {
            let all = head.push(s.last());
            let i = choose|i: int| 0 <= i < all.len() && all[i] == x;
            if i < head.len() {
                assert(head.contains(x));
            }
        }
    }
}

/// Putting a tidy item into a tidy queue leaves it tidy.
pub proof fn lemma_queue_with_tidy(s: Seq<WorkItem>, item: WorkItem)
    requires
        tidy_queue(s),
        tidy_item(item),
    ensures
        tidy_queue(queue_with(s, item)),
{
    lemma_queue_with_members(s, item);
    let all = queue_with(s, item);
    assert forall|i: int| 0 <= i < all.len() implies tidy_item(#[trigger] all[i]) by {
        assert(all.contains(all[i]));
    }
}

/// Items leave a queue that is in order with their stage counters never
/// going down: whatever leaves later has passed at least as many stages.
pub proof fn lemma_pop_order_is_monotone(waiting: Seq<WorkItem>, earlier: int, later: int)
    requires
        in_order(waiting),
        0 <= later < earlier < waiting.len(),
    ensures
        waiting[earlier].sample.stage_num <= waiting[later].sample.stage_num,
{
    assert(!outranks(waiting[later], waiting[earlier]));
}

/// `waiting` with each of `items` put in, one after the other.
pub open spec fn queue_with_all(waiting: Seq<WorkItem>, items: Seq<WorkItem>) -> Seq<WorkItem>
    decreases items.len(),
{
    if items.len() == 0 {
        waiting
    } else {
        queue_with(queue_with_all(waiting, items.drop_last()), items.last())
    }
}

/// `counted` applied `times` times.
pub open spec fn counted_by(n: nat, times: nat) -> nat {
    if n + times <= usize::MAX {
        n + times
    } else if n <= usize::MAX {
        usize::MAX as nat
    } else {
        n
    }
}

/// Putting items into a queue that is in order leaves it in order.
pub proof fn lemma_queue_with_all_in_order(waiting: Seq<WorkItem>, items: Seq<WorkItem>)
    requires
        in_order(waiting),
    ensures
        in_order(queue_with_all(waiting, items)),
        queue_with_all(waiting, items).len() == waiting.len() + items.len(),
    decreases items.len(),
{
    if items.len() > 0 {
        lemma_queue_with_all_in_order(waiting, items.drop_last());
        lemma_queue_with_in_order(queue_with_all(waiting, items.drop_last()), items.last());
    }
}

/// Putting tidy items into a tidy queue leaves it tidy.
pub proof fn lemma_queue_with_all_tidy(waiting: Seq<WorkItem>, items: Seq<WorkItem>)
    requires
        tidy_queue(waiting),
        tidy_queue(items),
    ensures
        tidy_queue(queue_with_all(waiting, items)),
    decreases items.len(),
{
    if items.len() > 0 {
        let head = items.drop_last();
        lemma_queue_with_all_tidy(waiting, head);
        lemma_queue_with_tidy(queue_with_all(waiting, head), items.last());
    }
}

/// The work items that come of requests whose descriptors fit a well-formed
/// sample are tidy.
pub proof fn lemma_follow_ups_are_tidy(
    sample: SampleView,
    requests: Seq<StageRequest>,
    admitted: Seq<bool>,
    items: Seq<WorkItem>,
)
    requires
        follows_up(sample, requests, admitted, items),
        sample.well_formed(),
        forall|i: int|
            0 <= i < requests.len() ==> fits(sample, (#[trigger] requests[i]).metadata@.peaks),
    ensures
        tidy_queue(items),
    decreases requests.len(),
{
    if requests.len() > 0 && admitted.len() == requests.len() {
        let head = requests.drop_last();
        if admitted.last() {
            lemma_follow_ups_are_tidy(sample, head, admitted.drop_last(), items.drop_last());
            assert forall|i: int| 0 <= i < items.len() implies tidy_item(#[trigger] items[i]) by {
                if i < items.len() - 1 {
                    assert(items.drop_last()[i] == items[i]);
                }
            }
        } else {
            lemma_follow_ups_are_tidy(sample, head, admitted.drop_last(), items);
        }
    }
}

/// The identifiers of the samples that `requests` belong to.
pub open spec fn request_ids(requests: Seq<StageRequest>) -> Seq<Seq<char>> {
    Seq::new(requests.len(), |i: int| requests[i].metadata@.sample_id)
}

/// `items` are the work items that come of `requests` under `admitted`: one
/// for each admitted request, in the order of the requests, each with a copy
/// of `sample`, the request's descriptor and stage, and no boost.
pub open spec fn follows_up(
    sample: SampleView,
    requests: Seq<StageRequest>,
    admitted: Seq<bool>,
    items: Seq<WorkItem>,
) -> bool
    decreases requests.len(),
{
    if requests.len() == 0 || admitted.len() != requests.len() {
        items.len() == 0
    } else if admitted.last() {
        &&& items.len() > 0
        &&& items.last()@ == (sample, requests.last().metadata@, requests.last().stage_id, 0i32)
        &&& follows_up(sample, requests.drop_last(), admitted.drop_last(), items.drop_last())
    } else {
        follows_up(sample, requests.drop_last(), admitted.drop_last(), items)
    }
}

/// Whether `item` can be run: a handler is registered for its stage, and the
/// sample's stage counter has room for one more stage.
pub open spec fn can_run<H: Stage>(handlers: Map<StageId, H>, item: WorkItem) -> bool {
    handlers.contains_key(item.stage_id) && item.sample.stage_num < u32::MAX
}

/// `result` is what running `item` gave: nothing where the item cannot be
/// run, else a result that obeys the protocol and keeps what the handler of
/// the item's stage promises.
pub open spec fn ran<H: Stage>(
    handlers: Map<StageId, H>,
    item: WorkItem,
    result: Option<StageResult>,
) -> bool {
    match result {
        Some(r) => {
            &&& can_run(handlers, item)
            &&& obeys_protocol(item.sample@, r)
            &&& keeps_books(item.sample@, item.metadata@, r)
            &&& handlers[item.stage_id].outcome(item.sample@, item.metadata@, r)
        },
        None => !can_run(handlers, item),
    }
}

/// Holds the waiting work items in order of priority and runs them through
/// the handlers of a registry.
pub struct PriorityScheduler<H: Stage> {
    queue: Vec<WorkItem>,
    registry: Arc<StageRegistry<H>>,
    total_enqueued: usize,
    total_processed: usize,
}

impl<H: Stage> View for PriorityScheduler<H> {
    type V = SchedulerView;

    closed spec fn view(&self) -> SchedulerView {
        SchedulerView {
            waiting: self.queue@,
            total_enqueued: self.total_enqueued as nat,
            total_processed: self.total_processed as nat,
        }
    }
}

impl<H: Stage> PriorityScheduler<H> {
    /// The handlers that the scheduler runs its items through.
    pub closed spec fn handlers(&self) -> Map<StageId, H> {
        self.registry@
    }

    /// An empty scheduler over `registry`.
    pub fn new(registry: Arc<StageRegistry<H>>) -> (scheduler: Self)
        ensures
            scheduler@ == (SchedulerView {
                waiting: Seq::empty(),
                total_enqueued: 0,
                total_processed: 0,
            }),
            scheduler.handlers() == registry@,
    {
        PriorityScheduler { queue: Vec::new(), registry, total_enqueued: 0, total_processed: 0 }
    }

    /// The registry of the handlers, shared with the scheduler.
    pub fn registry(&self) -> (registry: Arc<StageRegistry<H>>)
        ensures
            registry@ == self.handlers(),
    {
        self.registry.clone()
    }

    /// Puts `item` into the queue.
    pub fn enqueue(&mut self, item: WorkItem)
        ensures
            final(self)@ == (SchedulerView {
                waiting: queue_with(old(self)@.waiting, item),
                total_enqueued: counted(old(self)@.total_enqueued),
                ..old(self)@
            }),
            final(self).handlers() == old(self).handlers(),
            in_order(old(self)@.waiting) ==> in_order(final(self)@.waiting),
            tidy_queue(old(self)@.waiting) && tidy_item(item) ==> tidy_queue(final(self)@.waiting),
    {
        let mut pos: usize = self.queue.len();
        while pos > 0 && !item.runs_before(&self.queue[pos - 1])
            invariant
                pos <= self.queue@.len(),
                self.queue@ == old(self).queue@,
                forall|j: int| pos <= j < self.queue@.len() ==> !outranks(item, #[trigger] self.queue@[j]),
            decreases pos,
        {
            pos = pos - 1;
        }
        proof {
            lemma_queue_with_at(self.queue@, item, pos as int);
            if in_order(self.queue@) {
                lemma_queue_with_in_order(self.queue@, item);
            }
        }
        self.queue.insert(pos, item);
        if self.total_enqueued < usize::MAX {
            self.total_enqueued = self.total_enqueued + 1;
        }
    }

    /// Puts each of `items` into the queue, in their order.
    pub fn enqueue_all(&mut self, items: Vec<WorkItem>)
        ensures
            final(self)@ == (SchedulerView {
                waiting: queue_with_all(old(self)@.waiting, items@),
                total_enqueued: counted_by(old(self)@.total_enqueued, items@.len()),
                ..old(self)@
            }),
            final(self).handlers() == old(self).handlers(),
            in_order(old(self)@.waiting) ==> in_order(final(self)@.waiting),
            tidy_queue(old(self)@.waiting) && tidy_queue(items@) ==> tidy_queue(
                final(self)@.waiting,
            ),
    {
        let ghost all = items@;
        for item in it: items.into_iter()
            invariant
                it.seq() == all,
                self@ == (SchedulerView {
                    waiting: queue_with_all(old(self)@.waiting, all.take(it.index())),
                    total_enqueued: counted_by(old(self)@.total_enqueued, it.index() as nat),
                    ..old(self)@
                }),
                self.handlers() == old(self).handlers(),
                in_order(old(self)@.waiting) ==> in_order(self@.waiting),
                tidy_queue(old(self)@.waiting) && tidy_queue(all) ==> tidy_queue(self@.waiting),
        {
            assert(all.take(it.index() + 1).drop_last() =~= all.take(it.index()));
            self.enqueue(item);
        }
        assert(all.take(all.len() as int) =~= all);
    }

    /// Asks `policy` about each of `requests`, in their order, and puts a
    /// work item into the queue for each one that it admits. Each item gets
    /// a copy of `sample`.
    pub fn enqueue_admitted<P: InsertionPolicy>(
        &mut self,
        policy: &mut P,
        sample: &Sample,
        requests: &Vec<StageRequest>,
    )
        ensures
            final(policy)@ == state_after::<P>(old(policy)@, request_ids(requests@)),
            exists|items: Seq<WorkItem>|
                {
                    &&& follows_up(
                        sample@,
                        requests@,
                        verdicts::<P>(old(policy)@, request_ids(requests@)),
                        items,
                    )
                    &&& final(self)@ == (SchedulerView {
                        waiting: queue_with_all(old(self)@.waiting, items),
                        total_enqueued: counted_by(old(self)@.total_enqueued, items.len()),
                        ..old(self)@
                    })
                },
            final(self).handlers() == old(self).handlers(),
            in_order(old(self)@.waiting) ==> in_order(final(self)@.waiting),
            tidy_queue(old(self)@.waiting) && sample@.well_formed() && (forall|i: int|
                0 <= i < requests@.len() ==> fits(
                    sample@,
                    (#[trigger] requests@[i]).metadata@.peaks,
                )) ==> tidy_queue(final(self)@.waiting),
    {
        let ghost ids = request_ids(requests@);
        let ghost mut items: Seq<WorkItem> = Seq::empty();
        let mut i: usize = 0;
        while i < requests.len()
            invariant
                i <= requests@.len(),
                ids == request_ids(requests@),
                policy@ == state_after::<P>(old(policy)@, ids.take(i as int)),
                follows_up(
                    sample@,
                    requests@.take(i as int),
                    verdicts::<P>(old(policy)@, ids.take(i as int)),
                    items,
                ),
                verdicts::<P>(old(policy)@, ids.take(i as int)).len() == i,
                self@ == (SchedulerView {
                    waiting: queue_with_all(old(self)@.waiting, items),
                    total_enqueued: counted_by(old(self)@.total_enqueued, items.len()),
                    ..old(self)@
                }),
                self.handlers() == old(self).handlers(),
                in_order(old(self)@.waiting) ==> in_order(self@.waiting),
                tidy_queue(old(self)@.waiting) && sample@.well_formed() && (forall|i: int|
                    0 <= i < requests@.len() ==> fits(
                        sample@,
                        (#[trigger] requests@[i]).metadata@.peaks,
                    )) ==> tidy_queue(self@.waiting),
            decreases requests@.len() - i,
        {
            let request = &requests[i];
            proof {
                assert(ids.take(i + 1).drop_last() =~= ids.take(i as int));
                assert(requests@.take(i + 1).drop_last() =~= requests@.take(i as int));
            }
            let ghost earlier = items;
            let ghost answers = verdicts::<P>(old(policy)@, ids.take(i as int));
            let ghost longer = verdicts::<P>(old(policy)@, ids.take(i + 1));
            let admitted = policy.should_insert(request);
            proof {
                assert(longer.drop_last() =~= answers);
            }
            if admitted {
                let item = WorkItem::new(sample.clone(), request.metadata.clone(), request.stage_id);
                proof {
                    items = earlier.push(item);
                    assert(items.drop_last() =~= earlier);
                }
                self.enqueue(item);
            }
            i = i + 1;
        }
        proof {
            assert(ids.take(requests@.len() as int) =~= ids);
            assert(requests@.take(requests@.len() as int) =~= requests@);
        }
    }

    /// Takes the next item out of the queue and runs it through the handler
    /// of its stage. An item without a handler, or one whose sample has no
    /// room left in its stage counter, is dropped, and nothing comes back.
    pub fn process_next(&mut self) -> (result: Option<StageResult>)
        ensures
            old(self)@.waiting.len() == 0 ==> result is None && final(self)@ == old(self)@,
            old(self)@.waiting.len() > 0 ==> {
                &&& ran(old(self).handlers(), old(self)@.waiting.last(), result)
                &&& final(self)@ == (SchedulerView {
                    waiting: old(self)@.waiting.drop_last(),
                    total_processed: if result is Some {
                        counted(old(self)@.total_processed)
                    } else {
                        old(self)@.total_processed
                    },
                    ..old(self)@
                })
            },
            final(self).handlers() == old(self).handlers(),
            in_order(old(self)@.waiting) ==> in_order(final(self)@.waiting),
            tidy_queue(old(self)@.waiting) ==> tidy_queue(final(self)@.waiting),
    {
        let item = match self.queue.pop() {
            Some(item) => item,
            None => {
                return None;
            },
        };
        if item.sample.stage_num == u32::MAX {
            return None;
        }
        let result = match self.registry.get(item.stage_id) {
            Some(stage) => stage.process(item.sample, item.metadata),
            None => {
                return None;
            },
        };
        if self.total_processed < usize::MAX {
            self.total_processed = self.total_processed + 1;
        }
        Some(result)
    }

    /// Runs the next item as [`Self::process_next`] does, asks `should_insert`
    /// about each request of the result, in their order, and puts a work
    /// item into the queue for each one that it admits. The sample and the
    /// descriptor of the result come back.
    pub fn process_next_auto_enqueue<F: Fn(&StageRequest) -> bool>(
        &mut self,
        should_insert: F,
    ) -> (processed: Option<(Sample, FlowMetadata)>)
        requires
            forall|request: &StageRequest| #[trigger] should_insert.requires((request,)),
        ensures
            processed is None <==> old(self)@.waiting.len() == 0 || !can_run(
                old(self).handlers(),
                old(self)@.waiting.last(),
            ),
            processed is None ==> final(self)@ == if old(self)@.waiting.len() == 0 {
                old(self)@
            } else {
                SchedulerView { waiting: old(self)@.waiting.drop_last(), ..old(self)@ }
            },
            processed matches Some((sample, metadata)) ==> exists|
                result: StageResult,
                admitted: Seq<bool>,
                items: Seq<WorkItem>,
            |
                {
                    &&& ran(old(self).handlers(), old(self)@.waiting.last(), Some(result))
                    &&& sample == result.sample
                    &&& metadata == result.metadata
                    &&& admitted.len() == result.requests@.len()
                    &&& forall|i: int|
                        0 <= i < admitted.len() ==> should_insert.ensures(
                            (&#[trigger] result.requests@[i],),
                            admitted[i],
                        )
                    &&& follows_up(sample@, result.requests@, admitted, items)
                    &&& final(self)@ == (SchedulerView {
                        waiting: queue_with_all(old(self)@.waiting.drop_last(), items),
                        total_enqueued: counted_by(old(self)@.total_enqueued, items.len()),
                        total_processed: counted(old(self)@.total_processed),
                    })
                },
            final(self).handlers() == old(self).handlers(),
            in_order(old(self)@.waiting) ==> in_order(final(self)@.waiting),
            tidy_queue(old(self)@.waiting) ==> tidy_queue(final(self)@.waiting),
    {
        let result = match self.process_next() {
            Some(result) => result,
            None => {
                return None;
            },
        };
        let ghost ran_view = self@;
        let ghost mut admitted: Seq<bool> = Seq::empty();
        let ghost mut items: Seq<WorkItem> = Seq::empty();
        let mut i: usize = 0;
        while i < result.requests.len()
            invariant
                i <= result.requests@.len(),
                forall|request: &StageRequest| #[trigger] should_insert.requires((request,)),
                admitted.len() == i,
                forall|k: int|
                    0 <= k < i ==> should_insert.ensures(
                        (&#[trigger] result.requests@[k],),
                        admitted[k],
                    ),
                follows_up(result.sample@, result.requests@.take(i as int), admitted, items),
                self@ == (SchedulerView {
                    waiting: queue_with_all(ran_view.waiting, items),
                    total_enqueued: counted_by(ran_view.total_enqueued, items.len()),
                    ..ran_view
                }),
                self.handlers() == old(self).handlers(),
                in_order(ran_view.waiting) ==> in_order(self@.waiting),
                tidy_queue(old(self)@.waiting) ==> tidy_queue(self@.waiting) && keeps_books(
                    old(self)@.waiting.last().sample@,
                    old(self)@.waiting.last().metadata@,
                    result,
                ) && tidy_item(old(self)@.waiting.last()),
            decreases result.requests@.len() - i,
        {
            let request = &result.requests[i];
            let ghost earlier = items;
            let ghost answers = admitted;
            proof {
                assert(result.requests@.take(i + 1).drop_last() =~= result.requests@.take(i as int));
            }
            let verdict = should_insert(request);
            proof {
                admitted = answers.push(verdict);
                assert(admitted.drop_last() =~= answers);
            }
            if verdict {
                let item = WorkItem::new(
                    result.sample.clone(),
                    request.metadata.clone(),
                    request.stage_id,
                );
                proof {
                    items = earlier.push(item);
                    assert(items.drop_last() =~= earlier);
                }
                self.enqueue(item);
            }
            i = i + 1;
        }
        proof {
            assert(result.requests@.take(result.requests@.len() as int) =~= result.requests@);
        }
        Some((result.sample, result.metadata))
    }

    /// The next item to run, which stays in the queue.
    pub fn peek(&self) -> (item: Option<&WorkItem>)
        ensures
            item is None <==> self@.waiting.len() == 0,
            item matches Some(next) ==> *next == self@.waiting.last(),
    {
        if self.queue.len() == 0 {
            None
        } else {
            Some(&self.queue[self.queue.len() - 1])
        }
    }

    /// Takes the next item to run out of the queue. In a queue that is in
    /// order no other item outranks it.
    pub fn pop(&mut self) -> (item: Option<WorkItem>)
        ensures
            item is None <==> old(self)@.waiting.len() == 0,
            item is None ==> final(self)@ == old(self)@,
            item matches Some(next) ==> next == old(self)@.waiting.last() && final(self)@ == (
            SchedulerView { waiting: old(self)@.waiting.drop_last(), ..old(self)@ }),
            item matches Some(next) ==> in_order(old(self)@.waiting) ==> forall|i: int|
                0 <= i < old(self)@.waiting.len() ==> !outranks(
                    #[trigger] old(self)@.waiting[i],
                    next,
                ),
            final(self).handlers() == old(self).handlers(),
            in_order(old(self)@.waiting) ==> in_order(final(self)@.waiting),
            tidy_queue(old(self)@.waiting) ==> tidy_queue(final(self)@.waiting),
            item matches Some(next) ==> tidy_queue(old(self)@.waiting) ==> tidy_item(next),
    {
        let item = self.queue.pop();
        item
    }

    /// Whether no item waits.
    pub fn is_empty(&self) -> (empty: bool)
        ensures
            empty == (self@.waiting.len() == 0),
    {
        self.queue.len() == 0
    }

    /// Number of waiting items.
    pub fn len(&self) -> (len: usize)
        ensures
            len == self@.waiting.len(),
    {
        self.queue.len()
    }

    /// Number of items run through a handler, held at `usize::MAX`.
    pub fn total_processed(&self) -> (total: usize)
        ensures
            total == self@.total_processed,
    {
        self.total_processed
    }

    /// Number of items ever put in, held at `usize::MAX`.
    pub fn total_enqueued(&self) -> (total: usize)
        ensures
            total == self@.total_enqueued,
    {
        self.total_enqueued
    }

    /// Drops every waiting item.
    pub fn clear(&mut self)
        ensures
            final(self)@ == (SchedulerView { waiting: Seq::empty(), ..old(self)@ }),
            final(self).handlers() == old(self).handlers(),
    {
        self.queue.clear();
    }

    /// Sets both counters to zero.
    pub fn reset_stats(&mut self)
        ensures
            final(self)@ == (SchedulerView {
                total_enqueued: 0,
                total_processed: 0,
                ..old(self)@
            }),
            final(self).handlers() == old(self).handlers(),
    {
        self.total_enqueued = 0;
        self.total_processed = 0;
    }
}

} // verus!
