//! The runtime: owns the samples of a batch and drives them through the
//! scheduler, the insertion policy and the regroup pool.

use super::policy::{state_after, verdicts, InsertionPolicy};
use super::regroup::{ascending, gathered, PoolView, RegroupPool};
use super::scheduler::{
    can_run, counted, counted_by, follows_up, in_order, queue_with_all, ran, request_ids,
    tidy_item, tidy_queue, PriorityScheduler, SchedulerView, WorkItem,
};
use crate::data::metadata::{FlowLedger, FlowMetadata};
use crate::data::sample::Sample;
use crate::stage::registry::StageRegistry;
use crate::stage::traits::{Stage, StageId, StageResult};
use std::sync::Arc;
use vstd::prelude::*;

verus! {

/// Settings of a runtime.
#[derive(Debug, Clone, Copy)]
pub struct RuntimeConfig {
    /// Number of worker threads for asynchronous runs.
    pub worker_count: usize,
    /// Largest number of stages a sample may pass; `None` sets no limit.
    /// The runtime keeps the value and does not act on it.
    pub max_stages: Option<u32>,
}

/// Settings of a runtime as the outer interface passes them: zero stands
/// for "detect the number of workers" and for "no limit on stages".
#[derive(Debug, Clone, Copy)]
pub struct CRuntimeConfig {
    /// Number of worker threads; 0 asks for the number of CPUs.
    pub worker_count: usize,
    /// Largest number of stages a sample may pass; 0 sets no limit.
    pub max_stages: u32,
}

impl Default for CRuntimeConfig {
    fn default() -> (config: Self)
        ensures
            config.worker_count == 0,
            config.max_stages == 0,
    {
        CRuntimeConfig { worker_count: 0, max_stages: 0 }
    }
}

/// Asks `num_cpus::get` for the number of logical CPUs that this process
/// may use. The answer depends on the machine and on the moment, so nothing
/// is claimed of it.
#[verifier::external_body]
fn detect_cpus() -> (count: usize) {
    num_cpus::get()
}

impl Default for RuntimeConfig {
    /// As many workers as the machine has CPUs, and no limit on stages.
    fn default() -> (config: Self)
        ensures
            config.max_stages is None,
    {
        RuntimeConfig::resolve(CRuntimeConfig::default(), detect_cpus())
    }
}

impl RuntimeConfig {
    /// The settings that `raw` stands for on a machine with `detected`
    /// CPUs: a worker count of zero becomes `detected`, a stage limit of
    /// zero becomes no limit.
    pub fn resolve(raw: CRuntimeConfig, detected: usize) -> (config: Self)
        ensures
            config.worker_count == if raw.worker_count == 0 {
                detected
            } else {
                raw.worker_count
            },
            config.max_stages == if raw.max_stages == 0 {
                None
            } else {
                Some(raw.max_stages)
            },
    {
        RuntimeConfig {
            worker_count: if raw.worker_count == 0 {
                detected
            } else {
                raw.worker_count
            },
            max_stages: if raw.max_stages == 0 {
                None
            } else {
                Some(raw.max_stages)
            },
        }
    }

    /// The settings that `raw` stands for on this machine.
    pub fn from_raw(raw: CRuntimeConfig) -> (config: Self)
        ensures
            raw.worker_count != 0 ==> config.worker_count == raw.worker_count,
            config.max_stages == if raw.max_stages == 0 {
                None
            } else {
                Some(raw.max_stages)
            },
    {
        RuntimeConfig::resolve(raw, detect_cpus())
    }
}

/// How one step of the runtime ended.
#[derive(Debug, Clone, Copy, PartialEq, Eq, Structural)]
pub enum StepOutcome {
    /// No item waits; nothing was done.
    Idle,
    /// The batch is cancelled; nothing was done.
    Cancelled,
    /// The next item could not be run and was dropped.
    Dropped,
    /// A stage ran and asked for more; the sample went to the regroup pool.
    Advanced,
    /// A stage ran and asked for nothing more; the sample is completed.
    Finished,
}

/// What a [`Runtime`] holds, apart from its settings and handlers. `S` is
/// the state of the insertion policy.
pub struct RuntimeView<S> {
    /// The samples that wait for the next run.
    pub pending: Seq<Sample>,
    /// The scheduler.
    pub scheduler: SchedulerView,
    /// The regroup pool.
    pub pool: PoolView,
    /// The state of the insertion policy.
    pub policy: S,
    /// The samples whose run has ended.
    pub completed: Seq<Sample>,
    /// Whether the batch is cancelled.
    pub cancelled: bool,
    /// The stage that every sample starts with.
    pub seed_stage: StageId,
}

/// Every sample of `samples` is well formed.
pub open spec fn all_well_formed(samples: Seq<Sample>) -> bool {
    forall|i: int| 0 <= i < samples.len() ==> (#[trigger] samples[i])@.well_formed()
}

impl<S> RuntimeView<S> {
    /// Every sample that the runtime holds is well formed, wherever it is,
    /// and the descriptor of every work item fits its sample: at every
    /// point, for each sample, no peak is waiting, done or in work twice
    /// over.
    pub open spec fn tidy(self) -> bool {
        &&& all_well_formed(self.pending)
        &&& tidy_queue(self.scheduler.waiting)
        &&& forall|stage: u32| #[trigger]
            self.pool.buckets.contains_key(stage) ==> all_well_formed(self.pool.buckets[stage])
        &&& all_well_formed(self.completed)
    }
}

/// The work item that a run starts `sample` with.
pub open spec fn seeds(sample: Sample, stage: StageId, item: WorkItem) -> bool {
    &&& item.sample == sample
    &&& item.metadata@ == (FlowLedger { sample_id: sample.id@, peaks: sample.metadata@ })
    &&& item.stage_id == stage
    &&& item.priority_boost == 0
}

/// A step that ran the next item of `before` with `result`, and that made
/// `items` of the admitted requests, leads to `after` and ends as
/// `outcome`: the policy was asked about the requests in their order, each
/// admitted one became a work item with a copy of the sample, and the
/// sample is completed if the result asks for nothing and went to the
/// regroup pool if not.
pub open spec fn absorbs<H: Stage, P: InsertionPolicy>(
    handlers: Map<StageId, H>,
    before: RuntimeView<P::V>,
    after: RuntimeView<P::V>,
    outcome: StepOutcome,
    result: StageResult,
    items: Seq<WorkItem>,
) -> bool {
    let waiting = before.scheduler.waiting;
    let ids = request_ids(result.requests@);
    let terminal = result.requests@.len() == 0;
    &&& ran(handlers, waiting.last(), Some(result))
    &&& follows_up(result.sample@, result.requests@, verdicts::<P>(before.policy, ids), items)
    &&& outcome == if terminal {
        StepOutcome::Finished
    } else {
        StepOutcome::Advanced
    }
    &&& after == (RuntimeView {
        scheduler: SchedulerView {
            waiting: queue_with_all(waiting.drop_last(), items),
            total_enqueued: counted_by(before.scheduler.total_enqueued, items.len()),
            total_processed: counted(before.scheduler.total_processed),
        },
        policy: state_after::<P>(before.policy, ids),
        completed: if terminal {
            before.completed.push(result.sample)
        } else {
            before.completed
        },
        pool: if terminal {
            before.pool
        } else {
            PoolView {
                buckets: before.pool.buckets.insert(
                    result.sample.stage_num,
                    before.pool.bucket(result.sample.stage_num).push(result.sample),
                ),
                ..before.pool
            }
        },
        ..before
    })
}

/// One step of a runtime with `handlers` leads from `before` to `after`
/// and ends as `outcome`.
///
/// A cancelled runtime and one without waiting items stay as they are. Else
/// the next item leaves the queue. If it cannot be run nothing else changes.
/// If it can, the step goes on as [`absorbs`] says.
pub open spec fn steps_to<H: Stage, P: InsertionPolicy>(
    handlers: Map<StageId, H>,
    before: RuntimeView<P::V>,
    after: RuntimeView<P::V>,
    outcome: StepOutcome,
) -> bool {
    let waiting = before.scheduler.waiting;
    match outcome {
        StepOutcome::Cancelled => before.cancelled && after == before,
        StepOutcome::Idle => !before.cancelled && waiting.len() == 0 && after == before,
        StepOutcome::Dropped => {
            &&& !before.cancelled
            &&& waiting.len() > 0
            &&& !can_run(handlers, waiting.last())
            &&& after == (RuntimeView {
                scheduler: SchedulerView { waiting: waiting.drop_last(), ..before.scheduler },
                ..before
            })
        },
        _ => {
            &&& !before.cancelled
            &&& waiting.len() > 0
            &&& exists|result: StageResult, items: Seq<WorkItem>| #[trigger]
                absorbs::<H, P>(handlers, before, after, outcome, result, items)
        },
    }
}

/// `count` steps, none of which ended idle, cancelled or with a dropped
/// item, lead a runtime with `handlers` from `from` to `to`.
pub open spec fn runs_to<H: Stage, P: InsertionPolicy>(
    handlers: Map<StageId, H>,
    from: RuntimeView<P::V>,
    to: RuntimeView<P::V>,
    count: nat,
) -> bool
    decreases count,
{
    if count == 0 {
        to == from
    } else {
        exists|mid: RuntimeView<P::V>, outcome: StepOutcome|
            {
                &&& runs_to::<H, P>(handlers, from, mid, (count - 1) as nat)
                &&& goes_on(outcome)
                &&& #[trigger] steps_to::<H, P>(handlers, mid, to, outcome)
            }
    }
}

/// `items` are the work items that a run starts the samples of `pending`
/// with, in their order.
pub open spec fn seeds_all(pending: Seq<Sample>, stage: StageId, items: Seq<WorkItem>) -> bool {
    &&& items.len() == pending.len()
    &&& forall|i: int| 0 <= i < pending.len() ==> seeds(pending[i], stage, #[trigger] items[i])
}

/// The start of a run leads from `before` to `after`: the cancellation flag
/// is cleared, the regroup pool expects as many samples as waited, and each
/// of them went into the scheduler as a work item for the seed stage.
pub open spec fn seeds_to<S>(before: RuntimeView<S>, after: RuntimeView<S>) -> bool {
    exists|items: Seq<WorkItem>|
        {
            &&& #[trigger] seeds_all(before.pending, before.seed_stage, items)
            &&& after == (RuntimeView {
                pending: Seq::empty(),
                scheduler: SchedulerView {
                    waiting: queue_with_all(before.scheduler.waiting, items),
                    total_enqueued: counted_by(before.scheduler.total_enqueued, items.len()),
                    ..before.scheduler
                },
                pool: PoolView { expected_count: before.pending.len(), ..before.pool },
                cancelled: false,
                ..before
            })
        }
}

/// Whether a step that ended as `outcome` is followed by another.
pub open spec fn goes_on(outcome: StepOutcome) -> bool {
    outcome == StepOutcome::Advanced || outcome == StepOutcome::Finished
}

/// The sample has reached `min_stage`.
pub open spec fn reached(min_stage: u32) -> spec_fn(Sample) -> bool {
    |sample: Sample| sample.stage_num >= min_stage
}

/// The sample has not reached `min_stage`.
pub open spec fn short_of(min_stage: u32) -> spec_fn(Sample) -> bool {
    |sample: Sample| sample.stage_num < min_stage
}

/// Owns the samples of a batch, from the moment they are added until the
/// caller takes them back, and drives them through their stages.
pub struct Runtime<H: Stage, P: InsertionPolicy> {
    config: RuntimeConfig,
    pending_samples: Vec<Sample>,
    scheduler: PriorityScheduler<H>,
    regroup_pool: RegroupPool,
    insertion_policy: P,
    completed: Vec<Sample>,
    cancelled: bool,
    seed_stage: StageId,
}

impl<H: Stage, P: InsertionPolicy> View for Runtime<H, P> {
    type V = RuntimeView<P::V>;

    closed spec fn view(&self) -> RuntimeView<P::V> {
        RuntimeView {
            pending: self.pending_samples@,
            scheduler: self.scheduler@,
            pool: self.regroup_pool@,
            policy: self.insertion_policy@,
            completed: self.completed@,
            cancelled: self.cancelled,
            seed_stage: self.seed_stage,
        }
    }
}

impl<H: Stage, P: InsertionPolicy> Runtime<H, P> {
    /// The handlers that the runtime runs its samples through.
    pub closed spec fn handlers(&self) -> Map<StageId, H> {
        self.scheduler.handlers()
    }

    /// The settings that the runtime was made with.
    pub closed spec fn settings(&self) -> RuntimeConfig {
        self.config
    }

    /// A runtime without samples that runs the handlers of `registry` and
    /// asks `policy` about their requests. Every sample starts with the
    /// peak finder.
    pub fn new(config: RuntimeConfig, registry: StageRegistry<H>, policy: P) -> (runtime: Self)
        ensures
            runtime@ == (RuntimeView {
                pending: Seq::empty(),
                scheduler: SchedulerView {
                    waiting: Seq::empty(),
                    total_enqueued: 0,
                    total_processed: 0,
                },
                pool: PoolView {
                    buckets: Map::empty(),
                    checkpoints: Set::empty(),
                    expected_count: 0,
                },
                policy: policy@,
                completed: Seq::empty(),
                cancelled: false,
                seed_stage: StageId::FindPeak,
            }),
            runtime.handlers() == registry@,
            runtime.settings() == config,
            runtime@.tidy(),
    {
        Runtime {
            config,
            pending_samples: Vec::new(),
            scheduler: PriorityScheduler::new(Arc::new(registry)),
            regroup_pool: RegroupPool::new(),
            insertion_policy: policy,
            completed: Vec::new(),
            cancelled: false,
            seed_stage: StageId::FindPeak,
        }
    }

    /// The settings that the runtime was made with.
    pub fn config(&self) -> (config: RuntimeConfig)
        ensures
            config == self.settings(),
    {
        self.config
    }

    /// The registry of the handlers, shared with the runtime.
    pub fn registry(&self) -> (registry: Arc<StageRegistry<H>>)
        ensures
            registry@ == self.handlers(),
    {
        self.scheduler.registry()
    }

    /// Makes `stage` the stage that every sample starts with.
    pub fn set_seed_stage(&mut self, stage: StageId)
        ensures
            final(self)@ == (RuntimeView { seed_stage: stage, ..old(self)@ }),
            final(self).handlers() == old(self).handlers(),
            final(self).settings() == old(self).settings(),
    {
        self.seed_stage = stage;
    }

    /// Adds `sample` to the samples that wait for the next run.
    pub fn add_sample(&mut self, sample: Sample)
        ensures
            final(self)@ == (RuntimeView { pending: old(self)@.pending.push(sample), ..old(self)@ }),
            final(self).handlers() == old(self).handlers(),
            final(self).settings() == old(self).settings(),
            old(self)@.tidy() && sample@.well_formed() ==> final(self)@.tidy(),
    {
        self.pending_samples.push(sample);
    }

    /// Adds `samples`, in their order, to the samples that wait for the
    /// next run.
    pub fn add_samples(&mut self, samples: Vec<Sample>)
        ensures
            final(self)@ == (RuntimeView { pending: old(self)@.pending + samples@, ..old(self)@ }),
            final(self).handlers() == old(self).handlers(),
            final(self).settings() == old(self).settings(),
            old(self)@.tidy() && all_well_formed(samples@) ==> final(self)@.tidy(),
    {
        let mut samples = samples;
        self.pending_samples.append(&mut samples);
    }

    /// Makes `stages`, and no others, the checkpoints of the regroup pool.
    pub fn set_checkpoints(&mut self, stages: &[u32])
        ensures
            final(self)@ == (RuntimeView {
                pool: PoolView { checkpoints: stages@.to_set(), ..old(self)@.pool },
                ..old(self)@
            }),
            final(self).handlers() == old(self).handlers(),
            final(self).settings() == old(self).settings(),
    {
        self.regroup_pool.set_checkpoints(stages);
    }

    /// Leaves the regroup pool without checkpoints.
    pub fn clear_checkpoints(&mut self)
        ensures
            final(self)@ == (RuntimeView {
                pool: PoolView { checkpoints: Set::empty(), ..old(self)@.pool },
                ..old(self)@
            }),
            final(self).handlers() == old(self).handlers(),
            final(self).settings() == old(self).settings(),
    {
        self.regroup_pool.clear_checkpoints();
    }

    /// Replaces the insertion policy.
    pub fn set_insertion_policy(&mut self, policy: P)
        ensures
            final(self)@ == (RuntimeView { policy: policy@, ..old(self)@ }),
            final(self).handlers() == old(self).handlers(),
            final(self).settings() == old(self).settings(),
    {
        self.insertion_policy = policy;
    }

    /// Number of samples that wait for a run plus the number of work items
    /// in the scheduler, or `usize::MAX` if there are more.
    pub fn pending_count(&self) -> (count: usize)
        ensures
            count == if self@.pending.len() + self@.scheduler.waiting.len() <= usize::MAX {
                self@.pending.len() + self@.scheduler.waiting.len()
            } else {
                usize::MAX as nat
            },
    {
        self.pending_samples.len().saturating_add(self.scheduler.len())
    }

    /// Number of completed samples.
    pub fn completed_count(&self) -> (count: usize)
        ensures
            count == self@.completed.len(),
    {
        self.completed.len()
    }

    /// Asks that the batch stop: no further step runs a stage until the
    /// next run clears the flag.
    pub fn cancel(&mut self)
        ensures
            final(self)@ == (RuntimeView { cancelled: true, ..old(self)@ }),
            final(self).handlers() == old(self).handlers(),
            final(self).settings() == old(self).settings(),
    {
        self.cancelled = true;
    }

    /// Whether the batch is cancelled.
    pub fn is_cancelled(&self) -> (cancelled: bool)
        ensures
            cancelled == self@.cancelled,
    {
        self.cancelled
    }
}

impl<H: Stage, P: InsertionPolicy> Runtime<H, P> {
    /// Starts a run: clears the cancellation flag, tells the regroup pool
    /// how many samples the batch holds, and moves every waiting sample into
    /// the scheduler as a work item for the seed stage, with a descriptor
    /// made of the sample's identifier and bookkeeping.
    pub fn seed(&mut self)
        ensures
            seeds_to(old(self)@, final(self)@),
            final(self).handlers() == old(self).handlers(),
            final(self).settings() == old(self).settings(),
            in_order(old(self)@.scheduler.waiting) ==> in_order(final(self)@.scheduler.waiting),
            old(self)@.tidy() ==> final(self)@.tidy(),
    {
        self.cancelled = false;
        let mut pending: Vec<Sample> = Vec::new();
        core::mem::swap(&mut self.pending_samples, &mut pending);
        self.regroup_pool.set_expected_count(pending.len());
        let ghost before = old(self)@;
        let ghost all = pending@;
        let ghost mut items: Seq<WorkItem> = Seq::empty();
        let stage = self.seed_stage;
        for sample in it: pending.into_iter()
            invariant
                it.seq() == all,
                all == before.pending,
                before == old(self)@,
                stage == before.seed_stage,
                seeds_all(all.take(it.index()), stage, items),
                self@ == (RuntimeView {
                    pending: Seq::empty(),
                    scheduler: SchedulerView {
                        waiting: queue_with_all(before.scheduler.waiting, items),
                        total_enqueued: counted_by(before.scheduler.total_enqueued, items.len()),
                        ..before.scheduler
                    },
                    pool: PoolView { expected_count: before.pending.len(), ..before.pool },
                    cancelled: false,
                    ..before
                }),
                self.handlers() == old(self).handlers(),
                self.settings() == old(self).settings(),
                in_order(before.scheduler.waiting) ==> in_order(self@.scheduler.waiting),
                before.tidy() ==> self@.tidy(),
        {
            let metadata = FlowMetadata::from_sample(sample.id.as_str(), &sample.metadata);
            let item = WorkItem::new(sample, metadata, stage);
            proof {
                let earlier = items;
                items = earlier.push(item);
                assert(items.drop_last() =~= earlier);
            }
            self.scheduler.enqueue(item);
        }
        proof {
            assert(all.take(all.len() as int) =~= all);
        }
    }

    /// Does one step of a run. See [`steps_to`].
    pub fn step(&mut self) -> (outcome: StepOutcome)
        ensures
            steps_to::<H, P>(old(self).handlers(), old(self)@, final(self)@, outcome),
            final(self).handlers() == old(self).handlers(),
            final(self).settings() == old(self).settings(),
            in_order(old(self)@.scheduler.waiting) ==> in_order(final(self)@.scheduler.waiting),
            old(self)@.pool.sound() ==> final(self)@.pool.sound(),
            old(self)@.tidy() ==> final(self)@.tidy(),
    {
        if self.cancelled {
            return StepOutcome::Cancelled;
        }
        if self.scheduler.is_empty() {
            return StepOutcome::Idle;
        }
        let result = match self.scheduler.process_next() {
            Some(result) => result,
            None => {
                assert(old(self)@.tidy() ==> all_well_formed(self@.pending));
                return StepOutcome::Dropped;
            },
        };
        let ghost ran_scheduler = self.scheduler@;
        proof {
            let waiting = old(self)@.scheduler.waiting;
            assert(tidy_queue(waiting) ==> tidy_item(waiting[waiting.len() - 1]));
        }
        self.scheduler.enqueue_admitted(
            &mut self.insertion_policy,
            &result.sample,
            &result.requests,
        );
        let ghost items = choose|items: Seq<WorkItem>|
            {
                &&& follows_up(
                    result.sample@,
                    result.requests@,
                    verdicts::<P>(old(self)@.policy, request_ids(result.requests@)),
                    items,
                )
                &&& self.scheduler@ == (SchedulerView {
                    waiting: queue_with_all(ran_scheduler.waiting, items),
                    total_enqueued: counted_by(ran_scheduler.total_enqueued, items.len()),
                    ..ran_scheduler
                })
            };
        if result.requests.len() == 0 {
            self.completed.push(result.sample);
            assert(absorbs::<H, P>(
                old(self).handlers(),
                old(self)@,
                self@,
                StepOutcome::Finished,
                result,
                items,
            ));
            StepOutcome::Finished
        } else {
            self.regroup_pool.add(result.sample);
            assert(absorbs::<H, P>(
                old(self).handlers(),
                old(self)@,
                self@,
                StepOutcome::Advanced,
                result,
                items,
            ));
            StepOutcome::Advanced
        }
    }

    /// Does steps until one does not go on, or until `max_steps` steps have
    /// gone on. Comes back with the number of steps that went on and with
    /// the outcome of the step that stopped the run, if one did.
    pub fn drive(&mut self, max_steps: usize) -> (ended: (usize, Option<StepOutcome>))
        ensures
            ended.0 <= max_steps,
            exists|last: RuntimeView<P::V>|
                {
                    &&& #[trigger] runs_to::<H, P>(
                        old(self).handlers(),
                        old(self)@,
                        last,
                        ended.0 as nat,
                    )
                    &&& match ended.1 {
                        Some(outcome) => !goes_on(outcome) && steps_to::<H, P>(
                            old(self).handlers(),
                            last,
                            final(self)@,
                            outcome,
                        ),
                        None => ended.0 == max_steps && final(self)@ == last,
                    }
                },
            final(self)@.pending == old(self)@.pending,
            final(self)@.cancelled == old(self)@.cancelled,
            final(self)@.seed_stage == old(self)@.seed_stage,
            final(self).handlers() == old(self).handlers(),
            final(self).settings() == old(self).settings(),
            in_order(old(self)@.scheduler.waiting) ==> in_order(final(self)@.scheduler.waiting),
            old(self)@.pool.sound() ==> final(self)@.pool.sound(),
            old(self)@.tidy() ==> final(self)@.tidy(),
    {
        let mut steps: usize = 0;
        while steps < max_steps
            invariant
                steps <= max_steps,
                runs_to::<H, P>(old(self).handlers(), old(self)@, self@, steps as nat),
                self@.pending == old(self)@.pending,
                self@.cancelled == old(self)@.cancelled,
                self@.seed_stage == old(self)@.seed_stage,
                self.handlers() == old(self).handlers(),
                self.settings() == old(self).settings(),
                in_order(old(self)@.scheduler.waiting) ==> in_order(self@.scheduler.waiting),
                old(self)@.pool.sound() ==> self@.pool.sound(),
                old(self)@.tidy() ==> self@.tidy(),
            decreases max_steps - steps,
        {
            let ghost before = self@;
            let outcome = self.step();
            match outcome {
                StepOutcome::Advanced | StepOutcome::Finished => {
                    steps = steps + 1;
                },
                _ => {
                    assert(!goes_on(outcome) && steps_to::<H, P>(
                        old(self).handlers(),
                        before,
                        self@,
                        outcome,
                    ));
                    return (steps, Some(outcome));
                },
            }
        }
        (steps, None)
    }

    /// Runs the batch: starts a run as [`Self::seed`] does and does steps
    /// until no item waits or an item cannot be run.
    pub fn run_sync(&mut self)
        ensures
            exists|seeded: RuntimeView<P::V>, last: RuntimeView<P::V>, steps: nat|
                {
                    &&& seeds_to(old(self)@, seeded)
                    &&& #[trigger] runs_to::<H, P>(old(self).handlers(), seeded, last, steps)
                    &&& {
                        ||| steps == usize::MAX && final(self)@ == last
                        ||| steps_to::<H, P>(
                            old(self).handlers(),
                            last,
                            final(self)@,
                            StepOutcome::Idle,
                        )
                        ||| steps_to::<H, P>(
                            old(self).handlers(),
                            last,
                            final(self)@,
                            StepOutcome::Dropped,
                        )
                    }
                },
            final(self)@.pending.len() == 0,
            !final(self)@.cancelled,
            final(self)@.pool.expected_count == old(self)@.pending.len(),
            final(self).handlers() == old(self).handlers(),
            final(self).settings() == old(self).settings(),
            in_order(old(self)@.scheduler.waiting) ==> in_order(final(self)@.scheduler.waiting),
            old(self)@.pool.sound() ==> final(self)@.pool.sound(),
            old(self)@.tidy() ==> final(self)@.tidy(),
    {
        self.seed();
        let ghost seeded = self@;
        let ended = self.drive(usize::MAX);
        proof {
            let last = choose|last: RuntimeView<P::V>|
                {
                    &&& #[trigger] runs_to::<H, P>(
                        old(self).handlers(),
                        seeded,
                        last,
                        ended.0 as nat,
                    )
                    &&& match ended.1 {
                        Some(outcome) => !goes_on(outcome) && steps_to::<H, P>(
                            old(self).handlers(),
                            last,
                            self@,
                            outcome,
                        ),
                        None => ended.0 == usize::MAX && self@ == last,
                    }
                };
            lemma_run_keeps_expected_count::<H, P>(
                old(self).handlers(),
                seeded,
                last,
                ended.0 as nat,
            );
        }
    }

    /// Harvests the samples that have reached `min_stage`: those of the
    /// regroup pool, bucket by bucket in ascending order of stage, and behind
    /// them the completed ones, in the order they were completed. At most
    /// `max_count` samples come back; the ones beyond go to the completed
    /// samples, behind those that have not reached `min_stage`, which stay.
    /// Where `max_count` leaves none beyond, no sample that has reached
    /// `min_stage` stays in the pool or among the completed ones.
    pub fn regroup(&mut self, min_stage: u32, max_count: usize) -> (harvest: Vec<Sample>)
        ensures
            exists|order: Seq<u32>|
                {
                    let found = gathered(old(self)@.pool.buckets, order) + old(
                        self,
                    )@.completed.filter(reached(min_stage));
                    let count = if found.len() <= max_count {
                        found.len() as int
                    } else {
                        max_count as int
                    };
                    &&& #[trigger] ascending(order)
                    &&& order.to_set() == old(self)@.pool.stages_from(min_stage)
                    &&& found.len() <= usize::MAX
                    &&& harvest@ == found.take(count)
                    &&& final(self)@.completed == old(self)@.completed.filter(short_of(min_stage))
                        + found.skip(count)
                    &&& found.len() <= max_count ==> forall|i: int|
                        0 <= i < final(self)@.completed.len() ==> (
                        #[trigger] final(self)@.completed[i]).stage_num < min_stage
                },
            final(self)@ == (RuntimeView {
                pool: PoolView {
                    buckets: old(self)@.pool.buckets.remove_keys(
                        old(self)@.pool.stages_from(min_stage),
                    ),
                    ..old(self)@.pool
                },
                completed: final(self)@.completed,
                ..old(self)@
            }),
            forall|stage: u32| #[trigger]
                final(self)@.pool.buckets.contains_key(stage) ==> stage < min_stage,
            max_count == usize::MAX ==> forall|i: int|
                0 <= i < final(self)@.completed.len() ==> (
                #[trigger] final(self)@.completed[i]).stage_num < min_stage,
            old(self)@.pool.sound() ==> final(self)@.pool.sound(),
            harvest@.len() <= max_count,
            final(self).handlers() == old(self).handlers(),
            final(self).settings() == old(self).settings(),
            old(self)@.tidy() ==> final(self)@.tidy() && all_well_formed(harvest@),
    {
        let mut harvest = self.regroup_pool.regroup(min_stage);
        let ghost pooled = harvest@;
        let mut completed: Vec<Sample> = Vec::new();
        core::mem::swap(&mut self.completed, &mut completed);
        let ghost all = completed@;
        let mut kept: Vec<Sample> = Vec::new();
        for sample in it: completed.into_iter()
            invariant
                it.seq() == all,
                harvest@ == pooled + all.take(it.index()).filter(reached(min_stage)),
                kept@ == all.take(it.index()).filter(short_of(min_stage)),
                all_well_formed(all) && all_well_formed(pooled) ==> all_well_formed(harvest@)
                    && all_well_formed(kept@),
        {
            proof {
                let done = all.take(it.index());
                assert(all.take(it.index() + 1) =~= done.push(sample));
                done.lemma_filter_push(sample, reached(min_stage));
                done.lemma_filter_push(sample, short_of(min_stage));
            }
            if sample.stage_num >= min_stage {
                harvest.push(sample);
            } else {
                kept.push(sample);
            }
        }
        proof {
            assert(all.take(all.len() as int) =~= all);
        }
        if harvest.len() > max_count {
            let mut excess = harvest.split_off(max_count);
            kept.append(&mut excess);
        }
        self.completed = kept;
        harvest
    }

    /// Takes every completed sample out of the runtime.
    pub fn take_completed(&mut self) -> (samples: Vec<Sample>)
        ensures
            samples@ == old(self)@.completed,
            final(self)@ == (RuntimeView { completed: Seq::empty(), ..old(self)@ }),
            final(self).handlers() == old(self).handlers(),
            final(self).settings() == old(self).settings(),
            old(self)@.tidy() ==> final(self)@.tidy() && all_well_formed(samples@),
    {
        let mut samples: Vec<Sample> = Vec::new();
        core::mem::swap(&mut self.completed, &mut samples);
        samples
    }

    /// Forgets the batch: the waiting samples, the work items, the samples
    /// in the regroup pool and the completed ones, what the insertion policy
    /// has counted, and the cancellation. The checkpoints, the handlers and
    /// the scheduler's counters stay.
    pub fn reset(&mut self)
        ensures
            final(self)@ == (RuntimeView {
                pending: Seq::empty(),
                scheduler: SchedulerView { waiting: Seq::empty(), ..old(self)@.scheduler },
                pool: PoolView { buckets: Map::empty(), expected_count: 0, ..old(self)@.pool },
                policy: P::cleared(old(self)@.policy),
                completed: Seq::empty(),
                cancelled: false,
                ..old(self)@
            }),
            final(self).handlers() == old(self).handlers(),
            final(self).settings() == old(self).settings(),
    {
        self.pending_samples.clear();
        self.scheduler.clear();
        self.regroup_pool.reset();
        self.completed.clear();
        self.insertion_policy.reset();
        self.cancelled = false;
    }
}

/// No step of a run changes how many samples the regroup pool expects, nor
/// the checkpoints, the waiting samples or the cancellation flag.
pub proof fn lemma_run_keeps_expected_count<H: Stage, P: InsertionPolicy>(
    handlers: Map<StageId, H>,
    from: RuntimeView<P::V>,
    to: RuntimeView<P::V>,
    count: nat,
)
    requires
        runs_to::<H, P>(handlers, from, to, count),
    ensures
        to.pool.expected_count == from.pool.expected_count,
        to.pool.checkpoints == from.pool.checkpoints,
        to.pending == from.pending,
        to.cancelled == from.cancelled,
    decreases count,
{
    if count > 0 {
        let (mid, outcome) = choose|mid: RuntimeView<P::V>, outcome: StepOutcome|
            {
                &&& runs_to::<H, P>(handlers, from, mid, (count - 1) as nat)
                &&& goes_on(outcome)
                &&& #[trigger] steps_to::<H, P>(handlers, mid, to, outcome)
            };
        lemma_run_keeps_expected_count::<H, P>(handlers, from, mid, (count - 1) as nat);
    }
}

} // verus!
