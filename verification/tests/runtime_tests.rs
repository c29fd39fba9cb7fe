use saxsrs::data::{FlowMetadata, Sample, SCALE};
use saxsrs::runtime::executor::{CRuntimeConfig, Runtime, RuntimeConfig, StepOutcome};
use saxsrs::runtime::policy::{
    AllPolicy, AlwaysInsertPolicy, AnyPolicy, InsertionPolicy, NeverInsertPolicy,
    PerSampleLimitPolicy, SaturationPolicy,
};
use saxsrs::runtime::regroup::RegroupPool;
use saxsrs::runtime::scheduler::{PriorityScheduler, WorkItem};
use saxsrs::stage::find_peak::{FindPeakConfig, FindPeakStage};
use saxsrs::stage::process_peak::ProcessPeakStage;
use saxsrs::stage::{Stage, StageId, StageRegistry, StageRequest, StageResult};
use saxsrs::status::SaxsStatus;
use std::sync::Arc;

fn fx(value: f64) -> i64 {
    (value * SCALE as f64).round() as i64
}

fn make_request(sample_id: &str) -> StageRequest {
    StageRequest { stage_id: StageId::FindPeak, metadata: FlowMetadata::new(sample_id) }
}

fn make_sample(id: &str, stage: u32) -> Sample {
    let mut s = Sample::new(id, vec![fx(1.0)], vec![fx(1.0)], vec![fx(0.1)]).unwrap();
    s.stage_num = stage;
    s
}

fn make_item(id: &str, stage: u32) -> WorkItem {
    WorkItem::new(make_sample(id, stage), FlowMetadata::new(id), StageId::FindPeak)
}

fn three_peaks(id: &str) -> Sample {
    let mut intensity = vec![fx(0.0); 100];
    intensity[20] = fx(2.0);
    intensity[50] = fx(3.0);
    intensity[80] = fx(1.5);
    Sample::new(id, (0..100).map(|i| fx(i as f64 * 0.01)).collect(), intensity, vec![fx(0.1); 100])
        .unwrap()
}

fn flat(id: &str) -> Sample {
    Sample::new(
        id,
        vec![fx(0.0), fx(0.1), fx(0.2)],
        vec![fx(0.0), fx(0.0), fx(0.0)],
        vec![fx(1.0), fx(1.0), fx(1.0)],
    )
    .unwrap()
}

/// Finds peaks with the library's stage and removes a peak by setting its
/// one point to zero.
enum Pipeline {
    Find(FindPeakStage),
    Clip(ProcessPeakStage),
}

impl Stage for Pipeline {
    fn stage_id(&self) -> StageId {
        self.id()
    }

    fn id(&self) -> StageId {
        match self {
            Pipeline::Find(stage) => stage.id(),
            Pipeline::Clip(stage) => stage.id(),
        }
    }

    fn process(&self, sample: Sample, metadata: FlowMetadata) -> StageResult {
        match self {
            Pipeline::Find(stage) => stage.process(sample, metadata),
            Pipeline::Clip(stage) => match stage.target(&sample, &metadata) {
                None => stage.skip(sample, metadata),
                Some(peak) => {
                    let amplitude = sample.intensity[peak];
                    let mut residual = sample.intensity.clone();
                    residual[peak] = 0;
                    stage.finish(sample, metadata, amplitude, residual)
                }
            },
        }
    }
}

fn pipeline_registry() -> StageRegistry<Pipeline> {
    let mut registry = StageRegistry::new();
    registry.register(Pipeline::Find(FindPeakStage::new(FindPeakConfig {
        min_height: fx(1.0),
        min_prominence: fx(0.5),
        min_distance: 1,
    })));
    registry.register(Pipeline::Clip(ProcessPeakStage::with_defaults()));
    registry
}

fn find_only_registry() -> StageRegistry<FindPeakStage> {
    let mut registry = StageRegistry::new();
    registry.register(FindPeakStage::with_defaults());
    registry
}

fn config() -> RuntimeConfig {
    RuntimeConfig { worker_count: 1, max_stages: None }
}

#[test]
fn test_always_policy() {
    let mut policy = AlwaysInsertPolicy;
    assert!(policy.should_insert(&make_request("a")));
    assert!(policy.should_insert(&make_request("a")));
}

#[test]
fn test_never_policy() {
    let mut policy = NeverInsertPolicy;
    assert!(!policy.should_insert(&make_request("a")));
}

#[test]
fn test_saturation_policy() {
    let mut policy = SaturationPolicy::new(2);
    assert!(policy.should_insert(&make_request("a")));
    assert!(policy.should_insert(&make_request("b")));
    assert!(!policy.should_insert(&make_request("c")));

    policy.reset();
    assert!(policy.should_insert(&make_request("d")));
}

#[test]
fn test_per_sample_limit() {
    let mut policy = PerSampleLimitPolicy::new(2);

    assert!(policy.should_insert(&make_request("a")));
    assert!(policy.should_insert(&make_request("a")));
    assert!(!policy.should_insert(&make_request("a")));

    assert!(policy.should_insert(&make_request("b")));
}

#[test]
fn test_add_and_count() {
    let mut pool = RegroupPool::new();

    pool.add(make_sample("a", 3));
    pool.add(make_sample("b", 3));
    pool.add(make_sample("c", 5));

    assert_eq!(pool.count_at_stage(3), 2);
    assert_eq!(pool.count_at_stage(5), 1);
    assert_eq!(pool.total_count(), 3);
}

#[test]
fn test_regroup() {
    let mut pool = RegroupPool::new();

    pool.add(make_sample("a", 3));
    pool.add(make_sample("b", 5));
    pool.add(make_sample("c", 7));

    let regrouped = pool.regroup(5);
    assert_eq!(regrouped.len(), 2);

    assert_eq!(pool.count_at_stage(3), 1);
    assert_eq!(pool.total_count(), 1);
}

#[test]
fn test_checkpoint() {
    let mut pool = RegroupPool::with_expected_count(3);
    pool.add_checkpoint(5);

    pool.add(make_sample("a", 5));
    pool.add(make_sample("b", 5));

    assert!(!pool.checkpoint_ready(5));
    assert!(pool.collect_checkpoint(5).is_none());

    pool.add(make_sample("c", 5));

    assert!(pool.checkpoint_ready(5));

    let samples = pool.collect_checkpoint(5).unwrap();
    assert_eq!(samples.len(), 3);
}

#[test]
fn test_priority_ordering() {
    let item1 = WorkItem::new(make_sample("a", 5), FlowMetadata::new("a"), StageId::FindPeak);
    let item2 = WorkItem::new(make_sample("b", 3), FlowMetadata::new("b"), StageId::FindPeak);
    let item3 = WorkItem::new(make_sample("c", 7), FlowMetadata::new("c"), StageId::FindPeak);

    assert!(item2 > item1);
    assert!(item2 > item3);
    assert!(item1 > item3);
}

#[test]
fn test_scheduler_ordering() {
    let registry: Arc<StageRegistry<FindPeakStage>> = Arc::new(StageRegistry::new());
    let mut scheduler = PriorityScheduler::new(registry);

    scheduler.enqueue(WorkItem::new(make_sample("a", 5), FlowMetadata::new("a"), StageId::FindPeak));
    scheduler.enqueue(WorkItem::new(make_sample("b", 3), FlowMetadata::new("b"), StageId::FindPeak));
    scheduler.enqueue(WorkItem::new(make_sample("c", 7), FlowMetadata::new("c"), StageId::FindPeak));

    assert_eq!(scheduler.pop().unwrap().sample.id, "b");
    assert_eq!(scheduler.pop().unwrap().sample.id, "a");
    assert_eq!(scheduler.pop().unwrap().sample.id, "c");
}

#[test]
fn saturation_admits_the_smaller_of_limit_and_requests() {
    for (limit, requests) in [(0usize, 4usize), (3, 2), (3, 3), (3, 7)] {
        let mut policy = SaturationPolicy::new(limit);
        let mut admitted = 0;
        for i in 0..requests {
            let id = if i % 2 == 0 { "even" } else { "odd" };
            if policy.should_insert(&make_request(id)) {
                admitted += 1;
            }
        }
        assert_eq!(admitted, limit.min(requests));
    }
}

#[test]
fn per_sample_limit_counts_each_sample_alone() {
    let mut policy = PerSampleLimitPolicy::new(2);
    let order = ["a", "b", "a", "c", "a", "b", "b", "a", "c", "c"];
    let mut admitted = std::collections::HashMap::new();
    for id in order {
        if policy.should_insert(&make_request(id)) {
            *admitted.entry(id).or_insert(0) += 1;
        }
    }
    assert_eq!(admitted.get("a"), Some(&2));
    assert_eq!(admitted.get("b"), Some(&2));
    assert_eq!(admitted.get("c"), Some(&2));
    policy.reset();
    assert!(policy.should_insert(&make_request("a")));

    let mut none = PerSampleLimitPolicy::new(0);
    assert!(!none.should_insert(&make_request("a")));
    assert!(!none.should_insert(&make_request("a")));
}

#[test]
fn all_policy_asks_until_the_first_rejection() {
    let mut empty: AllPolicy<SaturationPolicy> = AllPolicy::new(Vec::new());
    assert!(empty.should_insert(&make_request("a")));

    let mut both = AllPolicy::new(vec![SaturationPolicy::new(1), SaturationPolicy::new(3)]);
    assert!(both.should_insert(&make_request("a")));
    assert!(!both.should_insert(&make_request("a")));
    assert!(!both.should_insert(&make_request("a")));
    both.reset();
    assert!(both.should_insert(&make_request("a")));

    // The second policy is not asked once the first has rejected, so it
    // keeps its two free places.
    let mut nested = AnyPolicy::new(vec![
        AllPolicy::new(vec![SaturationPolicy::new(0), SaturationPolicy::new(5)]),
        AllPolicy::new(vec![SaturationPolicy::new(2)]),
    ]);
    assert!(nested.should_insert(&make_request("a")));
    assert!(nested.should_insert(&make_request("a")));
    assert!(!nested.should_insert(&make_request("a")));
}

#[test]
fn any_policy_asks_until_the_first_admission() {
    let mut empty: AnyPolicy<SaturationPolicy> = AnyPolicy::new(Vec::new());
    assert!(!empty.should_insert(&make_request("a")));

    let mut either = AnyPolicy::new(vec![SaturationPolicy::new(1), SaturationPolicy::new(2)]);
    assert!(either.should_insert(&make_request("a")));
    assert!(either.should_insert(&make_request("a")));
    assert!(either.should_insert(&make_request("a")));
    assert!(!either.should_insert(&make_request("a")));
    either.reset();
    assert!(either.should_insert(&make_request("a")));

    let mut limits = AnyPolicy::new(vec![PerSampleLimitPolicy::new(1)]);
    assert!(limits.should_insert(&make_request("a")));
    assert!(!limits.should_insert(&make_request("a")));
    assert!(limits.should_insert(&make_request("b")));
}

#[test]
fn checkpoint_barrier_holds_until_the_batch_has_arrived() {
    let mut pool = RegroupPool::new();
    pool.set_expected_count(3);
    pool.set_checkpoints(&[5, 9]);
    assert!(pool.is_checkpoint(5));
    assert!(pool.is_checkpoint(9));
    assert!(!pool.is_checkpoint(4));

    pool.add(make_sample("a", 5));
    pool.add(make_sample("b", 5));
    pool.add(make_sample("x", 4));
    assert!(pool.collect_checkpoint(5).is_none());
    assert!(pool.collect_at_stage(5).is_none());
    assert_eq!(pool.count_at_stage(5), 2);
    // A stage that is no checkpoint hands out at once, and is no checkpoint
    // to collect.
    assert!(pool.collect_checkpoint(4).is_none());
    assert_eq!(pool.collect_at_stage(4).unwrap().len(), 1);
    assert!(pool.collect_at_stage(4).is_none());

    pool.add(make_sample("c", 5));
    assert!(pool.checkpoint_ready(5));
    assert!(pool.count_at_stage(5) >= 3);
    let samples = pool.collect_at_stage(5).unwrap();
    let ids: Vec<&str> = samples.iter().map(|s| s.id.as_str()).collect();
    assert_eq!(ids, vec!["a", "b", "c"]);
    assert_eq!(pool.total_count(), 0);
}

#[test]
fn checkpoint_is_never_ready_for_an_empty_batch() {
    let mut pool = RegroupPool::default();
    pool.add_checkpoint(2);
    pool.add(make_sample("a", 2));
    assert!(!pool.checkpoint_ready(2));
    assert!(pool.collect_checkpoint(2).is_none());
    pool.clear_checkpoints();
    assert!(!pool.is_checkpoint(2));
    assert_eq!(pool.collect_at_stage(2).unwrap().len(), 1);
}

#[test]
fn regroup_leaves_no_sample_of_a_later_stage() {
    let mut pool = RegroupPool::new();
    pool.add_checkpoint(7);
    for (id, stage) in [("a", 7), ("b", 3), ("c", 5), ("d", 7), ("e", 5), ("f", 2)] {
        pool.add(make_sample(id, stage));
    }
    assert_eq!(pool.stages_with_samples(), vec![2, 3, 5, 7]);
    assert_eq!(pool.peek_at_stage(7).unwrap().len(), 2);
    assert!(pool.peek_at_stage(6).is_none());

    let harvest = pool.regroup(5);
    let ids: Vec<&str> = harvest.iter().map(|s| s.id.as_str()).collect();
    assert_eq!(ids, vec!["c", "e", "a", "d"]);
    assert_eq!(pool.stages_with_samples(), vec![2, 3]);
    assert_eq!(pool.total_count(), 2);
    assert!(pool.regroup(4).is_empty());
    assert_eq!(pool.regroup(0).len(), 2);
    assert!(pool.stages_with_samples().is_empty());
}

#[test]
fn pool_reset_keeps_the_checkpoints() {
    let mut pool = RegroupPool::with_expected_count(1);
    pool.add_checkpoint(1);
    pool.add(make_sample("a", 1));
    assert!(pool.checkpoint_ready(1));
    pool.clear();
    assert_eq!(pool.total_count(), 0);
    assert!(!pool.checkpoint_ready(1));
    pool.add(make_sample("a", 1));
    pool.reset();
    assert_eq!(pool.total_count(), 0);
    assert!(pool.is_checkpoint(1));
    pool.add(make_sample("b", 1));
    assert!(!pool.checkpoint_ready(1));
}

#[test]
fn items_leave_the_scheduler_in_order_of_stage_then_boost() {
    let registry: Arc<StageRegistry<FindPeakStage>> = Arc::new(StageRegistry::new());
    let mut scheduler = PriorityScheduler::new(registry);
    assert!(scheduler.is_empty());
    assert!(scheduler.peek().is_none());
    assert!(scheduler.pop().is_none());

    scheduler.enqueue_all(vec![
        make_item("a", 4),
        make_item("b", 2).with_priority(-1),
        make_item("c", 9),
        make_item("d", 2).with_priority(5),
        make_item("e", 4).with_priority(1),
        make_item("f", 0),
        make_item("g", 2),
    ]);
    assert_eq!(scheduler.len(), 7);
    assert_eq!(scheduler.total_enqueued(), 7);
    assert_eq!(scheduler.peek().unwrap().sample.id, "f");

    let mut order = Vec::new();
    let mut stages = Vec::new();
    while let Some(item) = scheduler.pop() {
        stages.push(item.sample.stage_num);
        order.push(item.sample.id);
    }
    assert_eq!(order, vec!["f", "d", "g", "b", "e", "a", "c"]);
    assert!(stages.windows(2).all(|w| w[0] <= w[1]));
    assert_eq!(scheduler.total_processed(), 0);
    scheduler.reset_stats();
    assert_eq!(scheduler.total_enqueued(), 0);
}

#[test]
fn work_items_compare_by_stage_and_boost_alone() {
    let a = make_item("a", 3);
    let b = make_item("b", 3);
    assert!(a == b);
    assert!(!(a > b) && !(a < b));
    let boosted = make_item("a", 3).with_priority(1);
    assert!(boosted > a);
    assert!(a < boosted);
    assert!(boosted != a);
    assert!(boosted.runs_before(&a));
    assert!(!a.runs_before(&b));
    let copy = boosted.clone();
    assert_eq!(copy.priority_boost, 1);
    assert_eq!(copy.sample.id, "a");
}

#[test]
fn scheduler_drops_an_item_without_a_handler() {
    let mut scheduler = PriorityScheduler::new(Arc::new(find_only_registry()));
    let mut orphan = make_item("orphan", 0);
    orphan.stage_id = StageId::Phase;
    scheduler.enqueue(orphan);
    scheduler.enqueue(make_item("kept", 1));
    assert!(scheduler.process_next().is_none());
    assert_eq!(scheduler.len(), 1);
    assert_eq!(scheduler.total_processed(), 0);

    let result = scheduler.process_next().unwrap();
    assert_eq!(result.sample.id, "kept");
    assert_eq!(result.sample.stage_num, 2);
    assert_eq!(scheduler.total_processed(), 1);
    assert!(scheduler.process_next().is_none());

    scheduler.enqueue(make_item("full", u32::MAX));
    assert!(scheduler.process_next().is_none());
    assert!(scheduler.is_empty());
    scheduler.enqueue(make_item("x", 1));
    scheduler.clear();
    assert!(scheduler.is_empty());
}

#[test]
fn auto_enqueue_puts_in_what_the_closure_admits() {
    let mut scheduler = PriorityScheduler::new(Arc::new(pipeline_registry()));
    scheduler.enqueue(WorkItem::new(three_peaks("s"), FlowMetadata::new("s"), StageId::FindPeak));
    let (sample, metadata) = scheduler.process_next_auto_enqueue(|_| true).unwrap();
    assert_eq!(sample.stage_num, 1);
    assert_eq!(metadata.current_peak, Some(50));
    assert_eq!(scheduler.len(), 1);
    assert_eq!(scheduler.peek().unwrap().stage_id, StageId::ProcessPeak);
    assert_eq!(scheduler.peek().unwrap().sample.stage_num, 1);
    assert_eq!(scheduler.peek().unwrap().metadata.current_peak, Some(50));

    let (sample, _) = scheduler.process_next_auto_enqueue(|_| false).unwrap();
    assert_eq!(sample.stage_num, 2);
    assert!(scheduler.is_empty());
    assert!(scheduler.process_next_auto_enqueue(|_| true).is_none());
    assert_eq!(scheduler.total_enqueued(), 2);
    assert_eq!(scheduler.total_processed(), 2);
}

#[test]
fn admitted_requests_become_work_items() {
    let mut scheduler = PriorityScheduler::new(Arc::new(find_only_registry()));
    let mut policy = SaturationPolicy::new(2);
    let sample = make_sample("s", 4);
    let requests = vec![
        StageRequest::new(StageId::Cut, FlowMetadata::new("s")),
        StageRequest::new(StageId::Filter, FlowMetadata::new("s")),
        StageRequest::new(StageId::Phase, FlowMetadata::new("s")),
    ];
    scheduler.enqueue_admitted(&mut policy, &sample, &requests);
    assert_eq!(scheduler.len(), 2);
    assert_eq!(scheduler.pop().unwrap().stage_id, StageId::Cut);
    let second = scheduler.pop().unwrap();
    assert_eq!(second.stage_id, StageId::Filter);
    assert_eq!(second.sample.stage_num, 4);
    assert_eq!(second.priority_boost, 0);
    assert!(!policy.should_insert(&requests[0]));
}

#[test]
fn flat_sample_completes_after_one_stage() {
    let mut runtime = Runtime::new(config(), find_only_registry(), AlwaysInsertPolicy);
    runtime.add_sample(flat("flat"));
    assert_eq!(runtime.pending_count(), 1);
    runtime.run_sync();
    assert_eq!(runtime.pending_count(), 0);
    assert_eq!(runtime.completed_count(), 1);
    let done = runtime.take_completed();
    assert_eq!(done.len(), 1);
    assert_eq!(done[0].stage_num, 1);
    assert!(done[0].metadata.processed_peaks.is_empty());
    assert_eq!(runtime.completed_count(), 0);
}

#[test]
fn three_separated_peaks_take_three_cycles() {
    let mut runtime = Runtime::new(config(), pipeline_registry(), AlwaysInsertPolicy);
    runtime.add_samples(vec![three_peaks("s"), flat("flat")]);
    runtime.seed();
    assert_eq!(runtime.pending_count(), 2);

    // Both samples start at stage 0; the scheduler runs the peak finder on
    // each before any sample goes on.
    assert_eq!(runtime.step(), StepOutcome::Advanced);
    assert_eq!(runtime.step(), StepOutcome::Finished);
    let (steps, stopped) = runtime.drive(usize::MAX);
    assert_eq!(stopped, Some(StepOutcome::Idle));
    assert_eq!(steps, 6);
    assert_eq!(runtime.completed_count(), 2);

    let done = runtime.regroup(7, usize::MAX);
    assert_eq!(done.len(), 1);
    let sample = &done[0];
    assert_eq!(sample.id, "s");
    assert_eq!(sample.stage_num, 7);
    assert_eq!(sample.metadata.processed_peaks.len(), 3);
    assert_eq!(sample.metadata.processed_peaks.get(&50), Some(&fx(3.0)));
    assert_eq!(sample.metadata.processed_peaks.get(&20), Some(&fx(2.0)));
    assert_eq!(sample.metadata.processed_peaks.get(&80), Some(&fx(1.5)));
    assert!(sample.metadata.unprocessed_peaks.is_empty());
    assert_eq!(sample.metadata.current_peak, None);
    assert_eq!(sample.get_intensity(50), Some(0));
    assert_eq!(runtime.completed_count(), 1);
}

#[test]
fn never_insert_makes_a_single_stage_pass() {
    let mut runtime = Runtime::new(config(), pipeline_registry(), NeverInsertPolicy);
    runtime.add_sample(three_peaks("s"));
    runtime.run_sync();
    assert_eq!(runtime.pending_count(), 0);
    // The result asked for more, so the sample is in the regroup pool and
    // not among the completed ones.
    assert_eq!(runtime.completed_count(), 0);
    let harvest = runtime.regroup(1, 10);
    assert_eq!(harvest.len(), 1);
    assert_eq!(harvest[0].stage_num, 1);
    assert_eq!(harvest[0].metadata.current_peak, Some(50));
}

#[test]
fn regroup_harvests_pool_and_completed_and_returns_the_overflow() {
    let mut runtime = Runtime::new(config(), pipeline_registry(), AlwaysInsertPolicy);
    runtime.add_samples(vec![three_peaks("a"), three_peaks("b"), flat("c")]);
    runtime.run_sync();
    assert_eq!(runtime.completed_count(), 3);

    // Each of "a" and "b" left a snapshot in the pool at the stages 1 to 6.
    let harvest = runtime.regroup(6, 1);
    assert_eq!(harvest.len(), 1);
    assert_eq!(harvest[0].stage_num, 6);
    // The second snapshot of stage 6 and the two completed samples of stage
    // 7 did not fit and are completed now, behind "c".
    assert_eq!(runtime.completed_count(), 4);

    let rest = runtime.regroup(6, usize::MAX);
    let stages: Vec<u32> = rest.iter().map(|s| s.stage_num).collect();
    assert_eq!(stages, vec![6, 7, 7]);
    assert_eq!(runtime.completed_count(), 1);
    assert!(runtime.regroup(6, usize::MAX).is_empty());

    let early = runtime.regroup(0, usize::MAX);
    assert_eq!(early.len(), 11);
    assert!(early.iter().all(|s| s.stage_num < 6));
    assert_eq!(early.last().unwrap().id, "c");
    assert_eq!(runtime.completed_count(), 0);
    assert!(runtime.regroup(0, usize::MAX).is_empty());
}

#[test]
fn regroup_with_no_room_returns_nothing() {
    let mut runtime = Runtime::new(config(), find_only_registry(), AlwaysInsertPolicy);
    runtime.add_sample(flat("a"));
    runtime.run_sync();
    assert!(runtime.regroup(0, 0).is_empty());
    assert_eq!(runtime.completed_count(), 1);
}

#[test]
fn run_stops_at_an_item_without_a_handler() {
    let mut runtime = Runtime::new(config(), find_only_registry(), AlwaysInsertPolicy);
    runtime.add_samples(vec![three_peaks("a"), flat("b")]);
    runtime.set_seed_stage(StageId::FindPeak);
    runtime.run_sync();
    // "a" asked for the peak processor, which has no handler here: its item
    // was dropped and the run stopped.
    assert_eq!(runtime.completed_count(), 1);
    assert_eq!(runtime.pending_count(), 0);
    assert_eq!(runtime.step(), StepOutcome::Idle);

    let mut unseeded = Runtime::new(config(), find_only_registry(), AlwaysInsertPolicy);
    unseeded.set_seed_stage(StageId::Background);
    unseeded.add_samples(vec![flat("a"), flat("b")]);
    unseeded.run_sync();
    assert_eq!(unseeded.completed_count(), 0);
    assert_eq!(unseeded.pending_count(), 1);
    assert_eq!(unseeded.step(), StepOutcome::Dropped);
    assert_eq!(unseeded.step(), StepOutcome::Idle);
}

#[test]
fn cancelled_runtime_does_no_step_until_the_next_run() {
    let mut runtime = Runtime::new(config(), pipeline_registry(), AlwaysInsertPolicy);
    runtime.add_sample(three_peaks("a"));
    runtime.seed();
    assert_eq!(runtime.step(), StepOutcome::Advanced);
    runtime.cancel();
    assert!(runtime.is_cancelled());
    assert_eq!(runtime.step(), StepOutcome::Cancelled);
    assert_eq!(runtime.drive(10), (0, Some(StepOutcome::Cancelled)));
    assert_eq!(runtime.pending_count(), 1);
    runtime.run_sync();
    assert!(!runtime.is_cancelled());
    assert_eq!(runtime.completed_count(), 1);
}

#[test]
fn drive_stops_when_the_steps_are_used_up() {
    let mut runtime = Runtime::new(config(), pipeline_registry(), AlwaysInsertPolicy);
    runtime.add_sample(three_peaks("a"));
    runtime.seed();
    assert_eq!(runtime.drive(0), (0, None));
    assert_eq!(runtime.drive(3), (3, None));
    assert_eq!(runtime.pending_count(), 1);
    assert_eq!(runtime.drive(100), (4, Some(StepOutcome::Idle)));
}

#[test]
fn checkpoints_of_the_runtime_reach_the_pool() {
    let mut runtime = Runtime::new(config(), pipeline_registry(), SaturationPolicy::new(1));
    runtime.set_checkpoints(&[1]);
    runtime.add_samples(vec![three_peaks("a"), three_peaks("b")]);
    runtime.run_sync();
    // One request was admitted: "a" ran two stages, "b" one.
    assert_eq!(runtime.completed_count(), 0);
    let harvest = runtime.regroup(1, usize::MAX);
    let mut found: Vec<(String, u32)> = harvest.iter().map(|s| (s.id.clone(), s.stage_num)).collect();
    found.sort();
    assert_eq!(found, vec![("a".to_string(), 1), ("a".to_string(), 2), ("b".to_string(), 1)]);
    runtime.clear_checkpoints();
    runtime.set_insertion_policy(SaturationPolicy::new(0));
    runtime.add_sample(three_peaks("c"));
    runtime.run_sync();
    assert_eq!(runtime.regroup(0, usize::MAX).len(), 1);
}

#[test]
fn reset_forgets_the_batch() {
    let mut runtime = Runtime::new(config(), pipeline_registry(), SaturationPolicy::new(1));
    runtime.add_samples(vec![three_peaks("a"), flat("b")]);
    runtime.run_sync();
    runtime.add_sample(flat("c"));
    runtime.cancel();
    runtime.reset();
    assert!(!runtime.is_cancelled());
    assert_eq!(runtime.pending_count(), 0);
    assert_eq!(runtime.completed_count(), 0);
    assert!(runtime.regroup(0, usize::MAX).is_empty());
    // The policy counts from zero again.
    runtime.add_sample(three_peaks("d"));
    runtime.run_sync();
    let harvest = runtime.regroup(2, usize::MAX);
    assert_eq!(harvest.len(), 1);
    assert_eq!(runtime.config().worker_count, 1);
}

#[test]
fn zero_in_the_raw_settings_means_detect_and_unlimited() {
    let raw = CRuntimeConfig::default();
    assert_eq!(raw.worker_count, 0);
    assert_eq!(raw.max_stages, 0);
    let detected = RuntimeConfig::resolve(raw, 6);
    assert_eq!(detected.worker_count, 6);
    assert_eq!(detected.max_stages, None);
    let given = RuntimeConfig::resolve(CRuntimeConfig { worker_count: 3, max_stages: 12 }, 6);
    assert_eq!(given.worker_count, 3);
    assert_eq!(given.max_stages, Some(12));
    assert_eq!(RuntimeConfig::from_raw(CRuntimeConfig { worker_count: 2, max_stages: 0 }).worker_count, 2);
    assert_eq!(RuntimeConfig::default().max_stages, None);
    assert_eq!(
        RuntimeConfig::default().worker_count,
        RuntimeConfig::from_raw(CRuntimeConfig::default()).worker_count
    );
}

#[test]
fn status_codes() {
    let all = [
        SaxsStatus::Success,
        SaxsStatus::NullPointer,
        SaxsStatus::InvalidArgument,
        SaxsStatus::LengthMismatch,
        SaxsStatus::InvalidUtf8,
        SaxsStatus::RuntimeError,
        SaxsStatus::Cancelled,
        SaxsStatus::NotFound,
    ];
    for (code, status) in all.iter().enumerate() {
        assert_eq!(status.code(), code as u32);
        assert_eq!(SaxsStatus::from_code(code as u32), Some(*status));
    }
    assert_eq!(SaxsStatus::from_code(8), None);
}
