use saxsrs::data::{FlowMetadata, Peak, Sample, SCALE};
use saxsrs::stage::find_peak::{filter_by_distance, FindPeakConfig, FindPeakStage};
use saxsrs::stage::process_peak::{ProcessPeakConfig, ProcessPeakStage};
use saxsrs::stage::{Stage, StageId, StageRegistry, StageRequest, StageResult};

fn fx(value: f64) -> i64 {
    (value * SCALE as f64).round() as i64
}

fn make_sample_with_peaks() -> Sample {
    let mut intensity = vec![fx(0.0); 100];
    intensity[20] = fx(2.0);
    intensity[50] = fx(3.0);
    intensity[80] = fx(1.5);

    Sample::new(
        "test",
        (0..100).map(|i| fx(i as f64 * 0.01)).collect(),
        intensity,
        vec![fx(0.1); 100],
    )
    .unwrap()
}

#[test]
fn test_find_peaks_stage() {
    let stage = FindPeakStage::new(FindPeakConfig {
        min_height: fx(1.0),
        min_prominence: fx(0.5),
        min_distance: 1,
    });

    let sample = make_sample_with_peaks();
    let metadata = FlowMetadata::new("test");

    let result = stage.process(sample, metadata);

    assert!(!result.requests.is_empty());
    assert_eq!(result.requests[0].stage_id, StageId::ProcessPeak);

    assert_eq!(result.requests[0].metadata.current_peak, Some(50));
}

#[test]
fn test_no_peaks_found() {
    let stage = FindPeakStage::new(FindPeakConfig {
        min_height: fx(10.0),
        min_prominence: fx(0.0),
        min_distance: 1,
    });

    let sample = make_sample_with_peaks();
    let metadata = FlowMetadata::new("test");

    let result = stage.process(sample, metadata);

    assert!(result.requests.is_empty());
}

#[test]
fn test_distance_filtering() {
    let peaks = vec![
        Peak::new(10, fx(2.0), fx(1.0)),
        Peak::new(12, fx(1.5), fx(1.0)),
        Peak::new(25, fx(3.0), fx(1.0)),
    ];

    let filtered = filter_by_distance(peaks, 5);

    assert_eq!(filtered.len(), 2);
    assert!(filtered.iter().any(|p| p.index == 10));
    assert!(filtered.iter().any(|p| p.index == 25));
}

#[test]
fn stage_names_are_lower_case() {
    assert_eq!(StageId::Background.name(), "background");
    assert_eq!(StageId::Cut.name(), "cut");
    assert_eq!(StageId::Filter.name(), "filter");
    assert_eq!(StageId::FindPeak.name(), "find_peak");
    assert_eq!(StageId::ProcessPeak.name(), "process_peak");
    assert_eq!(StageId::Phase.name(), "phase");
    assert_eq!(FindPeakStage::with_defaults().name(), "find_peak");
    assert_eq!(FindPeakStage::with_defaults().id(), StageId::FindPeak);
    assert_eq!(ProcessPeakStage::with_defaults().id(), StageId::ProcessPeak);
}

#[test]
fn default_thresholds() {
    let find = FindPeakConfig::default();
    assert_eq!(find.min_height, 500_000);
    assert_eq!(find.min_prominence, 300_000);
    assert_eq!(find.min_distance, 10);
    assert_eq!(FindPeakStage::default().config.min_distance, 10);
    let process = ProcessPeakConfig::default();
    assert_eq!(process.parabola_range, 5);
    assert_eq!(process.gaussian_range_multiplier, 3_000_000);
    assert_eq!(ProcessPeakStage::default().config.parabola_range, 5);
    assert_eq!(ProcessPeakStage::new(process).config.gaussian_range_multiplier, 3 * SCALE);
}

#[test]
fn distance_filter_keeps_the_higher_of_two_close_peaks() {
    let peaks = vec![Peak::new(10, 5, 1), Peak::new(13, 9, 1), Peak::new(16, 7, 1), Peak::new(40, 1, 1)];
    let kept = filter_by_distance(peaks, 4);
    assert_eq!(kept, vec![Peak::new(13, 9, 1), Peak::new(40, 1, 1)]);
}

#[test]
fn distance_filter_counts_a_gap_of_exactly_the_distance_as_far_enough() {
    let peaks = vec![Peak::new(10, 5, 1), Peak::new(14, 9, 1)];
    assert_eq!(filter_by_distance(peaks.clone(), 4), peaks);
    assert_eq!(filter_by_distance(peaks, 5), vec![Peak::new(14, 9, 1)]);
}

#[test]
fn distance_filter_prefers_the_earlier_of_equal_peaks() {
    let peaks = vec![Peak::new(10, 5, 1), Peak::new(11, 5, 2), Peak::new(12, 5, 3)];
    assert_eq!(filter_by_distance(peaks, 2), vec![Peak::new(10, 5, 1), Peak::new(12, 5, 3)]);
}

#[test]
fn distance_of_one_or_less_filters_nothing() {
    let peaks = vec![Peak::new(3, 5, 1), Peak::new(4, 9, 1), Peak::new(5, 7, 1)];
    assert_eq!(filter_by_distance(peaks.clone(), 1), peaks);
    assert_eq!(filter_by_distance(peaks.clone(), 0), peaks);
    assert!(filter_by_distance(Vec::new(), 3).is_empty());

    let intensity: Vec<i64> = vec![0, 5, 0, 9, 0, 7, 0];
    for distance in [0usize, 1] {
        let stage = FindPeakStage::new(FindPeakConfig {
            min_height: 1,
            min_prominence: 0,
            min_distance: distance,
        });
        let found: Vec<usize> = stage.detect(&intensity).iter().map(|p| p.index).collect();
        assert_eq!(found, vec![1, 3, 5]);
    }
    let spaced = FindPeakStage::new(FindPeakConfig { min_height: 1, min_prominence: 0, min_distance: 3 });
    let found: Vec<usize> = spaced.detect(&intensity).iter().map(|p| p.index).collect();
    assert_eq!(found, vec![3]);
}

#[test]
fn find_peak_books_the_waiting_peaks() {
    let stage = FindPeakStage::new(FindPeakConfig {
        min_height: fx(1.0),
        min_prominence: fx(0.5),
        min_distance: 1,
    });
    let mut metadata = FlowMetadata::new("test");
    metadata.processed_peaks.insert(50, fx(3.0));
    let result = stage.process(make_sample_with_peaks(), metadata);

    assert_eq!(result.sample.stage_num, 1);
    assert_eq!(result.sample.id, "test");
    assert_eq!(result.requests.len(), 1);
    assert_eq!(result.metadata.current_peak, Some(20));
    assert_eq!(result.metadata.unprocessed_peaks.len(), 1);
    assert_eq!(result.metadata.unprocessed_peaks.get(&80), Some(&fx(1.5)));
    assert!(!result.metadata.unprocessed_peaks.contains_key(&50));
    assert_eq!(result.sample.metadata.current_peak, Some(20));
    assert_eq!(result.sample.metadata.unprocessed_peaks.len(), 1);
    assert_eq!(result.sample.metadata.processed_peaks.get(&50), Some(&fx(3.0)));
    assert_eq!(result.requests[0].metadata.sample_id, "test");
    assert_eq!(result.requests[0].metadata.unprocessed_peaks.len(), 1);
}

#[test]
fn sample_without_peaks_ends_after_one_find_peak() {
    let sample = Sample::new(
        "flat",
        vec![fx(0.0), fx(0.1), fx(0.2)],
        vec![fx(0.0), fx(0.0), fx(0.0)],
        vec![fx(1.0), fx(1.0), fx(1.0)],
    )
    .unwrap();
    let result = FindPeakStage::with_defaults().process(sample, FlowMetadata::new("flat"));
    assert!(result.requests.is_empty());
    assert_eq!(result.sample.stage_num, 1);
    assert!(result.metadata.processed_peaks.is_empty());
    assert!(result.metadata.unprocessed_peaks.is_empty());
    assert_eq!(result.metadata.current_peak, None);
}

#[test]
fn process_peak_skips_without_a_peak_in_work() {
    let stage = ProcessPeakStage::with_defaults();
    let sample = make_sample_with_peaks();
    let metadata = FlowMetadata::new("test");
    assert_eq!(stage.target(&sample, &metadata), None);
    let result = stage.skip(sample, metadata);
    assert!(result.requests.is_empty());
    assert_eq!(result.sample.stage_num, 0);
    assert_eq!(result.metadata.current_peak, None);

    let sample = make_sample_with_peaks();
    let mut metadata = FlowMetadata::new("test");
    metadata.current_peak = Some(100);
    metadata.unprocessed_peaks.insert(20, 7);
    assert_eq!(stage.target(&sample, &metadata), None);
    let result = stage.skip(sample, metadata);
    assert!(result.requests.is_empty());
    assert_eq!(result.sample.stage_num, 0);
    assert_eq!(result.metadata.current_peak, None);
    assert_eq!(result.metadata.unprocessed_peaks.get(&20), Some(&7));
}

#[test]
fn process_peak_books_a_fitted_peak() {
    let stage = ProcessPeakStage::with_defaults();
    let sample = make_sample_with_peaks();
    let mut metadata = FlowMetadata::new("test");
    metadata.current_peak = Some(50);
    metadata.unprocessed_peaks.insert(20, fx(2.0));
    assert_eq!(stage.target(&sample, &metadata), Some(50));

    let mut residual = sample.intensity.clone();
    residual[50] = 0;
    let result = stage.finish(sample, metadata, fx(3.0), residual);

    assert!(result.metadata.processed_peaks.contains_key(&50));
    assert_eq!(result.metadata.processed_peaks.get(&50), Some(&fx(3.0)));
    assert!(result.metadata.current_peak.is_none());
    assert_eq!(result.requests.len(), 1);
    assert_eq!(result.requests[0].stage_id, StageId::FindPeak);
    assert_eq!(result.requests[0].metadata.processed_peaks.get(&50), Some(&fx(3.0)));
    assert!(result.sample.get_intensity(50).unwrap() < fx(1.0));
    assert_eq!(result.sample.get_intensity(20), Some(fx(2.0)));
    assert_eq!(result.sample.stage_num, 1);
    assert_eq!(result.sample.metadata.processed_peaks.get(&50), Some(&fx(3.0)));
    assert_eq!(result.sample.metadata.unprocessed_peaks.get(&20), Some(&fx(2.0)));
}

#[test]
fn fit_window_is_cut_off_at_the_ends() {
    assert_eq!(ProcessPeakStage::fit_window(50, 5, 100), Some((45, 56)));
    assert_eq!(ProcessPeakStage::fit_window(2, 5, 100), Some((0, 8)));
    assert_eq!(ProcessPeakStage::fit_window(98, 5, 100), Some((93, 100)));
    assert_eq!(ProcessPeakStage::fit_window(0, 1, 100), None);
    assert_eq!(ProcessPeakStage::fit_window(1, 1, 100), Some((0, 3)));
    assert_eq!(ProcessPeakStage::fit_window(5, 0, 100), None);
    assert_eq!(ProcessPeakStage::fit_window(1, 5, 2), None);
    assert_eq!(ProcessPeakStage::fit_window(3, usize::MAX, 10), Some((0, 10)));
    assert_eq!(ProcessPeakStage::with_defaults().parabola_window(50, 100), Some((45, 56)));
    assert_eq!(ProcessPeakStage::with_defaults().parabola_window(0, 2), None);
}

#[test]
fn stage_counter_counts_the_stages_that_did_not_return_early() {
    let find = FindPeakStage::new(FindPeakConfig {
        min_height: fx(1.0),
        min_prominence: fx(0.5),
        min_distance: 1,
    });
    let process = ProcessPeakStage::with_defaults();

    let first = find.process(make_sample_with_peaks(), FlowMetadata::new("test"));
    assert_eq!(first.sample.stage_num, 1);
    let peak = process.target(&first.sample, &first.metadata).unwrap();
    let mut residual = first.sample.intensity.clone();
    residual[peak] = 0;
    let second = process.finish(first.sample, first.metadata, fx(3.0), residual);
    assert_eq!(second.sample.stage_num, 2);
    let third = process.skip(second.sample, second.metadata);
    assert_eq!(third.sample.stage_num, 2);
    let fourth = find.process(third.sample, third.metadata);
    assert_eq!(fourth.sample.stage_num, 3);
    assert_eq!(fourth.metadata.current_peak, Some(20));
}

#[test]
fn results_and_requests_carry_what_they_are_given() {
    let sample = make_sample_with_peaks();
    let request = StageRequest::new(StageId::Cut, FlowMetadata::new("test"));
    let copy = request.clone();
    assert_eq!(copy.stage_id, StageId::Cut);
    assert_eq!(copy.metadata.sample_id, "test");
    let result = StageResult::with_requests(sample, FlowMetadata::new("test"), vec![request, copy]);
    assert_eq!(result.requests.len(), 2);
    let ended = StageResult::terminal(result.sample, result.metadata);
    assert!(ended.requests.is_empty());
    assert_eq!(ended.sample.id, "test");
}

#[test]
fn registry_maps_identifiers_to_handlers() {
    let mut registry: StageRegistry<FindPeakStage> = StageRegistry::new();
    assert!(!registry.contains(StageId::FindPeak));
    assert!(registry.get(StageId::FindPeak).is_none());
    assert!(registry.stage_ids().is_empty());

    registry.register(FindPeakStage::with_defaults());
    assert!(registry.contains(StageId::FindPeak));
    assert!(!registry.contains(StageId::ProcessPeak));
    assert!(!registry.contains(StageId::Background));
    let stage = registry.get(StageId::FindPeak).unwrap();
    assert_eq!(stage.id(), StageId::FindPeak);
    assert_eq!(registry.stage_ids(), vec![StageId::FindPeak]);

    registry.register(FindPeakStage::new(FindPeakConfig {
        min_height: 7,
        min_prominence: 0,
        min_distance: 0,
    }));
    assert_eq!(registry.stage_ids().len(), 1);
    assert_eq!(registry.get(StageId::FindPeak).unwrap().config.min_height, 7);

    let removed = registry.remove(StageId::FindPeak).unwrap();
    assert_eq!(removed.config.min_height, 7);
    assert!(registry.remove(StageId::FindPeak).is_none());
    assert!(!registry.contains(StageId::FindPeak));

    registry.register_arc(std::sync::Arc::new(FindPeakStage::with_defaults()));
    assert_eq!(registry.get(StageId::FindPeak).unwrap().config.min_distance, 10);
    registry.clear();
    assert!(registry.stage_ids().is_empty());
    let empty: StageRegistry<FindPeakStage> = StageRegistry::default();
    assert!(!empty.contains(StageId::FindPeak));
}
