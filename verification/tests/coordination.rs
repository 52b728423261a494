use pulseon_viewer::coordination::{
    AnalysisViewId, MetricPanelId, PanelCoordinationError, PanelReadCoordinator,
    PanelReadOutcome, PanelReadRequest, PanelReadTag,
};
use pulseon_viewer::coordination::{merge_panel_read, union_range, PendingPanelRead};
use pulseon_viewer::ids::{DataSourceId, MetricKey, ProjectId, RunId, RunRef};
use pulseon_viewer::model::{
    AlignmentViewport, CurveAxis, CurveSeriesSnapshot, CurveSnapshot, Generation, ReadEvent,
    ReadKind, ReadRequest, ReadSnapshot,
};

type Event = ReadEvent<(), String, ()>;

fn run_ref(source: &str, run: &str) -> RunRef {
    RunRef::new(
        DataSourceId::from_string(source.to_string()),
        ProjectId::from_string("project".to_string()),
        RunId::from_string(run.to_string()),
    )
}

fn tag(generation: u64) -> PanelReadTag {
    PanelReadTag {
        view_id: AnalysisViewId::from_string("view".to_string()),
        panel_id: MetricPanelId::from_string("panel".to_string()),
        generation: Generation(generation),
    }
}

fn request(runs: Vec<RunRef>) -> PanelReadRequest {
    PanelReadRequest::Detail {
        runs,
        metric_key: MetricKey::from_string("loss".to_string()),
        axis: CurveAxis::Step,
        viewport: AlignmentViewport::new(0, 10).expect("test viewport should be valid"),
        physical_width: 1_000,
    }
}

fn snapshot(run_ref: RunRef) -> CurveSnapshot<String> {
    CurveSnapshot {
        viewport: AlignmentViewport::new(0, 10).expect("test viewport should be valid"),
        point_budget: 2_000,
        real_range: Some(AlignmentViewport::new(1, 2).expect("test real range should be valid")),
        series: vec![CurveSeriesSnapshot { data: run_ref.cache_key(), run_ref }],
    }
}

fn detail_event(
    source_id: DataSourceId,
    generation: u64,
    result: Result<CurveSnapshot<String>, String>,
) -> Event {
    ReadEvent {
        source_id,
        generation: Generation(generation),
        kind: ReadKind::Detail,
        result: result.map(ReadSnapshot::Detail),
    }
}

#[test]
fn panel_requests_are_partitioned_by_source_with_full_run_references() {
    let first = run_ref("source-a", "run-1");
    let second = run_ref("source-b", "run-1");
    let third = run_ref("source-a", "run-2");
    let mut coordinator = PanelReadCoordinator::<String>::default();

    let planned = coordinator
        .begin(tag(1), request(vec![first.clone(), second.clone(), third.clone()]))
        .expect("panel request should plan");

    assert_eq!(planned.len(), 2);
    let ReadRequest::Detail(first_source) = &planned[0].request else {
        panic!("expected a detail request");
    };
    assert_eq!(first_source.selection.runs, [first, third]);
    let ReadRequest::Detail(second_source) = &planned[1].request else {
        panic!("expected a detail request");
    };
    assert_eq!(second_source.selection.runs, [second]);
}

#[test]
fn source_failures_do_not_erase_other_sources_drawable_series() {
    let drawable = run_ref("source-a", "run-1");
    let failed = run_ref("source-b", "run-1");
    let mut coordinator = PanelReadCoordinator::<String>::default();
    coordinator
        .begin(tag(1), request(vec![drawable.clone(), failed.clone()]))
        .expect("panel request should plan");

    assert!(matches!(
        coordinator.apply(detail_event(drawable.source_id.clone(), 1, Ok(snapshot(drawable.clone())))),
        PanelReadOutcome::AcceptedPending
    ));
    let completed = coordinator.apply(detail_event(
        failed.source_id.clone(),
        1,
        Err("S3 data sources are not supported".to_string()),
    ));
    let PanelReadOutcome::Completed(completed) = completed else {
        panic!("all source responses should complete the panel read");
    };

    assert_eq!(
        completed
            .curves
            .expect("successful source should remain drawable")
            .series[0]
            .run_ref,
        drawable
    );
    assert_eq!(completed.source_errors[0].source_id, failed.source_id);
}

#[test]
fn superseded_and_inactive_view_results_are_ignored() {
    let run = run_ref("source", "run");
    let mut coordinator = PanelReadCoordinator::<String>::default();
    coordinator
        .begin(tag(1), request(vec![run.clone()]))
        .expect("first request should plan");
    coordinator
        .begin(tag(2), request(vec![run.clone()]))
        .expect("replacement request should plan");

    assert!(matches!(
        coordinator.apply(detail_event(run.source_id.clone(), 1, Ok(snapshot(run.clone())))),
        PanelReadOutcome::IgnoredStale
    ));
    coordinator.deactivate_view(&AnalysisViewId::from_string("view".to_string()));
    assert!(matches!(
        coordinator.apply(detail_event(run.source_id.clone(), 2, Ok(snapshot(run)))),
        PanelReadOutcome::IgnoredStale
    ));
}

#[test]
fn empty_and_duplicate_reads_are_refused() {
    let mut coordinator = PanelReadCoordinator::<String>::default();
    assert_eq!(
        coordinator.begin(tag(1), request(Vec::new())).err(),
        Some(PanelCoordinationError::EmptySelection)
    );
    coordinator.begin(tag(1), request(vec![run_ref("s", "r")])).expect("first read should plan");
    let other_panel = PanelReadTag {
        view_id: AnalysisViewId::from_string("view".to_string()),
        panel_id: MetricPanelId::from_string("other".to_string()),
        generation: Generation(1),
    };
    assert_eq!(
        coordinator.begin(other_panel, request(vec![run_ref("s", "r")])).err(),
        Some(PanelCoordinationError::DuplicateGeneration(Generation(1)))
    );
    assert_eq!(PanelCoordinationError::EmptySelection.message(), "panel read selection is empty");
}

#[test]
fn repeated_unknown_and_wrong_kind_answers() {
    let a = run_ref("a", "r1");
    let b = run_ref("b", "r2");
    let mut coordinator = PanelReadCoordinator::<String>::default();
    coordinator.begin(tag(5), request(vec![a.clone(), b.clone()])).expect("read should plan");
    assert!(matches!(
        coordinator.apply(detail_event(DataSourceId::from_string("c".to_string()), 5, Ok(snapshot(a.clone())))),
        PanelReadOutcome::IgnoredStale
    ));
    assert!(matches!(
        coordinator.apply(detail_event(a.source_id.clone(), 5, Ok(snapshot(a.clone())))),
        PanelReadOutcome::AcceptedPending
    ));
    assert!(matches!(
        coordinator.apply(detail_event(a.source_id.clone(), 5, Ok(snapshot(a.clone())))),
        PanelReadOutcome::IgnoredStale
    ));
    let catalog: Event = ReadEvent {
        source_id: b.source_id.clone(),
        generation: Generation(5),
        kind: ReadKind::Detail,
        result: Ok(ReadSnapshot::Catalog(())),
    };
    let PanelReadOutcome::Completed(done) = coordinator.apply(catalog) else {
        panic!("the last source should complete the read");
    };
    assert_eq!(done.source_errors.len(), 1);
    assert_eq!(done.source_errors[0].message, "panel read returned a catalog snapshot");
    let curves = done.curves.expect("source a answered");
    assert_eq!(curves.series.len(), 1);
    assert_eq!(curves.series[0].run_ref, a);
    assert_eq!(curves.point_budget, 2_000);
}

#[test]
fn merged_curves_follow_panel_run_order_and_union_ranges() {
    let a = run_ref("a", "r1");
    let b = run_ref("b", "r2");
    let mut coordinator = PanelReadCoordinator::<String>::default();
    coordinator.begin(tag(9), request(vec![b.clone(), a.clone()])).expect("read should plan");
    let mut first = snapshot(a.clone());
    first.real_range = AlignmentViewport::new(5, 8);
    let mut second = snapshot(b.clone());
    second.real_range = AlignmentViewport::new(-3, 6);
    second.point_budget = 7;
    coordinator.apply(detail_event(a.source_id.clone(), 9, Ok(first)));
    let PanelReadOutcome::Completed(done) = coordinator.apply(detail_event(b.source_id.clone(), 9, Ok(second))) else {
        panic!("both sources answered");
    };
    let curves = done.curves.expect("both sources succeeded");
    assert_eq!(curves.series[0].run_ref, b);
    assert_eq!(curves.series[1].run_ref, a);
    assert_eq!(curves.point_budget, 7);
    let range = curves.real_range.expect("ranges were reported");
    assert_eq!((range.start(), range.end()), (-3, 8));
    assert!(done.source_errors.is_empty());
}

#[test]
fn union_range_covers_both_ranges() {
    let left = AlignmentViewport::new(1, 4);
    let right = AlignmentViewport::new(3, 9);
    let both = union_range(left, right).expect("union of ranges is a range");
    assert_eq!((both.start(), both.end()), (1, 9));
    assert!(union_range(None, None).is_none());
    assert_eq!(union_range(left, None).map(|r| (r.start(), r.end())), Some((1, 4)));
    assert!(AlignmentViewport::new(5, 4).is_none());
}

#[test]
fn merged_reads_keep_panel_run_order_and_report_failures_in_source_order() {
    let a1 = run_ref("source-a", "run-1");
    let b1 = run_ref("source-b", "run-1");
    let c1 = run_ref("source-c", "run-1");
    let a2 = run_ref("source-a", "run-2");
    let mut from_a = snapshot(a2.clone());
    from_a.series.push(CurveSeriesSnapshot { data: a1.cache_key(), run_ref: a1.clone() });
    let mut from_c = snapshot(c1.clone());
    from_c.viewport = AlignmentViewport::new(5, 6).expect("test viewport should be valid");
    from_c.real_range = Some(AlignmentViewport::new(-4, 1).expect("test real range should be valid"));
    let pending = PendingPanelRead {
        tag: tag(7),
        kind: ReadKind::Detail,
        run_order: vec![a1.clone(), b1.clone(), c1.clone(), a2.clone()],
        source_order: vec![
            DataSourceId::from_string("source-a".to_string()),
            DataSourceId::from_string("source-b".to_string()),
            DataSourceId::from_string("source-c".to_string()),
        ],
        responses: vec![Some(Ok(from_a)), Some(Err("locked".to_string())), Some(Ok(from_c))],
        received: 3,
    };
    let merged = merge_panel_read(pending);
    assert_eq!(merged.tag.generation, Generation(7));
    assert_eq!(merged.source_errors.len(), 1);
    assert_eq!(merged.source_errors[0].source_id.as_str(), "source-b");
    assert_eq!(merged.source_errors[0].message, "locked");
    let curves = merged.curves.expect("two sources succeeded");
    assert_eq!((curves.viewport.start(), curves.viewport.end()), (0, 10));
    let range = curves.real_range.expect("ranges were reported");
    assert_eq!((range.start(), range.end()), (-4, 2));
    let runs: Vec<&str> = curves
        .series
        .iter()
        .map(|series| series.run_ref.source_id.as_str())
        .collect();
    assert_eq!(runs, ["source-a", "source-c", "source-a"]);
    assert_eq!(curves.series[0].run_ref.run_id.as_str(), "run-1");
    assert_eq!(curves.series[2].run_ref.run_id.as_str(), "run-2");
}
