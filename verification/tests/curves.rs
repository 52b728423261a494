use std::path::PathBuf;

use pulseon_viewer::curves::{
    is_drawable, matching_run_ref, overview_viewport, storage_axis, storage_viewport,
    widen_real_bounds, AlignmentAxis,
};
use pulseon_viewer::ids::{DataSourceId, ProjectId, RunId, RunRef};
use pulseon_viewer::inspector::EvidenceCompleteness;
use pulseon_viewer::model::{AlignmentViewport, CurveAxis};

fn viewport(start: i64, end: i64) -> AlignmentViewport {
    AlignmentViewport::new(start, end).expect("test viewport should be ordered")
}

fn run(source: &str, project: &str, id: &str) -> RunRef {
    RunRef::new(
        DataSourceId::from_string(source.to_string()),
        ProjectId::from_string(project.to_string()),
        RunId::from_string(id.to_string()),
    )
}

#[test]
fn overview_covers_the_full_non_negative_axis() {
    let step = overview_viewport(CurveAxis::Step);
    assert_eq!((step.start(), step.end()), (0, i64::MAX));
    let time = overview_viewport(CurveAxis::AbsoluteTime);
    assert_eq!((time.start(), time.end()), (0, i64::MAX));
}

#[test]
fn absolute_time_is_read_as_elapsed_time_since_the_run_started() {
    assert_eq!(storage_axis(CurveAxis::Step), AlignmentAxis::Step);
    assert_eq!(storage_axis(CurveAxis::AbsoluteTime), AlignmentAxis::ElapsedTime);

    let steps = storage_viewport(CurveAxis::Step, viewport(10, 20), 5_000);
    assert_eq!((steps.start(), steps.end()), (10, 20));

    let shifted = storage_viewport(CurveAxis::AbsoluteTime, viewport(4_000, 9_500), 5_000);
    assert_eq!((shifted.start(), shifted.end()), (0, 4_500));

    let wide = storage_viewport(CurveAxis::AbsoluteTime, viewport(i64::MIN, i64::MAX), -10);
    assert_eq!((wide.start(), wide.end()), (0, i64::MAX));
}

#[test]
fn only_complete_and_partial_evidence_is_drawn() {
    assert!(is_drawable(EvidenceCompleteness::Complete));
    assert!(is_drawable(EvidenceCompleteness::Partial));
    assert!(!is_drawable(EvidenceCompleteness::Unavailable));
    assert!(!is_drawable(EvidenceCompleteness::Invalid));
}

#[test]
fn stored_runs_answer_the_first_matching_selected_run() {
    let runs = vec![run("a", "p", "r1"), run("b", "p", "r1"), run("b", "p", "r1")];
    let source = DataSourceId::from_string("b".to_string());
    let project = ProjectId::from_string("p".to_string());
    assert_eq!(
        matching_run_ref(&runs, &source, &project, &RunId::from_string("r1".to_string())),
        Some(1)
    );
    assert_eq!(
        matching_run_ref(&runs, &source, &project, &RunId::from_string("r2".to_string())),
        None
    );
}

#[test]
fn real_bounds_grow_by_values_inside_the_viewport_only() {
    let values = vec![5, -3, 12, 7, 40];
    assert_eq!(widen_real_bounds(None, &values, viewport(0, 20)), Some((5, 12)));
    assert_eq!(widen_real_bounds(Some((6, 6)), &values, viewport(0, 6)), Some((5, 6)));
    assert_eq!(widen_real_bounds(Some((1, 2)), &values, viewport(100, 200)), Some((1, 2)));
    assert_eq!(widen_real_bounds(None, &Vec::new(), viewport(0, 1)), None);
}

#[test]
fn a_source_id_is_the_text_of_its_path() {
    let id = DataSourceId::from_path(&PathBuf::from("/data/runs"));
    assert_eq!(id.as_str(), "/data/runs");
}
