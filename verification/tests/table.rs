use std::cmp::Ordering;

use pulseon_viewer::ids::{DataSourceId, ProjectId, RunId, RunRef};
use pulseon_viewer::inspector::{
    EvidenceCompleteness, InspectorColumn, InspectorSort, InspectorSortDirection,
};
use pulseon_viewer::inspector_table::{
    compare_inspector_rows, compare_text, sort_inspector_rows, InspectorRow,
};
use pulseon_viewer::runs::RunStatus;
use pulseon_viewer::format::inspector_integer;
use pulseon_viewer::table_keys::float_key;

fn row(label: &str, order: usize, last_value: Option<f64>) -> InspectorRow {
    InspectorRow {
        run_ref: RunRef::new(
            DataSourceId::from_string("source".to_string()),
            ProjectId::from_string("project".to_string()),
            RunId::from_string(label.to_string()),
        ),
        run_label: label.to_string(),
        project_label: "project · source".to_string(),
        status: RunStatus::Finished,
        evidence: EvidenceCompleteness::Complete,
        evidence_label: "Complete".to_string(),
        count: None,
        last_step: None,
        last_value: last_value.map(f64::to_bits),
        minimum: None,
        maximum: None,
        locked: None,
        hover: None,
        baseline: false,
        pinned: false,
        original_order: order,
    }
}

fn labels(rows: &[InspectorRow]) -> Vec<&str> {
    rows.iter().map(|row| row.run_label.as_str()).collect()
}

fn sort(column: InspectorColumn, direction: InspectorSortDirection) -> Option<InspectorSort> {
    Some(InspectorSort { column, direction })
}

#[test]
fn unsorted_table_keeps_snapshot_order_after_baseline_and_pinned_rows() {
    let mut rows = vec![row("a", 0, None), row("b", 1, None), row("c", 2, None), row("d", 3, None)];
    rows[2].pinned = true;
    rows[3].baseline = true;
    rows[1].pinned = true;
    sort_inspector_rows(&mut rows, None);
    assert_eq!(labels(&rows), ["d", "b", "c", "a"]);
}

#[test]
fn descending_values_keep_missing_cells_last() {
    let mut rows = vec![
        row("a", 0, Some(1.5)),
        row("b", 1, None),
        row("c", 2, Some(-2.0)),
        row("d", 3, Some(10.0)),
    ];
    sort_inspector_rows(&mut rows, sort(InspectorColumn::LastValue, InspectorSortDirection::Descending));
    assert_eq!(labels(&rows), ["d", "a", "c", "b"]);
    sort_inspector_rows(&mut rows, sort(InspectorColumn::LastValue, InspectorSortDirection::Ascending));
    assert_eq!(labels(&rows), ["c", "a", "d", "b"]);
}

#[test]
fn float_keys_follow_the_total_order_of_values() {
    let values = [f64::NEG_INFINITY, -3.5, -0.0, 0.0, 1e-300, 2.0, f64::INFINITY];
    for pair in values.windows(2) {
        assert!(float_key(Some(pair[0].to_bits())) < float_key(Some(pair[1].to_bits())));
        assert_eq!(pair[0].total_cmp(&pair[1]), Ordering::Less);
    }
}

#[test]
fn run_labels_sort_by_text_and_equal_cells_fall_back_to_snapshot_order() {
    let mut rows = vec![row("b", 0, None), row("a", 1, None), row("b", 2, None), row("ab", 3, None)];
    rows[0].run_label = "b".to_string();
    sort_inspector_rows(&mut rows, sort(InspectorColumn::Run, InspectorSortDirection::Ascending));
    assert_eq!(labels(&rows), ["a", "ab", "b", "b"]);
    assert_eq!(rows[2].original_order, 0);
    assert_eq!(rows[3].original_order, 2);
}

#[test]
fn status_and_count_columns_order_by_rank_and_value() {
    let mut rows = vec![row("a", 0, None), row("b", 1, None), row("c", 2, None)];
    rows[0].status = RunStatus::Failed;
    rows[1].status = RunStatus::Running;
    rows[2].status = RunStatus::Finished;
    assert_eq!(
        compare_inspector_rows(
            InspectorSort { column: InspectorColumn::Status, direction: InspectorSortDirection::Ascending },
            &rows[1],
            &rows[0],
        ),
        Ordering::Less
    );
    sort_inspector_rows(&mut rows, sort(InspectorColumn::Status, InspectorSortDirection::Descending));
    assert_eq!(labels(&rows), ["a", "c", "b"]);

    let mut rows = vec![row("a", 0, None), row("b", 1, None), row("c", 2, None)];
    rows[0].count = Some(7);
    rows[2].count = Some(3);
    sort_inspector_rows(&mut rows, sort(InspectorColumn::Count, InspectorSortDirection::Ascending));
    assert_eq!(labels(&rows), ["c", "a", "b"]);
}

#[test]
fn text_comparison_is_character_order() {
    assert_eq!(compare_text("abc", "abd"), Ordering::Less);
    assert_eq!(compare_text("ab", "abc"), Ordering::Less);
    assert_eq!(compare_text("é", "z"), Ordering::Greater);
    assert_eq!(compare_text("界", "界"), Ordering::Equal);
    assert_eq!(compare_text("é", "z"), "é".cmp("z"));
}

#[test]
fn inspector_sort_preserves_roles_and_cycles_numeric_order() {
    assert!(!InspectorColumn::Run.has_left_border());
    assert!(!InspectorColumn::LastValue.has_left_border());
    assert!(InspectorColumn::Minimum.has_left_border());

    let make_row = |run: &str, value: Option<f64>, baseline: bool, pinned: bool, order| {
        let bits = value.map(f64::to_bits);
        InspectorRow {
            run_ref: RunRef::new(
                DataSourceId::from_string("source".to_string()),
                ProjectId::from_string("project".to_string()),
                RunId::from_string(run.to_string()),
            ),
            run_label: run.to_owned(),
            project_label: "project · source".to_owned(),
            status: RunStatus::Finished,
            evidence: EvidenceCompleteness::Complete,
            evidence_label: "Complete".to_owned(),
            count: Some(1),
            last_step: Some(1),
            last_value: bits,
            minimum: bits,
            maximum: bits,
            locked: bits.map(|bits| (1, bits)),
            hover: bits.map(|bits| (1, bits)),
            baseline,
            pinned,
            original_order: order,
        }
    };
    let mut rows = vec![
        make_row("run-3", Some(3.), false, false, 0),
        make_row("baseline", Some(2.), true, false, 1),
        make_row("pinned", Some(4.), false, true, 2),
        make_row("run-1", Some(1.), false, false, 3),
        make_row("missing", None, false, false, 4),
    ];

    sort_inspector_rows(
        &mut rows,
        Some(InspectorSort {
            column: InspectorColumn::Minimum,
            direction: InspectorSortDirection::Ascending,
        }),
    );
    assert_eq!(labels(&rows), ["baseline", "pinned", "run-1", "run-3", "missing"]);
    sort_inspector_rows(
        &mut rows,
        Some(InspectorSort {
            column: InspectorColumn::Minimum,
            direction: InspectorSortDirection::Descending,
        }),
    );
    assert_eq!(labels(&rows), ["baseline", "pinned", "run-3", "run-1", "missing"]);
    assert_eq!(inspector_integer(Some(20_512), Some(20_741), false), "20,512 (−229)");
    let candidate = rows.iter().find(|row| !row.baseline).expect("candidate row");
    assert_eq!(inspector_integer(candidate.count.map(i128::from), None, true), "1");
    assert_eq!(inspector_integer(candidate.last_step.map(i128::from), None, true), "1");
}
