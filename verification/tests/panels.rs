use pulseon_viewer::inspector::{
    next_inspector_sort, InspectorColumn, InspectorSort, InspectorSortDirection,
};
use pulseon_viewer::coordination::SourceReadFailure;
use pulseon_viewer::ids::DataSourceId;
use pulseon_viewer::ids::{ProjectId, RunId, RunRef};
use pulseon_viewer::tracks::{
    callout_choice, initial_track_window, scheduled_tracks, scrolled_track_window,
    metric_row_metadata, source_failures_message, track_placeholder, unavailable_runs_message,
};

#[test]
fn metric_rows_describe_runs_errors_and_drawable_series() {
    assert_eq!(metric_row_metadata(3, 2, true, 1), "3 Runs · 2 source errors");
    assert_eq!(metric_row_metadata(3, 0, false, 0), "3 Runs · loading");
    assert_eq!(metric_row_metadata(12, 0, true, 10), "12 Runs · 10 drawable");
}

#[test]
fn tracks_without_detail_say_what_they_wait_for() {
    assert_eq!(track_placeholder(true, true), "Loading viewport…");
    assert_eq!(track_placeholder(false, true), "No drawable evidence is available for this metric.");
    assert_eq!(track_placeholder(false, false), "Loading metric extent…");
}

#[test]
fn header_clicks_sort_ascending_then_descending_then_not_at_all() {
    let ascending = next_inspector_sort(None, InspectorColumn::Count);
    assert_eq!(
        ascending,
        Some(InspectorSort { column: InspectorColumn::Count, direction: InspectorSortDirection::Ascending })
    );
    let descending = next_inspector_sort(ascending, InspectorColumn::Count);
    assert_eq!(
        descending,
        Some(InspectorSort { column: InspectorColumn::Count, direction: InspectorSortDirection::Descending })
    );
    assert_eq!(next_inspector_sort(descending, InspectorColumn::Count), None);
    assert_eq!(
        next_inspector_sort(descending, InspectorColumn::Run),
        Some(InspectorSort { column: InspectorColumn::Run, direction: InspectorSortDirection::Ascending })
    );
}

#[test]
fn read_errors_name_each_failed_source() {
    let failure = |source: &str, message: &str| SourceReadFailure {
        source_id: DataSourceId::from_string(source.to_string()),
        message: message.to_string(),
    };
    assert_eq!(source_failures_message(&Vec::new()), "");
    assert_eq!(source_failures_message(&vec![failure("/a", "locked")]), "/a: locked");
    assert_eq!(
        source_failures_message(&vec![failure("/a", "locked"), failure("/b", "missing")]),
        "/a: locked; /b: missing"
    );
    assert_eq!(
        unavailable_runs_message(2),
        "2 persisted Run selection(s) are no longer available"
    );
}

fn run(id: &str) -> RunRef {
    RunRef::new(
        DataSourceId::from_string("source".to_string()),
        ProjectId::from_string("project".to_string()),
        RunId::from_string(id.to_string()),
    )
}

#[test]
fn track_windows_show_a_screenful_and_prepare_one_more_on_each_side() {
    assert_eq!(initial_track_window(3), ((0, 3), (0, 3)));
    assert_eq!(initial_track_window(20), ((0, 4), (0, 8)));
    assert_eq!(scrolled_track_window(6, 3, 20), ((6, 9), (3, 12)));
    assert_eq!(scrolled_track_window(1, 3, 20), ((1, 4), (0, 7)));
    assert_eq!(scrolled_track_window(18, 3, 20), ((18, 20), (15, 20)));
    assert_eq!(scrolled_track_window(30, 0, 5), ((5, 5), (4, 5)));
    assert_eq!(scheduled_tracks((2, 9), 5), (2, 5));
}

#[test]
fn callouts_prefer_the_baseline_then_pinned_runs_then_the_first() {
    let hovered = vec![run("a"), run("b"), run("c"), run("d")];
    assert_eq!(callout_choice(&hovered, None, &Vec::new()), Some(0));
    assert_eq!(callout_choice(&hovered, None, &vec![run("c"), run("b")]), Some(1));
    assert_eq!(callout_choice(&hovered, Some(&run("d")), &vec![run("b")]), Some(3));
    assert_eq!(callout_choice(&Vec::new(), Some(&run("d")), &Vec::new()), None);
}
