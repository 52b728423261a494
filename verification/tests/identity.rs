use pulseon_viewer::budget::{detail_budget, overview_budget};
use pulseon_viewer::ids::{DataSourceId, ProjectId, RunId, RunRef};
use pulseon_viewer::runs::{run_fields_match_filter, run_matches_filter, run_status, Run, RunStatus};
use pulseon_viewer::selection::{
    toggle_run_selection, SelectionError, SelectionState, SeriesId, MAX_SELECTED_RUNS,
};

fn source_id(value: &str) -> DataSourceId {
    DataSourceId::from_string(value.to_string())
}

fn run_ref(source: &str, project: &str, run: &str) -> RunRef {
    RunRef::new(
        source_id(source),
        ProjectId::from_string(project.to_string()),
        RunId::from_string(run.to_string()),
    )
}

#[test]
fn screen_budgets_clamp_density_and_overflow() {
    assert_eq!(
        [
            overview_budget(1),
            overview_budget(900),
            overview_budget(9_000),
            detail_budget(1),
            detail_budget(2_500),
            detail_budget(u32::MAX)
        ],
        [500, 900, 2_000, 2_000, 5_000, 10_000]
    );
}

#[test]
fn budgets_keep_the_exact_bounds() {
    assert_eq!(overview_budget(500), 500);
    assert_eq!(overview_budget(2_000), 2_000);
    assert_eq!(overview_budget(2_001), 2_000);
    assert_eq!(detail_budget(1_000), 2_000);
    assert_eq!(detail_budget(1_001), 2_002);
    assert_eq!(detail_budget(5_000), 10_000);
    assert_eq!(detail_budget(u32::MAX / 2 + 1), 10_000);
}

#[test]
fn view_selection_limit_counts_runs_across_sources() {
    let mut runs = (0..MAX_SELECTED_RUNS)
        .map(|index| run_ref(&format!("source-{index}"), "project", "run"))
        .collect::<Vec<_>>();

    assert_eq!(
        toggle_run_selection(&mut runs, run_ref("another-source", "project", "another-run")),
        Err(SelectionError::RunLimit)
    );
}

#[test]
fn run_selection_toggles_off_at_the_first_position_and_back_on_at_the_end() {
    let mut runs = vec![run_ref("a", "p", "1"), run_ref("b", "p", "1")];
    assert_eq!(toggle_run_selection(&mut runs, run_ref("a", "p", "1")), Ok(false));
    assert_eq!(runs, vec![run_ref("b", "p", "1")]);
    assert_eq!(toggle_run_selection(&mut runs, run_ref("a", "p", "1")), Ok(true));
    assert_eq!(runs, vec![run_ref("b", "p", "1"), run_ref("a", "p", "1")]);
}

#[test]
fn run_selection_limit_still_allows_removal() {
    let mut runs = (0..MAX_SELECTED_RUNS)
        .map(|index| run_ref("source", "project", &format!("run-{index}")))
        .collect::<Vec<_>>();
    assert_eq!(toggle_run_selection(&mut runs, run_ref("source", "project", "run-3")), Ok(false));
    assert_eq!(runs.len(), MAX_SELECTED_RUNS - 1);
    assert_eq!(SelectionError::RunLimit.message(), "at most 10 Runs can be selected");
}

#[test]
fn run_identity_distinguishes_identical_native_ids_from_different_sources() {
    let first = run_ref("source-a", "project-1", "run-1");
    let second = run_ref("source-b", "project-1", "run-1");

    assert_ne!(first, second);
    assert_ne!(first.cache_key(), second.cache_key());
}

#[test]
fn cache_key_prefixes_each_part_with_its_byte_length() {
    assert_eq!(run_ref("source-a", "project-1", "run-1").cache_key(), "8:source-a9:project-15:run-1");
    assert_eq!(run_ref("", "", "").cache_key(), "0:0:0:");
    assert_eq!(run_ref("界", "a", "bc").cache_key(), "3:界1:a2:bc");
    assert_ne!(run_ref("ab", "c", "d").cache_key(), run_ref("a", "bc", "d").cache_key());
}

#[test]
fn run_filter_matches_name_id_and_status_without_case() {
    assert!(
        ["loss", "run-42", "FAILED", ""]
            .into_iter()
            .all(|query| run_fields_match_filter("Loss Baseline", "RUN-42", "failed", query))
    );
    assert!(!run_fields_match_filter("Loss Baseline", "RUN-42", "failed", "running"));
}

#[test]
fn run_filter_trims_the_query_and_keeps_status_case() {
    assert!(run_fields_match_filter("Loss Baseline", "RUN-42", "failed", "  baseline  "));
    assert!(run_fields_match_filter("Loss Baseline", "RUN-42", "failed", "   "));
    assert!(!run_fields_match_filter("Loss Baseline", "RUN-42", "FAILED", "zzz"));
    let run = Run {
        run_id: RunId::from_string("run-7".to_string()),
        project_id: ProjectId::from_string("project".to_string()),
        name: "Candidate".to_string(),
        status: RunStatus::Running,
    };
    assert!(run_matches_filter(&run, "RUNNING"));
    assert!(run_matches_filter(&run, "cand"));
    assert!(!run_matches_filter(&run, "finished"));
    assert_eq!(run_status(RunStatus::Finished), "finished");
}

#[test]
fn selection_state_toggles_independent_series() {
    let mut selection = SelectionState::default();
    let loss = SeriesId::from_string("loss".to_string());
    let accuracy = SeriesId::from_string("accuracy".to_string());

    assert!(selection.toggle(loss.clone()));
    assert!(selection.toggle(accuracy));
    assert!(!selection.toggle(loss));
    assert_eq!(selection.selected().len(), 1);
}

#[test]
fn selection_state_selects_only_hovers_and_clears() {
    let mut selection = SelectionState::default();
    selection.toggle(SeriesId::from_string("a".to_string()));
    selection.toggle(SeriesId::from_string("b".to_string()));
    selection.select_only(SeriesId::from_string("c".to_string()));
    assert_eq!(selection.selected().len(), 1);
    assert_eq!(selection.selected()[0].as_str(), "c");
    selection.set_hovered(Some(SeriesId::from_string("b".to_string())));
    assert_eq!(selection.hovered().map(|id| id.as_str()), Some("b"));
    selection.clear();
    assert!(selection.selected().is_empty());
    assert!(selection.hovered().is_none());
}

#[test]
fn selected_series_are_listed_in_ascending_identity_order() {
    let mut selection = SelectionState::default();
    for id in ["loss", "accuracy", "lr", "eval/loss"] {
        assert!(selection.toggle(SeriesId::from_string(id.to_string())));
    }
    assert!(!selection.toggle(SeriesId::from_string("lr".to_string())));
    let listed: Vec<&str> = selection.selected().iter().map(|id| id.as_str()).collect();
    assert_eq!(listed, ["accuracy", "eval/loss", "loss"]);
}
