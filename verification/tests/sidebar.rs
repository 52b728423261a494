use pulseon_viewer::ids::{DataSourceId, ProjectId, RunId, RunRef};
use pulseon_viewer::runs::{Run, RunStatus};
use pulseon_viewer::selection::{SelectionError, MAX_SELECTED_RUNS};
use pulseon_viewer::sidebar::{
    duplicate_project_name, eq_ignore_ascii_case, project_menu_placements, next_page_limit, project_listing_runs,
    project_matches_query, project_placement, project_visibility, run_action_labels, run_page,
    run_row_disabled, run_row_toggles, sidebar_project_rows, sidebar_query, toggle_project_runs,
    visibility_label, ProjectPlacement, ProjectVisibility, RunPlacement, RUN_PAGE_SIZE,
};

fn source() -> DataSourceId {
    DataSourceId::from_string("/data/runs".to_string())
}

fn stored_run(id: &str, name: &str) -> Run {
    Run {
        run_id: RunId::from_string(id.to_string()),
        project_id: ProjectId::from_string("vision".to_string()),
        name: name.to_string(),
        status: RunStatus::Finished,
    }
}

fn run_ref(id: &str) -> RunRef {
    RunRef::new(
        source(),
        ProjectId::from_string("vision".to_string()),
        RunId::from_string(id.to_string()),
    )
}

fn ids(runs: &[RunRef]) -> Vec<&str> {
    runs.iter().map(|run| run.run_id.as_str()).collect()
}

fn catalog(count: usize) -> Vec<Run> {
    (0..count)
        .map(|index| stored_run(&format!("r{index}"), &format!("Run {index}")))
        .collect()
}

#[test]
fn archived_projects_win_over_pinned_ones() {
    assert_eq!(project_placement(true, true), ProjectPlacement::Archived);
    assert_eq!(project_placement(false, true), ProjectPlacement::Pinned);
    assert_eq!(project_placement(false, false), ProjectPlacement::Projects);
}

#[test]
fn projects_match_by_name_identifier_or_source_label() {
    let query = sidebar_query("  ViSion ");
    assert_eq!(query, "vision");
    assert!(project_matches_query("Computer Vision", "cv", "runs", &query));
    assert!(project_matches_query("Other", "VISION-2", "runs", &query));
    assert!(project_matches_query("Other", "o", "vision-store", &query));
    assert!(!project_matches_query("Other", "o", "store", &query));
    assert!(project_matches_query("Other", "o", "store", ""));
}

#[test]
fn listing_leaves_out_baseline_pinned_and_archived_runs() {
    let runs = catalog(4);
    let baseline = run_ref("r0");
    let listing = project_listing_runs(&source(), &runs, Some(&baseline), &vec![run_ref("r2")], &vec![run_ref("r3")]);
    assert_eq!(ids(&listing), ["r1"]);
}

#[test]
fn unfiltered_projects_page_their_runs() {
    let runs = catalog(7);
    let rows = sidebar_project_rows(&source(), &runs, true, "", None, &Vec::new(), &Vec::new(), RUN_PAGE_SIZE)
        .expect("a matching project is listed");
    assert_eq!(ids(&rows.runs), ["r0", "r1", "r2", "r3", "r4"]);
    assert!(rows.show_more);

    let rows = sidebar_project_rows(&source(), &runs, true, "", None, &Vec::new(), &Vec::new(), next_page_limit(RUN_PAGE_SIZE))
        .expect("a matching project is listed");
    assert_eq!(rows.runs.len(), 7);
    assert!(!rows.show_more);
}

#[test]
fn filtered_projects_show_every_matching_run_or_hide() {
    let mut runs = catalog(8);
    runs[6].name = "Warmup sweep".to_string();
    runs[7].name = "Final SWEEP".to_string();
    let rows = sidebar_project_rows(&source(), &runs, false, "sweep", None, &Vec::new(), &Vec::new(), 1)
        .expect("matching runs keep the project");
    assert_eq!(ids(&rows.runs), ["r6", "r7"]);
    assert!(!rows.show_more);

    let rows = sidebar_project_rows(&source(), &runs, false, "r3", None, &Vec::new(), &Vec::new(), 5)
        .expect("run identifiers match too");
    assert_eq!(ids(&rows.runs), ["r3"]);

    assert!(sidebar_project_rows(&source(), &runs, false, "nothing", None, &Vec::new(), &Vec::new(), 5).is_none());
    let rows = sidebar_project_rows(&source(), &Vec::new(), true, "vision", None, &Vec::new(), &Vec::new(), 5)
        .expect("a matching project stays even without runs");
    assert!(rows.runs.is_empty());
}

#[test]
fn project_menu_offers_to_hide_only_when_every_listed_run_is_shown() {
    let listing = vec![run_ref("r0"), run_ref("r1")];
    assert_eq!(project_visibility(&listing, &vec![run_ref("r1"), run_ref("r0")]), ProjectVisibility::AllShown);
    assert_eq!(project_visibility(&listing, &vec![run_ref("r1")]), ProjectVisibility::SomeShown);
    assert_eq!(project_visibility(&listing, &Vec::new()), ProjectVisibility::NoneShown);
    assert_eq!(project_visibility(&Vec::new(), &Vec::new()), ProjectVisibility::NoneShown);
    assert_eq!(visibility_label(ProjectVisibility::AllShown), "Hide all Runs");
    assert_eq!(visibility_label(ProjectVisibility::SomeShown), "Show all Runs");
}

#[test]
fn toggling_a_project_shows_its_hidden_runs_or_hides_them_all() {
    let listing = vec![run_ref("r0"), run_ref("r1"), run_ref("r2")];
    let mut selection = vec![run_ref("x"), run_ref("r1")];
    assert_eq!(toggle_project_runs(&mut selection, &listing), (false, Ok(())));
    assert_eq!(ids(&selection), ["x", "r1", "r0", "r2"]);
    assert_eq!(toggle_project_runs(&mut selection, &listing), (true, Ok(())));
    assert_eq!(ids(&selection), ["x"]);
}

#[test]
fn toggling_a_project_stops_at_the_selection_limit() {
    let listing = vec![run_ref("r0"), run_ref("r1")];
    let mut selection: Vec<RunRef> = (0..MAX_SELECTED_RUNS - 1).map(|index| run_ref(&format!("x{index}"))).collect();
    assert_eq!(toggle_project_runs(&mut selection, &listing), (false, Err(SelectionError::RunLimit)));
    assert_eq!(selection.len(), MAX_SELECTED_RUNS);
    assert_eq!(selection[MAX_SELECTED_RUNS - 1].run_id.as_str(), "r0");
}

#[test]
fn run_rows_toggle_only_under_projects_and_below_the_limit() {
    assert!(run_row_toggles(RunPlacement::Projects, false, MAX_SELECTED_RUNS - 1));
    assert!(!run_row_toggles(RunPlacement::Projects, false, MAX_SELECTED_RUNS));
    assert!(run_row_toggles(RunPlacement::Projects, true, MAX_SELECTED_RUNS));
    assert!(!run_row_toggles(RunPlacement::Pinned, true, 0));
    assert!(run_row_disabled(RunPlacement::Projects, false, MAX_SELECTED_RUNS));
    assert!(!run_row_disabled(RunPlacement::Archived, false, MAX_SELECTED_RUNS));
    assert_eq!(
        run_action_labels(RunPlacement::Pinned, true),
        ("Hide Run", "Set Baseline", "Unpin Run", "Archive Run")
    );
    assert_eq!(
        run_action_labels(RunPlacement::Baseline, false),
        ("Show Run", "Clear Baseline", "Pin Run", "Archive Run")
    );
}

#[test]
fn pages_show_up_to_the_limit() {
    assert_eq!(run_page(3, 5), (3, false));
    assert_eq!(run_page(5, 5), (5, false));
    assert_eq!(run_page(6, 5), (5, true));
    assert_eq!(next_page_limit(5), 10);
}

#[test]
fn project_names_repeat_when_equal_ignoring_ascii_case() {
    assert!(eq_ignore_ascii_case("Vision", "vISION"));
    assert!(!eq_ignore_ascii_case("Émile", "émile"));
    assert!(!eq_ignore_ascii_case("ab", "abc"));
    let names = vec!["Vision".to_string(), "Audio".to_string(), "VISION".to_string()];
    assert!(duplicate_project_name(&names, "vision"));
    assert!(!duplicate_project_name(&names, "audio"));
}

#[test]
fn project_menus_offer_the_moves_their_placement_allows() {
    assert_eq!(project_menu_placements(ProjectPlacement::Projects), ("Pin project", ProjectPlacement::Pinned, true));
    assert_eq!(project_menu_placements(ProjectPlacement::Pinned), ("Unpin project", ProjectPlacement::Projects, true));
    assert_eq!(project_menu_placements(ProjectPlacement::Archived), ("Restore project", ProjectPlacement::Projects, false));
}

#[test]
fn queries_drop_unicode_white_space_at_both_ends() {
    assert_eq!(sidebar_query("\u{a0}\u{2003} Vision\t\n\u{3000}"), "vision");
    assert_eq!(sidebar_query(" \u{85} "), "");
    assert_eq!(pulseon_viewer::text::trim("  a b  "), "a b");
    assert_eq!(pulseon_viewer::text::trim("\u{200b}x"), "\u{200b}x");
}
