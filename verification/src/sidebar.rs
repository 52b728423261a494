//! What the project sidebar lists: where each project sits, which of its
//! Runs are listed under it for a filter query, how many are paged in, and
//! what a Run row and the project menu offer.

use vstd::prelude::*;

use crate::ids::{DataSourceId, RunRef, RunRefView};
use crate::runs::Run;
use crate::selection::{all_distinct, first_occurrence, run_views, toggle_run_selection, SelectionError, MAX_SELECTED_RUNS};
use crate::text::{chars_of, contains_chars, lowercase, occurs_in, to_lowercase, trim, trimmed};

verus! {

/// Runs listed per page under a project, and among pinned or archived Runs.
pub const RUN_PAGE_SIZE: usize = 5;

/// The sidebar group a project is listed in.
#[derive(Clone, Copy, Debug, PartialEq, Eq, Structural)]
pub enum ProjectPlacement {
    Pinned,
    Projects,
    Archived,
}

/// The sidebar group a Run row is listed in.
#[derive(Clone, Copy, Debug, PartialEq, Eq, Structural)]
pub enum RunPlacement {
    Baseline,
    Pinned,
    Projects,
    Archived,
}

/// An archived project is listed as archived even when it is also pinned.
pub fn project_placement(archived: bool, pinned: bool) -> (placement: ProjectPlacement)
    ensures
        placement == if archived {
            ProjectPlacement::Archived
        } else if pinned {
            ProjectPlacement::Pinned
        } else {
            ProjectPlacement::Projects
        },
{
    if archived {
        ProjectPlacement::Archived
    } else if pinned {
        ProjectPlacement::Pinned
    } else {
        ProjectPlacement::Projects
    }
}

/// The query the sidebar filters by: the Run filter trimmed and lower-cased.
pub fn sidebar_query(filter: &str) -> (query: String)
    ensures
        query@ == lowercase(trimmed(filter@)),
{
    to_lowercase(trim(filter).as_str())
}

/// Whether `text`, lower-cased, contains `query`.
fn lowered_contains(text: &str, query: &Vec<char>) -> (found: bool)
    ensures
        found == occurs_in(lowercase(text@), query@),
{
    let lowered = chars_of(to_lowercase(text).as_str());
    contains_chars(&lowered, query)
}

/// Whether a project is listed for `query`: the query is empty, or it occurs
/// in the lower-cased project name, identifier or source label.
pub open spec fn project_matches(name: Seq<char>, project_id: Seq<char>, source_label: Seq<char>, query: Seq<char>) -> bool {
    query.len() == 0 || occurs_in(lowercase(name), query) || occurs_in(lowercase(project_id), query)
        || occurs_in(lowercase(source_label), query)
}

/// Whether a project is listed for a lower-cased `query`.
pub fn project_matches_query(name: &str, project_id: &str, source_label: &str, query: &str) -> (matched: bool)
    ensures
        matched == project_matches(name@, project_id@, source_label@, query@),
{
    let needle = chars_of(query);
    if needle.len() == 0 {
        return true;
    }
    lowered_contains(name, &needle) || lowered_contains(project_id, &needle) || lowered_contains(
        source_label,
        &needle,
    )
}

/// Whether a Run row is kept by a query: it occurs in the lower-cased Run
/// name or identifier.
pub open spec fn run_matches(run: Run, query: Seq<char>) -> bool {
    occurs_in(lowercase(run.name@), query) || occurs_in(lowercase(run.run_id@), query)
}

/// The Run reference of a Run of the project read from `source_id`.
pub open spec fn run_ref_view(source_id: Seq<char>, run: Run) -> RunRefView {
    RunRefView { source_id, project_id: run.project_id@, run_id: run.run_id@ }
}

/// Whether a project's Run is listed under it: it is not the baseline, nor
/// pinned, nor archived (those are listed in their own groups).
pub open spec fn listed_under_project(
    r: RunRefView,
    baseline: Option<RunRefView>,
    pinned: Seq<RunRefView>,
    archived: Seq<RunRefView>,
) -> bool {
    baseline != Some(r) && !pinned.contains(r) && !archived.contains(r)
}

/// What the sidebar keeps of one Run for a query: its reference, when it is
/// listed under the project and, where the Runs are filtered, it matches.
pub open spec fn kept_run(
    source_id: Seq<char>,
    filtering: bool,
    query: Seq<char>,
    baseline: Option<RunRefView>,
    pinned: Seq<RunRefView>,
    archived: Seq<RunRefView>,
) -> spec_fn(Run) -> Option<RunRefView> {
    |run: Run|
        if listed_under_project(run_ref_view(source_id, run), baseline, pinned, archived) && (!filtering
            || run_matches(run, query)) {
            Some(run_ref_view(source_id, run))
        } else {
            None
        }
}

/// Whether `runs` holds a reference equal to `run`.
pub fn holds_run(runs: &Vec<RunRef>, run: &RunRef) -> (held: bool)
    ensures
        held == run_views(runs@).contains(run@),
{
    let mut i: usize = 0;
    while i < runs.len()
        invariant
            i <= runs@.len(),
            forall|j: int| 0 <= j < i ==> runs@[j]@ != run@,
        decreases runs@.len() - i,
    {
        if runs[i].same_as(run) {
            proof {
                assert(run_views(runs@)[i as int] == run@);
            }
            return true;
        }
        i = i + 1;
    }
    proof {
        if run_views(runs@).contains(run@) {
            let k = choose|k: int| 0 <= k < run_views(runs@).len() && run_views(runs@)[k] == run@;
            assert(runs@[k]@ == run@);
        }
    }
    false
}

/// The project's Runs listed under it, in catalog order: all but the
/// baseline, the pinned and the archived Runs.
pub fn project_listing_runs(
    source_id: &DataSourceId,
    runs: &Vec<Run>,
    baseline: Option<&RunRef>,
    pinned: &Vec<RunRef>,
    archived: &Vec<RunRef>,
) -> (listing: Vec<RunRef>)
    ensures
        run_views(listing@) == runs@.filter_map(kept_run(
            source_id@,
            false,
            Seq::empty(),
            match baseline { Some(b) => Some(b@), None => None },
            run_views(pinned@),
            run_views(archived@),
        )),
{
    let empty: Vec<char> = Vec::new();
    kept_runs(source_id, runs, false, &empty, baseline, pinned, archived)
}

fn kept_runs(
    source_id: &DataSourceId,
    runs: &Vec<Run>,
    filtering: bool,
    query: &Vec<char>,
    baseline: Option<&RunRef>,
    pinned: &Vec<RunRef>,
    archived: &Vec<RunRef>,
) -> (kept: Vec<RunRef>)
    ensures
        run_views(kept@) == runs@.filter_map(kept_run(
            source_id@,
            filtering,
            query@,
            match baseline { Some(b) => Some(b@), None => None },
            run_views(pinned@),
            run_views(archived@),
        )),
{
    let ghost f = kept_run(
        source_id@,
        filtering,
        query@,
        match baseline { Some(b) => Some(b@), None => None },
        run_views(pinned@),
        run_views(archived@),
    );
    let mut kept: Vec<RunRef> = Vec::new();
    let mut i: usize = 0;
    proof {
        assert(runs@.take(0) =~= Seq::<Run>::empty());
        assert(run_views(kept@) =~= Seq::<RunRefView>::empty());
    }
    while i < runs.len()
        invariant
            i <= runs@.len(),
            run_views(kept@) == runs@.take(i as int).filter_map(f),
            f == kept_run(
                source_id@,
                filtering,
                query@,
                match baseline { Some(b) => Some(b@), None => None },
                run_views(pinned@),
                run_views(archived@),
            ),
        decreases runs@.len() - i,
    {
        let run = &runs[i];
        let candidate = RunRef::new(source_id.duplicate(), run.project_id.duplicate(), run.run_id.duplicate());
        let is_baseline = match baseline {
            Some(b) => b.same_as(&candidate),
            None => false,
        };
        let listed = !is_baseline && !holds_run(pinned, &candidate) && !holds_run(archived, &candidate);
        let keep = listed && (!filtering || lowered_contains(run.name.as_str(), query)
            || lowered_contains(run.run_id.as_str(), query));
        proof {
            assert(runs@.take(i + 1).drop_last() =~= runs@.take(i as int));
            assert(runs@.take(i + 1).last() == runs@[i as int]);
            assert(candidate@ == run_ref_view(source_id@, runs@[i as int]));
        }
        if keep {
            let ghost prev = kept@;
            kept.push(candidate);
            proof {
                assert(run_views(kept@) =~= run_views(prev).push(candidate@));
            }
        }
        i = i + 1;
    }
    proof {
        assert(runs@.take(i as int) =~= runs@);
    }
    kept
}

/// Whether a project's Runs are filtered one by one: the query is not empty
/// and does not already match the project itself.
pub open spec fn filtering_runs(query: Seq<char>, project_matched: bool) -> bool {
    query.len() > 0 && !project_matched
}

/// The Run rows under one project and whether a "Show more" row follows them.
#[derive(Debug)]
pub struct ProjectRows {
    pub runs: Vec<RunRef>,
    pub show_more: bool,
}

/// What the sidebar shows under one project, for a lower-cased `query` that
/// matched the project itself or not, with `limit` Runs paged in. `None`
/// when the project is hidden: it does not match and none of its Runs does.
/// Filtered Runs are all shown; otherwise the first `limit` are, followed by
/// "Show more" when there are more.
pub fn sidebar_project_rows(
    source_id: &DataSourceId,
    runs: &Vec<Run>,
    project_matched: bool,
    query: &str,
    baseline: Option<&RunRef>,
    pinned: &Vec<RunRef>,
    archived: &Vec<RunRef>,
    limit: usize,
) -> (rows: Option<ProjectRows>)
    ensures
        ({
            let filtering = filtering_runs(query@, project_matched);
            let kept = runs@.filter_map(kept_run(
                source_id@,
                filtering,
                query@,
                match baseline { Some(b) => Some(b@), None => None },
                run_views(pinned@),
                run_views(archived@),
            ));
            match rows {
                None => !project_matched && kept.len() == 0,
                Some(r) => {
                    &&& project_matched || kept.len() > 0
                    &&& run_views(r.runs@) == if filtering || kept.len() <= limit {
                        kept
                    } else {
                        kept.take(limit as int)
                    }
                    &&& r.show_more == (!filtering && kept.len() > limit)
                },
            }
        }),
        project_matched ==> ({
            let listing = runs@.filter_map(kept_run(
                source_id@,
                false,
                Seq::empty(),
                match baseline { Some(b) => Some(b@), None => None },
                run_views(pinned@),
                run_views(archived@),
            ));
            &&& rows matches Some(r)
            &&& run_views(rows->0.runs@) == if listing.len() <= limit {
                listing
            } else {
                listing.take(limit as int)
            }
            &&& rows->0.show_more == (listing.len() > limit)
        }),
{
    proof {
        matching_projects_keep_every_listed_run(
            source_id@,
            runs@,
            query@,
            match baseline { Some(b) => Some(b@), None => None },
            run_views(pinned@),
            run_views(archived@),
        );
    }
    let needle = chars_of(query);
    let filtering = needle.len() > 0 && !project_matched;
    let mut kept = kept_runs(source_id, runs, filtering, &needle, baseline, pinned, archived);
    if !project_matched && kept.len() == 0 {
        return None;
    }
    if filtering {
        return Some(ProjectRows { runs: kept, show_more: false });
    }
    let show_more = kept.len() > limit;
    let ghost full = kept@;
    kept.truncate(limit);
    proof {
        if full.len() > limit {
            assert(run_views(kept@) =~= run_views(full).take(limit as int));
        }
    }
    Some(ProjectRows { runs: kept, show_more })
}

/// How many of `total` rows a page of `limit` shows, and whether "Show more"
/// follows them.
pub fn run_page(total: usize, limit: usize) -> (page: (usize, bool))
    ensures
        page.0 == if total < limit { total } else { limit },
        page.1 == (total > limit),
{
    if total < limit {
        (total, false)
    } else {
        (limit, total > limit)
    }
}

/// The page size after "Show more": one more page.
pub fn next_page_limit(limit: usize) -> (next: usize)
    requires
        limit + RUN_PAGE_SIZE <= usize::MAX,
    ensures
        next == limit + RUN_PAGE_SIZE,
{
    limit + RUN_PAGE_SIZE
}

/// How many Runs of `listing` are in `selected`.
pub open spec fn selected_count(listing: Seq<RunRefView>, selected: Seq<RunRefView>) -> nat
    decreases listing.len(),
{
    if listing.len() == 0 {
        0
    } else {
        selected_count(listing.drop_last(), selected) + if selected.contains(listing.last()) {
            1nat
        } else {
            0nat
        }
    }
}

/// How many of a project's listed Runs are shown, as the project menu says it.
#[derive(Clone, Copy, Debug, PartialEq, Eq, Structural)]
pub enum ProjectVisibility {
    /// Every listed Run is shown, and there is at least one.
    AllShown,
    /// No listed Run is shown.
    NoneShown,
    /// Some listed Runs are shown and some are not.
    SomeShown,
}

/// How many of `listing` are shown in `selected`.
pub fn project_visibility(listing: &Vec<RunRef>, selected: &Vec<RunRef>) -> (visibility: ProjectVisibility)
    ensures
        ({
            let count = selected_count(run_views(listing@), run_views(selected@));
            visibility == if count == listing@.len() && listing@.len() > 0 {
                ProjectVisibility::AllShown
            } else if count == 0 {
                ProjectVisibility::NoneShown
            } else {
                ProjectVisibility::SomeShown
            }
        }),
{
    let ghost all = run_views(listing@);
    let ghost chosen = run_views(selected@);
    let mut count: usize = 0;
    let mut i: usize = 0;
    while i < listing.len()
        invariant
            i <= listing@.len(),
            all == run_views(listing@),
            chosen == run_views(selected@),
            count == selected_count(all.take(i as int), chosen),
            count <= i,
        decreases listing@.len() - i,
    {
        proof {
            assert(all.take(i + 1).drop_last() =~= all.take(i as int));
        }
        if holds_run(selected, &listing[i]) {
            count = count + 1;
        }
        i = i + 1;
    }
    proof {
        assert(all.take(i as int) =~= all);
    }
    if count == listing.len() && listing.len() > 0 {
        ProjectVisibility::AllShown
    } else if count == 0 {
        ProjectVisibility::NoneShown
    } else {
        ProjectVisibility::SomeShown
    }
}

/// The project menu's visibility entry: hide all when all are shown.
pub fn visibility_label(visibility: ProjectVisibility) -> (label: &'static str)
    ensures
        label@ == if visibility == ProjectVisibility::AllShown {
            "Hide all Runs"@
        } else {
            "Show all Runs"@
        },
{
    match visibility {
        ProjectVisibility::AllShown => "Hide all Runs",
        _ => "Show all Runs",
    }
}

/// Whether a Run row can be clicked to show or hide its Run: only rows under
/// a project, and only while the Run is shown or fewer than the maximum are.
pub fn run_row_toggles(placement: RunPlacement, selected: bool, visible_count: usize) -> (toggles: bool)
    ensures
        toggles == (placement == RunPlacement::Projects && (selected || visible_count < MAX_SELECTED_RUNS)),
{
    placement == RunPlacement::Projects && (selected || visible_count < MAX_SELECTED_RUNS)
}

/// Whether a Run row is dimmed: a hidden Run under a project while the
/// maximum number of Runs is shown.
pub fn run_row_disabled(placement: RunPlacement, selected: bool, visible_count: usize) -> (disabled: bool)
    ensures
        disabled == (placement == RunPlacement::Projects && !selected && visible_count >= MAX_SELECTED_RUNS),
{
    placement == RunPlacement::Projects && !selected && visible_count >= MAX_SELECTED_RUNS
}

/// The tooltips of a Run row's buttons: show or hide, baseline, pin, archive.
pub fn run_action_labels(placement: RunPlacement, selected: bool) -> (labels: (
    &'static str,
    &'static str,
    &'static str,
    &'static str,
))
    ensures
        labels.0@ == if selected { "Hide Run"@ } else { "Show Run"@ },
        labels.1@ == if placement == RunPlacement::Baseline { "Clear Baseline"@ } else { "Set Baseline"@ },
        labels.2@ == if placement == RunPlacement::Pinned { "Unpin Run"@ } else { "Pin Run"@ },
        labels.3@ == if placement == RunPlacement::Archived { "Restore Run"@ } else { "Archive Run"@ },
{
    (
        if selected { "Hide Run" } else { "Show Run" },
        if placement == RunPlacement::Baseline { "Clear Baseline" } else { "Set Baseline" },
        if placement == RunPlacement::Pinned { "Unpin Run" } else { "Pin Run" },
        if placement == RunPlacement::Archived { "Restore Run" } else { "Archive Run" },
    )
}

/// The position of the first `x` in `s`, or -1.
pub open spec fn first_index(s: Seq<RunRefView>, x: RunRefView) -> int
    decreases s.len(),
{
    if s.len() == 0 {
        -1
    } else if s[0] == x {
        0
    } else {
        let k = first_index(s.drop_first(), x);
        if k < 0 {
            -1
        } else {
            k + 1
        }
    }
}

proof fn lemma_first_index(s: Seq<RunRefView>, x: RunRefView, i: int)
    ensures
        first_occurrence(s, x, i) ==> first_index(s, x) == i,
        !s.contains(x) ==> first_index(s, x) == -1,
    decreases s.len(),
{
    if s.len() > 0 {
        lemma_first_index(s.drop_first(), x, i - 1);
        if first_occurrence(s, x, i) && i > 0 {
            assert(first_occurrence(s.drop_first(), x, i - 1)) by {
                assert forall|j: int| 0 <= j < i - 1 implies s.drop_first()[j] != x by {
                    assert(s[j + 1] != x);
                }
            }
        }
        if !s.contains(x) {
            assert(s[0] != x);
            assert(!s.drop_first().contains(x)) by {
                if s.drop_first().contains(x) {
                    let j = choose|j: int| 0 <= j < s.drop_first().len() && s.drop_first()[j] == x;
                    assert(s[j + 1] == x);
                }
            }
        }
    }
}

/// One toggle of a Run in a selection: removed at its first position when
/// selected, else appended unless the maximum is selected.
pub open spec fn toggled(sel: Seq<RunRefView>, r: RunRefView) -> Result<Seq<RunRefView>, SelectionError> {
    if sel.contains(r) {
        Ok(sel.remove(first_index(sel, r)))
    } else if sel.len() == MAX_SELECTED_RUNS {
        Err(SelectionError::RunLimit)
    } else {
        Ok(sel.push(r))
    }
}

/// Toggles, in order, every Run of `listing` whose selection differs from
/// the target (hidden when `hiding`), stopping at the first refusal.
pub open spec fn toggle_listing(sel: Seq<RunRefView>, listing: Seq<RunRefView>, hiding: bool) -> (
    Seq<RunRefView>,
    Result<(), SelectionError>,
)
    decreases listing.len(),
{
    if listing.len() == 0 {
        (sel, Ok(()))
    } else if sel.contains(listing[0]) == hiding {
        match toggled(sel, listing[0]) {
            Ok(next) => toggle_listing(next, listing.drop_first(), hiding),
            Err(e) => (sel, Err(e)),
        }
    } else {
        toggle_listing(sel, listing.drop_first(), hiding)
    }
}

/// Shows or hides all of a project's listed Runs: hides them when every one
/// is shown, else shows them, toggling each whose state differs in listing
/// order. Returns whether they were being hidden, and the first refusal.
pub fn toggle_project_runs(selection: &mut Vec<RunRef>, listing: &Vec<RunRef>) -> (outcome: (
    bool,
    Result<(), SelectionError>,
))
    ensures
        outcome.0 == forall|i: int| 0 <= i < listing@.len() ==> run_views(old(selection)@).contains(
            #[trigger] listing@[i]@,
        ),
        (run_views(final(selection)@), outcome.1) == toggle_listing(
            run_views(old(selection)@),
            run_views(listing@),
            outcome.0,
        ),
{
    let ghost all = run_views(listing@);
    let mut hiding = true;
    let mut k: usize = 0;
    while k < listing.len()
        invariant
            k <= listing@.len(),
            selection@ == old(selection)@,
            hiding == forall|j: int| 0 <= j < k ==> run_views(selection@).contains(#[trigger] listing@[j]@),
        decreases listing@.len() - k,
    {
        if !holds_run(selection, &listing[k]) {
            hiding = false;
        }
        k = k + 1;
    }
    let ghost target = toggle_listing(run_views(selection@), all, hiding);
    let mut i: usize = 0;
    proof {
        assert(all.skip(0) =~= all);
    }
    while i < listing.len()
        invariant
            i <= listing@.len(),
            all == run_views(listing@),
            toggle_listing(run_views(selection@), all.skip(i as int), hiding) == target,
            target == toggle_listing(run_views(old(selection)@), all, hiding),
            hiding == forall|j: int| 0 <= j < listing@.len() ==> run_views(old(selection)@).contains(
                #[trigger] listing@[j]@,
            ),
        decreases listing@.len() - i,
    {
        let ghost before = run_views(selection@);
        let ghost rest = all.skip(i as int);
        proof {
            assert(rest[0] == listing@[i as int]@);
            assert(rest.drop_first() =~= all.skip(i + 1));
        }
        if holds_run(selection, &listing[i]) == hiding {
            let outcome = toggle_run_selection(selection, listing[i].duplicate());
            proof {
                let r = listing@[i as int]@;
                if before.contains(r) {
                    let j = choose|j: int| first_occurrence(before, r, j) && run_views(selection@) == before.remove(j);
                    lemma_first_index(before, r, j);
                }
            }
            match outcome {
                Err(e) => {
                    return (hiding, Err(e));
                },
                Ok(_) => {},
            }
        }
        i = i + 1;
    }
    proof {
        assert(all.skip(i as int) =~= Seq::<RunRefView>::empty());
    }
    (hiding, Ok(()))
}

/// `c` with an ASCII capital letter replaced by its small letter.
pub open spec fn ascii_lower(c: char) -> char {
    if 'A' <= c && c <= 'Z' {
        ((c as u32) + 32) as char
    } else {
        c
    }
}

/// Whether two texts are equal when ASCII letters are compared without case
/// (what `str::eq_ignore_ascii_case` decides).
pub open spec fn same_ignoring_ascii_case(a: Seq<char>, b: Seq<char>) -> bool {
    a.len() == b.len() && forall|i: int| 0 <= i < a.len() ==> ascii_lower(#[trigger] a[i]) == ascii_lower(b[i])
}

fn lower_ascii(c: char) -> (lower: char)
    ensures
        lower == ascii_lower(c),
{
    if 'A' <= c && c <= 'Z' {
        let code = c as u32 + 32;
        proof {
            assert(0x61 <= code <= 0x7a);
        }
        char_from_ascii(code)
    } else {
        c
    }
}

fn char_from_ascii(code: u32) -> (c: char)
    requires
        code < 0x80,
    ensures
        c == code as char,
{
    let byte = code as u8;
    byte as char
}

/// Whether two texts are equal ignoring the case of ASCII letters.
pub fn eq_ignore_ascii_case(a: &str, b: &str) -> (same: bool)
    ensures
        same == same_ignoring_ascii_case(a@, b@),
{
    let x = chars_of(a);
    let y = chars_of(b);
    if x.len() != y.len() {
        return false;
    }
    let mut i: usize = 0;
    while i < x.len()
        invariant
            x@ == a@,
            y@ == b@,
            x@.len() == y@.len(),
            i <= x@.len(),
            forall|j: int| 0 <= j < i ==> ascii_lower(#[trigger] a@[j]) == ascii_lower(b@[j]),
        decreases x@.len() - i,
    {
        if lower_ascii(x[i]) != lower_ascii(y[i]) {
            return false;
        }
        i = i + 1;
    }
    true
}

/// How many of `names` equal `name` ignoring ASCII case.
pub open spec fn same_name_count(names: Seq<Seq<char>>, name: Seq<char>) -> nat
    decreases names.len(),
{
    if names.len() == 0 {
        0
    } else {
        same_name_count(names.drop_last(), name) + if same_ignoring_ascii_case(names.last(), name) {
            1nat
        } else {
            0nat
        }
    }
}

/// The texts of a list of strings.
pub open spec fn texts(names: Seq<String>) -> Seq<Seq<char>> {
    names.map_values(|n: String| n@)
}

/// Whether more than one project, over all sources, bears `name` ignoring
/// ASCII case; such projects are labelled with their source.
pub fn duplicate_project_name(names: &Vec<String>, name: &str) -> (duplicate: bool)
    ensures
        duplicate == (same_name_count(texts(names@), name@) > 1),
{
    let ghost all = texts(names@);
    let mut count: usize = 0;
    let mut i: usize = 0;
    while i < names.len()
        invariant
            i <= names@.len(),
            all == texts(names@),
            count == same_name_count(all.take(i as int), name@),
            count <= i,
        decreases names@.len() - i,
    {
        proof {
            assert(all.take(i + 1).drop_last() =~= all.take(i as int));
        }
        if eq_ignore_ascii_case(names[i].as_str(), name) {
            count = count + 1;
        }
        i = i + 1;
    }
    proof {
        assert(all.take(i as int) =~= all);
    }
    count > 1
}

proof fn lemma_remove_first_distinct(sel: Seq<RunRefView>, r: RunRefView)
    requires
        all_distinct(sel),
        sel.contains(r),
    ensures
        0 <= first_index(sel, r) < sel.len(),
        sel[first_index(sel, r)] == r,
        all_distinct(sel.remove(first_index(sel, r))),
        !sel.remove(first_index(sel, r)).contains(r),
        forall|x: RunRefView| #[trigger] sel.remove(first_index(sel, r)).contains(x) ==> sel.contains(x),
{
    let k = choose|k: int| 0 <= k < sel.len() && sel[k] == r;
    assert(first_occurrence(sel, r, k)) by {
        assert forall|j: int| 0 <= j < k implies sel[j] != r by {
            assert(sel[j] != sel[k]);
        }
    }
    lemma_first_index(sel, r, k);
    let rest = sel.remove(k);
    assert forall|x: RunRefView| #[trigger] rest.contains(x) implies sel.contains(x) by {
        let j = choose|j: int| 0 <= j < rest.len() && rest[j] == x;
        if j < k {
            assert(sel[j] == x);
        } else {
            assert(sel[j + 1] == x);
        }
    }
    assert(!rest.contains(r)) by {
        if rest.contains(r) {
            let j = choose|j: int| 0 <= j < rest.len() && rest[j] == r;
            if j < k {
                assert(sel[j] == sel[k]);
            } else {
                assert(sel[j + 1] == sel[k]);
            }
        }
    }
    assert forall|i: int, j: int| 0 <= i < j < rest.len() implies rest[i] != rest[j] by {
        let si = if i < k { i } else { i + 1 };
        let sj = if j < k { j } else { j + 1 };
        assert(rest[i] == sel[si] && rest[j] == sel[sj]);
    }
}

proof fn lemma_hiding_only_removes(sel: Seq<RunRefView>, listing: Seq<RunRefView>)
    requires
        all_distinct(sel),
    ensures
        toggle_listing(sel, listing, true).1 is Ok,
        forall|x: RunRefView| #[trigger] toggle_listing(sel, listing, true).0.contains(x) ==> sel.contains(x),
        forall|i: int| 0 <= i < listing.len() ==> !toggle_listing(sel, listing, true).0.contains(#[trigger] listing[i]),
    decreases listing.len(),
{
    if listing.len() > 0 {
        let r = listing[0];
        let rest = listing.drop_first();
        if sel.contains(r) {
            lemma_remove_first_distinct(sel, r);
            let next = sel.remove(first_index(sel, r));
            lemma_hiding_only_removes(next, rest);
            assert forall|i: int| 0 <= i < listing.len() implies !toggle_listing(sel, listing, true).0.contains(
                #[trigger] listing[i],
            ) by {
                if i > 0 {
                    assert(listing[i] == rest[i - 1]);
                }
            }
        } else {
            lemma_hiding_only_removes(sel, rest);
            assert forall|i: int| 0 <= i < listing.len() implies !toggle_listing(sel, listing, true).0.contains(
                #[trigger] listing[i],
            ) by {
                if i > 0 {
                    assert(listing[i] == rest[i - 1]);
                }
            }
        }
    }
}

/// Hiding a project's Runs never fails, hides every listed Run, and shows no
/// Run that was not shown before (for a selection that holds each Run once).
pub proof fn hiding_a_project_hides_all_its_runs(sel: Seq<RunRefView>, listing: Seq<RunRefView>)
    requires
        all_distinct(sel),
    ensures
        toggle_listing(sel, listing, true).1 is Ok,
        forall|i: int| 0 <= i < listing.len() ==> !toggle_listing(sel, listing, true).0.contains(#[trigger] listing[i]),
        forall|x: RunRefView| #[trigger] toggle_listing(sel, listing, true).0.contains(x) ==> sel.contains(x),
{
    lemma_hiding_only_removes(sel, listing);
}

/// The placement entries of the project menu: the entry that moves the
/// project between its group and the pinned group (its label, and where it
/// moves the project), and whether an "Archive project" entry follows.
pub fn project_menu_placements(placement: ProjectPlacement) -> (entries: (&'static str, ProjectPlacement, bool))
    ensures
        entries.0@ == match placement {
            ProjectPlacement::Pinned => "Unpin project"@,
            ProjectPlacement::Archived => "Restore project"@,
            ProjectPlacement::Projects => "Pin project"@,
        },
        entries.1 == match placement {
            ProjectPlacement::Projects => ProjectPlacement::Pinned,
            _ => ProjectPlacement::Projects,
        },
        entries.2 == (placement != ProjectPlacement::Archived),
{
    match placement {
        ProjectPlacement::Pinned => ("Unpin project", ProjectPlacement::Projects, true),
        ProjectPlacement::Archived => ("Restore project", ProjectPlacement::Projects, false),
        ProjectPlacement::Projects => ("Pin project", ProjectPlacement::Pinned, true),
    }
}

/// A project that matches the query itself keeps every listed Run under
/// it, whether or not the Run matches: the query filters Runs only of
/// projects it does not match.
pub proof fn matching_projects_keep_every_listed_run(
    source_id: Seq<char>,
    runs: Seq<Run>,
    query: Seq<char>,
    baseline: Option<RunRefView>,
    pinned: Seq<RunRefView>,
    archived: Seq<RunRefView>,
)
    ensures
        !filtering_runs(query, true),
        runs.filter_map(kept_run(source_id, filtering_runs(query, true), query, baseline, pinned, archived))
            == runs.filter_map(kept_run(source_id, false, Seq::empty(), baseline, pinned, archived)),
        forall|i: int| 0 <= i < runs.len() ==> (#[trigger] kept_run(source_id, filtering_runs(query, true), query, baseline, pinned, archived)(runs[i]) is Some
            <==> listed_under_project(run_ref_view(source_id, runs[i]), baseline, pinned, archived)),
{
    assert(kept_run(source_id, filtering_runs(query, true), query, baseline, pinned, archived) =~= kept_run(
        source_id,
        false,
        Seq::empty(),
        baseline,
        pinned,
        archived,
    ));
}

} // verus!
