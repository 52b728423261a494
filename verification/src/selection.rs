//! Hover and multi-series selection, and the bounded per-View Run selection.

use vstd::prelude::*;
use vstd::std_specs::cmp::PartialEqSpecImpl;

use crate::ids::{RunRef, RunRefView};
use crate::table_keys::{lemma_text_sign, lemma_text_sign_chain, strictly_increasing, text_sign, text_sign_of};

verus! {

/// Identity of one chart series.
#[derive(Clone, Debug)]
pub struct SeriesId(String);

impl View for SeriesId {
    type V = Seq<char>;

    closed spec fn view(&self) -> Seq<char> {
        self.0@
    }
}

impl SeriesId {
    /// Wraps a series identity.
    pub fn from_string(value: String) -> (id: Self)
        ensures
            id@ == value@,
    {
        SeriesId(value)
    }

    /// The identity as text.
    pub fn as_str(&self) -> (s: &str)
        ensures
            s@ == self@,
    {
        self.0.as_str()
    }

    /// A copy with the same identity.
    pub fn duplicate(&self) -> (copy: Self)
        ensures
            copy == *self,
    {
        SeriesId(self.0.clone())
    }

    /// Whether both identities are the same text.
    pub fn same_as(&self, other: &Self) -> (same: bool)
        ensures
            same == (self@ == other@),
    {
        self.0 == other.0
    }
}

impl PartialEq for SeriesId {
    fn eq(&self, other: &Self) -> (same: bool) {
        self.0 == other.0
    }
}

impl PartialEqSpecImpl for SeriesId {
    open spec fn obeys_eq_spec() -> bool {
        true
    }

    open spec fn eq_spec(&self, other: &Self) -> bool {
        self@ == other@
    }
}

/// The identities held by a sequence of series ids.
pub open spec fn series_ids(s: Seq<SeriesId>) -> Seq<Seq<char>> {
    s.map_values(|id: SeriesId| id@)
}

/// Whether no identity occurs twice.
pub open spec fn all_distinct<T>(s: Seq<T>) -> bool {
    forall|i: int, j: int| 0 <= i < j < s.len() ==> s[i] != s[j]
}

/// Abstract hover and selection state.
pub struct SelectionView {
    pub selected: Set<Seq<char>>,
    pub hovered: Option<Seq<char>>,
}

/// Renderer-independent hover and multi-series selection state.
#[derive(Debug)]
pub struct SelectionState {
    selected: Vec<SeriesId>,
    hovered: Option<SeriesId>,
}

/// The identity held by an optional series id.
pub open spec fn optional_id(id: Option<SeriesId>) -> Option<Seq<char>> {
    match id {
        Some(id) => Some(id@),
        None => None,
    }
}

/// `s` with `id` added if it was absent and removed if it was present.
pub open spec fn toggled(s: Set<Seq<char>>, id: Seq<char>) -> Set<Seq<char>> {
    if s.contains(id) {
        s.remove(id)
    } else {
        s.insert(id)
    }
}

impl View for SelectionState {
    type V = SelectionView;

    closed spec fn view(&self) -> SelectionView {
        SelectionView {
            selected: series_ids(self.selected@).to_set(),
            hovered: optional_id(self.hovered),
        }
    }
}

impl SelectionState {
    #[verifier::type_invariant]
    closed spec fn ids_ascending(self) -> bool {
        strictly_increasing(series_ids(self.selected@))
    }

    /// The selected series in ascending order of their identities, each once.
    pub fn selected(&self) -> (ids: &Vec<SeriesId>)
        ensures
            series_ids(ids@).to_set() == self@.selected,
            strictly_increasing(series_ids(ids@)),
    {
        proof {
            use_type_invariant(self);
        }
        &self.selected
    }

    /// The hovered series, if any.
    pub fn hovered(&self) -> (id: Option<&SeriesId>)
        ensures
            match id {
                Some(id) => self@.hovered == Some(id@),
                None => self@.hovered is None,
            },
    {
        match &self.hovered {
            Some(id) => Some(id),
            None => None,
        }
    }

    /// Where `series_id` is, or would go, in the ascending selection.
    fn seek(&self, series_id: &SeriesId) -> (place: (usize, bool))
        ensures
            place.0 <= self.selected@.len(),
            forall|i: int| 0 <= i < place.0 ==> text_sign(#[trigger] series_ids(self.selected@)[i], series_id@) < 0,
            place.1 ==> place.0 < self.selected@.len() && self.selected@[place.0 as int]@ == series_id@,
            !place.1 ==> place.0 == self.selected@.len() || text_sign(
                series_id@,
                series_ids(self.selected@)[place.0 as int],
            ) < 0,
    {
        let ghost ids = series_ids(self.selected@);
        let mut p: usize = 0;
        while p < self.selected.len()
            invariant
                p <= self.selected@.len(),
                ids == series_ids(self.selected@),
                forall|i: int| 0 <= i < p ==> text_sign(#[trigger] ids[i], series_id@) < 0,
            decreases self.selected@.len() - p,
        {
            let sign = text_sign_of(self.selected[p].as_str(), series_id.as_str());
            proof {
                lemma_text_sign(ids[p as int], series_id@);
            }
            if sign == 0 {
                return (p, true);
            }
            if sign > 0 {
                return (p, false);
            }
            p = p + 1;
        }
        (p, false)
    }

    /// Replaces the selection with exactly one series.
    pub fn select_only(&mut self, series_id: SeriesId)
        ensures
            final(self)@.selected == Set::<Seq<char>>::empty().insert(series_id@),
            final(self)@.hovered == old(self)@.hovered,
    {
        let ghost id = series_id@;
        let mut only: Vec<SeriesId> = Vec::new();
        only.push(series_id);
        proof {
            assert(series_ids(only@) =~= seq![id]);
        }
        self.selected = only;
        proof {
            assert(seq![id].to_set() =~= Set::<Seq<char>>::empty().insert(id)) by {
                assert(seq![id][0] == id);
            }
        }
    }

    /// Adds the series when absent and removes it when present; returns
    /// whether it is selected afterwards.
    pub fn toggle(&mut self, series_id: SeriesId) -> (now_selected: bool)
        ensures
            now_selected == !old(self)@.selected.contains(series_id@),
            final(self)@.selected == toggled(old(self)@.selected, series_id@),
            final(self)@.hovered == old(self)@.hovered,
    {
        proof {
            use_type_invariant(&*self);
        }
        let ghost before = series_ids(self.selected@);
        let ghost id = series_id@;
        let (index, found) = self.seek(&series_id);
        let mut selected: Vec<SeriesId> = Vec::new();
        std::mem::swap(&mut selected, &mut self.selected);
        if found {
            selected.remove(index);
            proof {
                let after = series_ids(selected@);
                assert(after =~= before.remove(index as int));
                assert(before[index as int] == id);
                assert(strictly_increasing(after)) by {
                    assert forall|i: int, j: int| 0 <= i < j < after.len() implies text_sign(
                        #[trigger] after[i],
                        #[trigger] after[j],
                    ) < 0 by {
                        let bi = if i < index { i } else { i + 1 };
                        let bj = if j < index { j } else { j + 1 };
                        assert(after[i] == before[bi] && after[j] == before[bj]);
                    }
                }
                assert(after.to_set() =~= before.to_set().remove(id)) by {
                    assert forall|x: Seq<char>| after.to_set().contains(x) implies before.to_set().remove(id).contains(x) by {
                        let k = choose|k: int| 0 <= k < after.len() && after[k] == x;
                        let bk = if k < index { k } else { k + 1 };
                        assert(before[bk] == x);
                        lemma_text_sign(before[bk], id);
                        if bk < index {
                            assert(text_sign(before[bk], before[index as int]) < 0);
                        } else {
                            assert(text_sign(before[index as int], before[bk]) < 0);
                        }
                    }
                    assert forall|x: Seq<char>| before.to_set().remove(id).contains(x) implies after.to_set().contains(x) by {
                        let k = choose|k: int| 0 <= k < before.len() && before[k] == x;
                        assert(k != index);
                        if k < index {
                            assert(after[k] == x);
                        } else {
                            assert(after[k - 1] == x);
                        }
                    }
                }
            }
            self.selected = selected;
            false
        } else {
            selected.insert(index, series_id);
            proof {
                let after = series_ids(selected@);
                assert(after =~= before.insert(index as int, id));
                assert forall|j: int| index <= j < before.len() implies text_sign(id, #[trigger] before[j]) < 0 by {
                    if j > index {
                        lemma_text_sign_chain(id, before[index as int], before[j]);
                    }
                }
                assert(strictly_increasing(after)) by {
                    assert forall|i: int, j: int| 0 <= i < j < after.len() implies text_sign(
                        #[trigger] after[i],
                        #[trigger] after[j],
                    ) < 0 by {
                        if j < index {
                        } else if j == index {
                        } else if i == index {
                            assert(after[j] == before[j - 1]);
                        } else if i < index {
                            assert(after[j] == before[j - 1]);
                            lemma_text_sign_chain(before[i], id, before[j - 1]);
                        } else {
                            assert(after[i] == before[i - 1] && after[j] == before[j - 1]);
                        }
                    }
                }
                assert(!before.to_set().contains(id)) by {
                    if before.to_set().contains(id) {
                        let k = choose|k: int| 0 <= k < before.len() && before[k] == id;
                        lemma_text_sign(id, id);
                    }
                }
                assert(after.to_set() =~= before.to_set().insert(id)) by {
                    assert forall|x: Seq<char>| after.to_set().contains(x) implies before.to_set().insert(id).contains(x) by {
                        let k = choose|k: int| 0 <= k < after.len() && after[k] == x;
                        if k < index {
                            assert(before[k] == x);
                        } else if k > index {
                            assert(before[k - 1] == x);
                        }
                    }
                    assert forall|x: Seq<char>| before.to_set().insert(id).contains(x) implies after.to_set().contains(x) by {
                        if x == id {
                            assert(after[index as int] == x);
                        } else {
                            let k = choose|k: int| 0 <= k < before.len() && before[k] == x;
                            if k < index {
                                assert(after[k] == x);
                            } else {
                                assert(after[k + 1] == x);
                            }
                        }
                    }
                }
            }
            self.selected = selected;
            true
        }
    }

    /// Sets or clears the hovered series.
    pub fn set_hovered(&mut self, series_id: Option<SeriesId>)
        ensures
            final(self)@.selected == old(self)@.selected,
            final(self)@.hovered == optional_id(series_id),
    {
        proof {
            use_type_invariant(&*self);
        }
        self.hovered = series_id;
    }

    /// Clears both the selection and the hovered series.
    pub fn clear(&mut self)
        ensures
            final(self)@.selected == Set::<Seq<char>>::empty(),
            final(self)@.hovered is None,
    {
        self.selected = Vec::new();
        self.hovered = None;
        proof {
            assert(series_ids(self.selected@).to_set() =~= Set::<Seq<char>>::empty());
        }
    }
}

impl Default for SelectionState {
    fn default() -> (state: Self)
        ensures
            state@.selected == Set::<Seq<char>>::empty(),
            state@.hovered is None,
    {
        let state = SelectionState { selected: Vec::new(), hovered: None };
        proof {
            assert(series_ids(state.selected@).to_set() =~= Set::<Seq<char>>::empty());
        }
        state
    }
}

/// Toggling the same series twice restores the selected set.
pub proof fn toggle_twice_restores(s: Set<Seq<char>>, id: Seq<char>)
    ensures
        toggled(toggled(s, id), id) == s,
{
    if s.contains(id) {
        assert(s.remove(id).insert(id) =~= s);
    } else {
        assert(s.insert(id).remove(id) =~= s);
    }
}


/// Most Runs one View may select at once.
pub const MAX_SELECTED_RUNS: usize = 10;

/// Invalid user selection transitions.
#[derive(Clone, Copy, Debug, PartialEq, Eq, Structural)]
pub enum SelectionError {
    /// Adding one more Run would exceed [`MAX_SELECTED_RUNS`].
    RunLimit,
}

impl SelectionError {
    /// The user-facing description of the error.
    pub fn message(&self) -> (text: &'static str)
        ensures
            text@ == "at most 10 Runs can be selected"@,
    {
        "at most 10 Runs can be selected"
    }
}

/// The identities held by a sequence of Run references.
pub open spec fn run_views(s: Seq<RunRef>) -> Seq<RunRefView> {
    s.map_values(|r: RunRef| r@)
}

/// `i` is the position of the first occurrence of `x` in `s`.
pub open spec fn first_occurrence<T>(s: Seq<T>, x: T, i: int) -> bool {
    &&& 0 <= i < s.len()
    &&& s[i] == x
    &&& forall|j: int| 0 <= j < i ==> s[j] != x
}

/// How one toggle changes an ordered Run selection: a selected Run is removed
/// at its first position; an unselected one is appended unless the selection
/// already holds the maximum, which is refused without change.
pub open spec fn run_toggle_step(
    before: Seq<RunRefView>,
    run: RunRefView,
    after: Seq<RunRefView>,
    outcome: Result<bool, SelectionError>,
) -> bool {
    match outcome {
        Ok(false) => exists|i: int| first_occurrence(before, run, i) && after == before.remove(i),
        Ok(true) => !before.contains(run) && before.len() != MAX_SELECTED_RUNS && after
            == before.push(run),
        Err(SelectionError::RunLimit) => !before.contains(run) && before.len()
            == MAX_SELECTED_RUNS && after == before,
    }
}

/// Toggles one composite Run identity in a View-owned ordered selection.
pub fn toggle_run_selection(runs: &mut Vec<RunRef>, run: RunRef) -> (outcome: Result<
    bool,
    SelectionError,
>)
    ensures
        run_toggle_step(run_views(old(runs)@), run@, run_views(final(runs)@), outcome),
{
    let ghost before = run_views(runs@);
    let mut i: usize = 0;
    while i < runs.len()
        invariant
            i <= runs@.len(),
            before == run_views(runs@),
            before == run_views(old(runs)@),
            forall|j: int| 0 <= j < i ==> before[j] != run@,
        decreases runs@.len() - i,
    {
        if runs[i].same_as(&run) {
            runs.remove(i);
            proof {
                assert(run_views(runs@) =~= before.remove(i as int));
                assert(first_occurrence(before, run@, i as int));
                assert(first_occurrence(before, run@, i as int) && run_views(runs@) == before.remove(
                    i as int,
                ));
            }
            return Ok(false);
        }
        i = i + 1;
    }
    proof {
        if before.contains(run@) {
            let k = choose|k: int| 0 <= k < before.len() && before[k] == run@;
            assert(false);
        }
    }
    if runs.len() == MAX_SELECTED_RUNS {
        return Err(SelectionError::RunLimit);
    }
    runs.push(run);
    proof {
        assert(run_views(runs@) =~= before.push(run@));
    }
    Ok(true)
}

/// A selection that starts within the limit never grows beyond it.
pub proof fn run_selection_stays_within_limit(
    before: Seq<RunRefView>,
    run: RunRefView,
    after: Seq<RunRefView>,
    outcome: Result<bool, SelectionError>,
)
    requires
        before.len() <= MAX_SELECTED_RUNS,
        run_toggle_step(before, run, after, outcome),
    ensures
        after.len() <= MAX_SELECTED_RUNS,
{
}

/// A selection that holds each Run once keeps holding each Run once.
pub proof fn run_selection_stays_distinct(
    before: Seq<RunRefView>,
    run: RunRefView,
    after: Seq<RunRefView>,
    outcome: Result<bool, SelectionError>,
)
    requires
        all_distinct(before),
        run_toggle_step(before, run, after, outcome),
    ensures
        all_distinct(after),
{
    match outcome {
        Ok(false) => {
            let i = choose|i: int| first_occurrence(before, run, i) && after == before.remove(i);
            assert forall|a: int, b: int| 0 <= a < b < after.len() implies after[a] != after[b] by {
                let a2 = if a < i { a } else { a + 1 };
                let b2 = if b < i { b } else { b + 1 };
                assert(after[a] == before[a2]);
                assert(after[b] == before[b2]);
            }
        },
        Ok(true) => {
            assert forall|a: int, b: int| 0 <= a < b < after.len() implies after[a] != after[b] by {
                if b == before.len() {
                    assert(before.contains(before[a]));
                }
            }
        },
        Err(_) => {},
    }
}

/// Toggling an unselected Run on and then off again restores the selection.
pub proof fn run_toggle_twice_restores(
    before: Seq<RunRefView>,
    run: RunRefView,
    middle: Seq<RunRefView>,
    after: Seq<RunRefView>,
    second: Result<bool, SelectionError>,
)
    requires
        run_toggle_step(before, run, middle, Ok(true)),
        run_toggle_step(middle, run, after, second),
    ensures
        second == Ok::<bool, SelectionError>(false),
        after == before,
{
    assert(middle[before.len() as int] == run);
    assert(middle.contains(run));
    match second {
        Ok(false) => {
            let i = choose|i: int| first_occurrence(middle, run, i) && after == middle.remove(i);
            if i < before.len() {
                assert(before[i] == run);
                assert(before.contains(run));
            }
            assert(after =~= before);
        },
        Ok(true) => {},
        Err(_) => {},
    }
}

} // verus!
