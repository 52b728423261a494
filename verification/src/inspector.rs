//! Columns, ordering keys and sort directions of the Metric inspector table.

use vstd::prelude::*;
use std::cmp::Ordering;

use crate::runs::RunStatus;

verus! {

/// How complete the stored evidence behind one Run's curve is.
#[derive(Clone, Copy, Debug, PartialEq, Eq, Structural)]
pub enum EvidenceCompleteness {
    Complete,
    Partial,
    Unavailable,
    Invalid,
}

/// One column of the inspector table.
#[derive(Clone, Copy, Debug, PartialEq, Eq, Structural)]
pub enum InspectorColumn {
    Run,
    LastValue,
    Minimum,
    Maximum,
    Locked,
    Hover,
    Count,
    LastStep,
    Status,
    Evidence,
    Project,
}

/// The inspector columns in display order.
pub const INSPECTOR_COLUMNS: [InspectorColumn; 11] = [
    InspectorColumn::Run,
    InspectorColumn::LastValue,
    InspectorColumn::Minimum,
    InspectorColumn::Maximum,
    InspectorColumn::Locked,
    InspectorColumn::Hover,
    InspectorColumn::Count,
    InspectorColumn::LastStep,
    InspectorColumn::Status,
    InspectorColumn::Evidence,
    InspectorColumn::Project,
];

/// The position of a column in display order.
pub open spec fn column_index(column: InspectorColumn) -> nat {
    match column {
        InspectorColumn::Run => 0,
        InspectorColumn::LastValue => 1,
        InspectorColumn::Minimum => 2,
        InspectorColumn::Maximum => 3,
        InspectorColumn::Locked => 4,
        InspectorColumn::Hover => 5,
        InspectorColumn::Count => 6,
        InspectorColumn::LastStep => 7,
        InspectorColumn::Status => 8,
        InspectorColumn::Evidence => 9,
        InspectorColumn::Project => 10,
    }
}

/// The stable element key of a column.
pub open spec fn column_key(column: InspectorColumn) -> Seq<char> {
    match column {
        InspectorColumn::Run => "run"@,
        InspectorColumn::LastValue => "last-value"@,
        InspectorColumn::Minimum => "min"@,
        InspectorColumn::Maximum => "max"@,
        InspectorColumn::Locked => "locked"@,
        InspectorColumn::Hover => "hover"@,
        InspectorColumn::Count => "count"@,
        InspectorColumn::LastStep => "last-step"@,
        InspectorColumn::Status => "status"@,
        InspectorColumn::Evidence => "evidence"@,
        InspectorColumn::Project => "project"@,
    }
}

/// The header text of a column.
pub open spec fn column_label(column: InspectorColumn) -> Seq<char> {
    match column {
        InspectorColumn::Run => "Run"@,
        InspectorColumn::LastValue => "Last value"@,
        InspectorColumn::Minimum => "Min"@,
        InspectorColumn::Maximum => "Max"@,
        InspectorColumn::Locked => "Locked"@,
        InspectorColumn::Hover => "Hover"@,
        InspectorColumn::Count => "Count"@,
        InspectorColumn::LastStep => "Last step"@,
        InspectorColumn::Status => "Status"@,
        InspectorColumn::Evidence => "Evidence"@,
        InspectorColumn::Project => "Project"@,
    }
}

impl InspectorColumn {
    /// The stable element key of the column.
    pub fn key(self) -> (key: &'static str)
        ensures
            key@ == column_key(self),
    {
        match self {
            InspectorColumn::Run => "run",
            InspectorColumn::LastValue => "last-value",
            InspectorColumn::Minimum => "min",
            InspectorColumn::Maximum => "max",
            InspectorColumn::Locked => "locked",
            InspectorColumn::Hover => "hover",
            InspectorColumn::Count => "count",
            InspectorColumn::LastStep => "last-step",
            InspectorColumn::Status => "status",
            InspectorColumn::Evidence => "evidence",
            InspectorColumn::Project => "project",
        }
    }

    /// The header text of the column.
    pub fn label(self) -> (label: &'static str)
        ensures
            label@ == column_label(self),
    {
        match self {
            InspectorColumn::Run => "Run",
            InspectorColumn::LastValue => "Last value",
            InspectorColumn::Minimum => "Min",
            InspectorColumn::Maximum => "Max",
            InspectorColumn::Locked => "Locked",
            InspectorColumn::Hover => "Hover",
            InspectorColumn::Count => "Count",
            InspectorColumn::LastStep => "Last step",
            InspectorColumn::Status => "Status",
            InspectorColumn::Evidence => "Evidence",
            InspectorColumn::Project => "Project",
        }
    }

    /// The position of the column in display order.
    pub fn index(self) -> (index: usize)
        ensures
            index == column_index(self),
    {
        match self {
            InspectorColumn::Run => 0,
            InspectorColumn::LastValue => 1,
            InspectorColumn::Minimum => 2,
            InspectorColumn::Maximum => 3,
            InspectorColumn::Locked => 4,
            InspectorColumn::Hover => 5,
            InspectorColumn::Count => 6,
            InspectorColumn::LastStep => 7,
            InspectorColumn::Status => 8,
            InspectorColumn::Evidence => 9,
            InspectorColumn::Project => 10,
        }
    }

    /// Whether the column holds numbers, which are right-aligned.
    pub fn right_aligned(self) -> (right: bool)
        ensures
            right == (self is LastValue || self is Minimum || self is Maximum || self is Locked
                || self is Hover || self is Count || self is LastStep),
    {
        match self {
            InspectorColumn::LastValue | InspectorColumn::Minimum | InspectorColumn::Maximum
            | InspectorColumn::Locked | InspectorColumn::Hover | InspectorColumn::Count
            | InspectorColumn::LastStep => true,
            _ => false,
        }
    }

    /// Whether the column is drawn with a left border.
    pub fn has_left_border(self) -> (border: bool)
        ensures
            border == !(self is Run || self is LastValue),
    {
        match self {
            InspectorColumn::Run | InspectorColumn::LastValue => false,
            _ => true,
        }
    }
}

/// The columns in display order, as a sequence.
pub open spec fn columns_in_order() -> Seq<InspectorColumn> {
    seq![
        InspectorColumn::Run,
        InspectorColumn::LastValue,
        InspectorColumn::Minimum,
        InspectorColumn::Maximum,
        InspectorColumn::Locked,
        InspectorColumn::Hover,
        InspectorColumn::Count,
        InspectorColumn::LastStep,
        InspectorColumn::Status,
        InspectorColumn::Evidence,
        InspectorColumn::Project,
    ]
}

/// Each column sits at its own index in display order, and distinct columns
/// have distinct keys.
pub proof fn column_index_and_key_identify_the_column(a: InspectorColumn, b: InspectorColumn)
    ensures
        column_index(a) < 11,
        columns_in_order()[column_index(a) as int] == a,
        a != b ==> column_key(a) != column_key(b),
{
    reveal_strlit("run");
    reveal_strlit("last-value");
    reveal_strlit("min");
    reveal_strlit("max");
    reveal_strlit("locked");
    reveal_strlit("hover");
    reveal_strlit("count");
    reveal_strlit("last-step");
    reveal_strlit("status");
    reveal_strlit("evidence");
    reveal_strlit("project");
    if a != b {
        if column_key(a).len() == column_key(b).len() {
            if column_key(a)[0] == column_key(b)[0] {
                assert(column_key(a)[1] != column_key(b)[1]);
            }
        }
    }
}

/// Sort direction of the inspector table.
#[derive(Clone, Copy, Debug, PartialEq, Eq, Structural)]
pub enum InspectorSortDirection {
    Ascending,
    Descending,
}

/// The sorted column and its direction.
#[derive(Clone, Copy, Debug, PartialEq, Eq, Structural)]
pub struct InspectorSort {
    pub column: InspectorColumn,
    pub direction: InspectorSortDirection,
}

/// `ordering` as seen in `direction`: unchanged ascending, reversed descending.
pub open spec fn directed(direction: InspectorSortDirection, ordering: Ordering) -> Ordering {
    match direction {
        InspectorSortDirection::Ascending => ordering,
        InspectorSortDirection::Descending => match ordering {
            Ordering::Less => Ordering::Greater,
            Ordering::Equal => Ordering::Equal,
            Ordering::Greater => Ordering::Less,
        },
    }
}

impl InspectorSortDirection {
    /// Applies the direction to an ascending comparison.
    pub fn orient(self, ordering: Ordering) -> (directed_ordering: Ordering)
        ensures
            directed_ordering == directed(self, ordering),
    {
        match self {
            InspectorSortDirection::Ascending => ordering,
            InspectorSortDirection::Descending => match ordering {
                Ordering::Less => Ordering::Greater,
                Ordering::Equal => Ordering::Equal,
                Ordering::Greater => Ordering::Less,
            },
        }
    }
}

/// Reversing twice restores a comparison.
pub proof fn descending_twice_is_ascending(ordering: Ordering)
    ensures
        directed(InspectorSortDirection::Descending, directed(InspectorSortDirection::Descending, ordering))
            == ordering,
{
}

/// Compares two optional cells: present values by `compare` in the sort
/// direction; a present value always before a missing one.
pub fn compare_optional<T: Copy>(
    left: Option<T>,
    right: Option<T>,
    direction: InspectorSortDirection,
    compare: impl FnOnce(&T, &T) -> Ordering,
) -> (ordering: Ordering)
    requires
        left is Some && right is Some ==> call_requires(compare, (&left->0, &right->0)),
    ensures
        match (left, right) {
            (Some(l), Some(r)) => exists|o: Ordering| call_ensures(compare, (&l, &r), o) && ordering == directed(direction, o),
            (Some(_), None) => ordering == Ordering::Less,
            (None, Some(_)) => ordering == Ordering::Greater,
            (None, None) => ordering == Ordering::Equal,
        },
{
    match (left, right) {
        (Some(l), Some(r)) => {
            let o = compare(&l, &r);
            direction.orient(o)
        },
        (Some(_), None) => Ordering::Less,
        (None, Some(_)) => Ordering::Greater,
        (None, None) => Ordering::Equal,
    }
}

/// Baseline rows sort first, then pinned rows, then the rest.
pub fn inspector_row_group(baseline: bool, pinned: bool) -> (group: u8)
    ensures
        group == if baseline { 0u8 } else if pinned { 1u8 } else { 2u8 },
{
    if baseline {
        0
    } else if pinned {
        1
    } else {
        2
    }
}

/// Sort rank of a Run status: running, finished, failed.
pub fn inspector_status_order(status: RunStatus) -> (rank: u8)
    ensures
        rank == match status {
            RunStatus::Running => 0u8,
            RunStatus::Finished => 1u8,
            RunStatus::Failed => 2u8,
        },
{
    match status {
        RunStatus::Running => 0,
        RunStatus::Finished => 1,
        RunStatus::Failed => 2,
    }
}

/// Sort rank of evidence completeness: complete, partial, unavailable, invalid.
pub fn inspector_evidence_order(evidence: EvidenceCompleteness) -> (rank: u8)
    ensures
        rank == match evidence {
            EvidenceCompleteness::Complete => 0u8,
            EvidenceCompleteness::Partial => 1u8,
            EvidenceCompleteness::Unavailable => 2u8,
            EvidenceCompleteness::Invalid => 3u8,
        },
{
    match evidence {
        EvidenceCompleteness::Complete => 0,
        EvidenceCompleteness::Partial => 1,
        EvidenceCompleteness::Unavailable => 2,
        EvidenceCompleteness::Invalid => 3,
    }
}

/// The sort after a click on a column header: ascending on a new column,
/// then descending, then unsorted.
pub open spec fn clicked_sort(current: Option<InspectorSort>, column: InspectorColumn) -> Option<InspectorSort> {
    match current {
        Some(s) => if s.column == column && s.direction == InspectorSortDirection::Ascending {
            Some(InspectorSort { column, direction: InspectorSortDirection::Descending })
        } else if s.column == column {
            None
        } else {
            Some(InspectorSort { column, direction: InspectorSortDirection::Ascending })
        },
        None => Some(InspectorSort { column, direction: InspectorSortDirection::Ascending }),
    }
}

/// The sort after a click on the header of `column`.
pub fn next_inspector_sort(current: Option<InspectorSort>, column: InspectorColumn) -> (next: Option<InspectorSort>)
    ensures
        next == clicked_sort(current, column),
{
    match current {
        Some(s) => if s.column == column && s.direction == InspectorSortDirection::Ascending {
            Some(InspectorSort { column, direction: InspectorSortDirection::Descending })
        } else if s.column == column {
            None
        } else {
            Some(InspectorSort { column, direction: InspectorSortDirection::Ascending })
        },
        None => Some(InspectorSort { column, direction: InspectorSortDirection::Ascending }),
    }
}

/// Three clicks on one column header return any sort on that column, or no
/// sort, to where it was.
pub proof fn three_clicks_cycle_the_sort(current: Option<InspectorSort>, column: InspectorColumn)
    requires
        match current {
            Some(s) => s.column == column,
            None => true,
        },
    ensures
        clicked_sort(clicked_sort(clicked_sort(current, column), column), column) == current,
{
}

} // verus!
