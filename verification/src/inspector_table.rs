//! Ordering the rows of the Metric inspector table: baseline first, then
//! pinned Runs, then the rest; within each group by the sorted column, and
//! by snapshot order where the column does not decide.

use vstd::prelude::*;
use vstd::relations::sorted_by;
use std::cmp::Ordering;

use crate::ids::RunRef;
use crate::inspector::{
    compare_optional, directed, inspector_evidence_order, inspector_row_group,
    inspector_status_order, EvidenceCompleteness, InspectorColumn, InspectorSort,
    InspectorSortDirection,
};
use crate::runs::RunStatus;
use crate::table_keys::{
    count_cell, count_key, cursor_key, evidence_rank, float_key, float_rank, group_rank, order_key,
    order_rank, rank_key, status_rank, step_cell, step_key, text_sign, text_sign_of,
    lemma_text_sign, lemma_text_sign_chain,
};

verus! {

/// One row of the inspector table. Floating-point cells are carried as their
/// IEEE-754 bit patterns; a cursor cell pairs an axis position with one.
#[derive(Debug)]
pub struct InspectorRow {
    pub run_ref: RunRef,
    pub run_label: String,
    pub project_label: String,
    pub status: RunStatus,
    pub evidence: EvidenceCompleteness,
    pub evidence_label: String,
    pub count: Option<u64>,
    pub last_step: Option<i64>,
    pub last_value: Option<u64>,
    pub minimum: Option<u64>,
    pub maximum: Option<u64>,
    pub locked: Option<(i64, u64)>,
    pub hover: Option<(i64, u64)>,
    pub baseline: bool,
    pub pinned: bool,
    pub original_order: usize,
}

/// Ascending comparison of two keys.
pub open spec fn key_order(a: i128, b: i128) -> Ordering {
    if a < b {
        Ordering::Less
    } else if a == b {
        Ordering::Equal
    } else {
        Ordering::Greater
    }
}

/// Lexicographic comparison of two texts, character by character.
pub open spec fn text_order(a: Seq<char>, b: Seq<char>) -> Ordering {
    key_order(text_sign(a, b), 0)
}

/// Optional cells: present values in the sort direction, and a present
/// value before a missing one in either direction.
pub open spec fn optional_order(
    left: Option<i128>,
    right: Option<i128>,
    direction: InspectorSortDirection,
) -> Ordering {
    match (left, right) {
        (Some(l), Some(r)) => directed(direction, key_order(l, r)),
        (Some(_), None) => Ordering::Less,
        (None, Some(_)) => Ordering::Greater,
        (None, None) => Ordering::Equal,
    }
}

/// The key of a floating-point cell.
pub open spec fn float_cell(bits: Option<u64>) -> Option<i128> {
    match bits {
        Some(b) => Some(float_rank(b)),
        None => None,
    }
}

/// The key of a cursor cell: its value's bit pattern ranked.
pub open spec fn cursor_cell(cell: Option<(i64, u64)>) -> Option<i128> {
    match cell {
        Some((_, b)) => Some(float_rank(b)),
        None => None,
    }
}

/// How the sorted column orders two rows.
pub open spec fn column_order(sort: InspectorSort, l: InspectorRow, r: InspectorRow) -> Ordering {
    let d = sort.direction;
    match sort.column {
        InspectorColumn::Run => directed(d, text_order(l.run_label@, r.run_label@)),
        InspectorColumn::LastValue => optional_order(float_cell(l.last_value), float_cell(r.last_value), d),
        InspectorColumn::Minimum => optional_order(float_cell(l.minimum), float_cell(r.minimum), d),
        InspectorColumn::Maximum => optional_order(float_cell(l.maximum), float_cell(r.maximum), d),
        InspectorColumn::Locked => optional_order(cursor_cell(l.locked), cursor_cell(r.locked), d),
        InspectorColumn::Hover => optional_order(cursor_cell(l.hover), cursor_cell(r.hover), d),
        InspectorColumn::Count => optional_order(count_cell(l.count), count_cell(r.count), d),
        InspectorColumn::LastStep => optional_order(step_cell(l.last_step), step_cell(r.last_step), d),
        InspectorColumn::Status => directed(d, key_order(status_rank(l.status), status_rank(r.status))),
        InspectorColumn::Evidence => directed(d, key_order(evidence_rank(l.evidence), evidence_rank(r.evidence))),
        InspectorColumn::Project => directed(d, text_order(l.project_label@, r.project_label@)),
    }
}

/// `first`, unless it is `Equal`, in which case `next` decides.
pub open spec fn then_order(first: Ordering, next: Ordering) -> Ordering {
    if first == Ordering::Equal {
        next
    } else {
        first
    }
}

/// The order of the whole table: group, then the sorted column if any, then
/// snapshot order.
pub open spec fn row_order(sort: Option<InspectorSort>, l: InspectorRow, r: InspectorRow) -> Ordering {
    then_order(
        key_order(group_rank(l.baseline, l.pinned), group_rank(r.baseline, r.pinned)),
        match sort {
            None => key_order(order_rank(l.original_order), order_rank(r.original_order)),
            Some(s) => then_order(
                column_order(s, l, r),
                key_order(order_rank(l.original_order), order_rank(r.original_order)),
            ),
        },
    )
}

/// `l` may stand before `r` in the table.
pub open spec fn row_before(sort: Option<InspectorSort>, l: InspectorRow, r: InspectorRow) -> bool {
    row_order(sort, l, r) != Ordering::Greater
}

/// The comparison seen from the other side.
pub open spec fn flipped(o: Ordering) -> Ordering {
    directed(InspectorSortDirection::Descending, o)
}

proof fn lemma_text_order_flip(a: Seq<char>, b: Seq<char>)
    ensures
        text_order(b, a) == flipped(text_order(a, b)),
        (text_order(a, b) == Ordering::Equal) == (a == b),
{
    lemma_text_sign(a, b);
}

proof fn lemma_text_order_less(a: Seq<char>, b: Seq<char>, c: Seq<char>)
    requires
        text_order(a, b) == Ordering::Less,
        text_order(b, c) == Ordering::Less,
    ensures
        text_order(a, c) == Ordering::Less,
{
    lemma_text_sign_chain(a, b, c);
}

proof fn lemma_directed(d: InspectorSortDirection, o: Ordering)
    ensures
        flipped(directed(d, o)) == directed(d, flipped(o)),
        (directed(d, o) == Ordering::Equal) == (o == Ordering::Equal),
        flipped(flipped(o)) == o,
{
}

/// What the column's comparison of one pair of rows tells about a third.
proof fn lemma_column_order(s: InspectorSort, a: InspectorRow, b: InspectorRow, c: InspectorRow)
    ensures
        column_order(s, b, a) == flipped(column_order(s, a, b)),
        column_order(s, a, b) == Ordering::Equal ==> column_order(s, a, c) == column_order(s, b, c),
        column_order(s, a, b) == Ordering::Less && column_order(s, b, c) == Ordering::Less
            ==> column_order(s, a, c) == Ordering::Less,
{
    let d = s.direction;
    match s.column {
        InspectorColumn::Run => {
            lemma_text_order_flip(a.run_label@, b.run_label@);
            lemma_text_order_flip(b.run_label@, c.run_label@);
            lemma_text_order_flip(a.run_label@, c.run_label@);
            lemma_directed(d, text_order(a.run_label@, b.run_label@));
            if column_order(s, a, b) == Ordering::Less && column_order(s, b, c) == Ordering::Less {
                if d == InspectorSortDirection::Ascending {
                    lemma_text_order_less(a.run_label@, b.run_label@, c.run_label@);
                } else {
                    lemma_text_order_less(c.run_label@, b.run_label@, a.run_label@);
                }
            }
        },
        InspectorColumn::Project => {
            lemma_text_order_flip(a.project_label@, b.project_label@);
            lemma_text_order_flip(b.project_label@, c.project_label@);
            lemma_text_order_flip(a.project_label@, c.project_label@);
            lemma_directed(d, text_order(a.project_label@, b.project_label@));
            if column_order(s, a, b) == Ordering::Less && column_order(s, b, c) == Ordering::Less {
                if d == InspectorSortDirection::Ascending {
                    lemma_text_order_less(a.project_label@, b.project_label@, c.project_label@);
                } else {
                    lemma_text_order_less(c.project_label@, b.project_label@, a.project_label@);
                }
            }
        },
        _ => {},
    }
}

/// The table order is a total preorder: it flips with its arguments, and it
/// chains.
pub proof fn table_order_is_a_total_preorder(sort: Option<InspectorSort>, a: InspectorRow, b: InspectorRow, c: InspectorRow)
    ensures
        row_order(sort, b, a) == flipped(row_order(sort, a, b)),
        row_before(sort, a, b) && row_before(sort, b, c) ==> row_before(sort, a, c),
        row_order(sort, a, b) == Ordering::Less && row_before(sort, b, c)
            ==> row_order(sort, a, c) == Ordering::Less,
{
    if let Some(s) = sort {
        lemma_column_order(s, a, b, c);
        lemma_column_order(s, b, c, a);
        lemma_column_order(s, a, c, b);
        lemma_column_order(s, b, a, c);
        lemma_column_order(s, c, b, a);
        lemma_column_order(s, c, a, b);
    }
}

/// Compares two texts character by character.
pub fn compare_text(a: &str, b: &str) -> (ordering: Ordering)
    ensures
        ordering == text_order(a@, b@),
{
    compare_keys(text_sign_of(a, b), 0)
}

/// Ascending comparison of two keys.
pub fn compare_keys(a: i128, b: i128) -> (ordering: Ordering)
    ensures
        ordering == key_order(a, b),
{
    if a < b {
        Ordering::Less
    } else if a == b {
        Ordering::Equal
    } else {
        Ordering::Greater
    }
}

/// How the sorted column orders two rows.
pub fn compare_inspector_rows(sort: InspectorSort, left: &InspectorRow, right: &InspectorRow) -> (ordering: Ordering)
    ensures
        ordering == column_order(sort, *left, *right),
{
    let direction = sort.direction;
    let by_key = |a: &i128, b: &i128| -> (o: Ordering)
        ensures
            o == key_order(*a, *b),
        { compare_keys(*a, *b) };
    match sort.column {
        InspectorColumn::Run => direction.orient(compare_text(left.run_label.as_str(), right.run_label.as_str())),
        InspectorColumn::LastValue => compare_optional(float_key(left.last_value), float_key(right.last_value), direction, by_key),
        InspectorColumn::Minimum => compare_optional(float_key(left.minimum), float_key(right.minimum), direction, by_key),
        InspectorColumn::Maximum => compare_optional(float_key(left.maximum), float_key(right.maximum), direction, by_key),
        InspectorColumn::Locked => compare_optional(cursor_key(left.locked), cursor_key(right.locked), direction, by_key),
        InspectorColumn::Hover => compare_optional(cursor_key(left.hover), cursor_key(right.hover), direction, by_key),
        InspectorColumn::Count => compare_optional(count_key(left.count), count_key(right.count), direction, by_key),
        InspectorColumn::LastStep => compare_optional(step_key(left.last_step), step_key(right.last_step), direction, by_key),
        InspectorColumn::Status => direction.orient(compare_keys(
            rank_key(inspector_status_order(left.status)),
            rank_key(inspector_status_order(right.status)),
        )),
        InspectorColumn::Evidence => direction.orient(compare_keys(
            rank_key(inspector_evidence_order(left.evidence)),
            rank_key(inspector_evidence_order(right.evidence)),
        )),
        InspectorColumn::Project => direction.orient(compare_text(left.project_label.as_str(), right.project_label.as_str())),
    }
}

/// The order of the whole table: group, then the sorted column if any, then
/// snapshot order.
pub fn compare_table_rows(sort: Option<InspectorSort>, left: &InspectorRow, right: &InspectorRow) -> (ordering: Ordering)
    ensures
        ordering == row_order(sort, *left, *right),
{
    let by_group = compare_keys(
        rank_key(inspector_row_group(left.baseline, left.pinned)),
        rank_key(inspector_row_group(right.baseline, right.pinned)),
    );
    match by_group {
        Ordering::Equal => {},
        _ => return by_group,
    }
    let by_position = compare_keys(order_key(left.original_order), order_key(right.original_order));
    match sort {
        None => by_position,
        Some(s) => match compare_inspector_rows(s, left, right) {
            Ordering::Equal => by_position,
            by_column => by_column,
        },
    }
}

/// What a comparison `o` of two present cells ranked `a` and `b` means: the
/// lower rank first when ascending, the higher first when descending, a tie
/// only for equal ranks.
pub open spec fn ranked(o: Ordering, a: i128, b: i128, ascending: bool) -> bool {
    &&& (o == Ordering::Less) == (if ascending { a < b } else { b < a })
    &&& (o == Ordering::Equal) == (a == b)
}

/// What a comparison of two optional cells means: present cells by rank, a
/// present cell before a missing one in either direction, two missing cells
/// tie.
pub open spec fn optional_ranked(o: Ordering, l: Option<i128>, r: Option<i128>, ascending: bool) -> bool {
    match (l, r) {
        (Some(a), Some(b)) => ranked(o, a, b, ascending),
        (Some(_), None) => o == Ordering::Less,
        (None, Some(_)) => o == Ordering::Greater,
        (None, None) => o == Ordering::Equal,
    }
}

/// The rank of a floating-point cell by its value, if present.
pub open spec fn value_rank(bits: Option<u64>) -> Option<i128> {
    match bits {
        Some(b) => Some(float_rank(b)),
        None => None,
    }
}

/// The rank of the value found under a cursor, if any.
pub open spec fn found_rank(cell: Option<(i64, u64)>) -> Option<i128> {
    match cell {
        Some((_, b)) => Some(float_rank(b)),
        None => None,
    }
}

/// A count cell as a number, if present.
pub open spec fn count_number(count: Option<u64>) -> Option<i128> {
    match count {
        Some(c) => Some(c as i128),
        None => None,
    }
}

/// A step cell as a number, if present.
pub open spec fn step_number(step: Option<i64>) -> Option<i128> {
    match step {
        Some(c) => Some(c as i128),
        None => None,
    }
}

/// Each column orders two rows by that column's own cells, in the sort
/// direction: the Run and Project columns by their text, Last value, Min,
/// Max, Locked and Hover by the value in that cell (missing cells last in
/// either direction), Count and Last step by that number, Status running
/// before finished before failed, Evidence complete before partial before
/// unavailable before invalid.
pub proof fn each_column_orders_by_its_own_cells(s: InspectorSort, l: InspectorRow, r: InspectorRow)
    ensures
        ({
            let o = column_order(s, l, r);
            let up = s.direction == InspectorSortDirection::Ascending;
            &&& s.column == InspectorColumn::Run ==> ranked(o, text_sign(l.run_label@, r.run_label@), 0, up)
            &&& s.column == InspectorColumn::Project ==> ranked(o, text_sign(l.project_label@, r.project_label@), 0, up)
            &&& s.column == InspectorColumn::LastValue ==> optional_ranked(o, value_rank(l.last_value), value_rank(r.last_value), up)
            &&& s.column == InspectorColumn::Minimum ==> optional_ranked(o, value_rank(l.minimum), value_rank(r.minimum), up)
            &&& s.column == InspectorColumn::Maximum ==> optional_ranked(o, value_rank(l.maximum), value_rank(r.maximum), up)
            &&& s.column == InspectorColumn::Locked ==> optional_ranked(o, found_rank(l.locked), found_rank(r.locked), up)
            &&& s.column == InspectorColumn::Hover ==> optional_ranked(o, found_rank(l.hover), found_rank(r.hover), up)
            &&& s.column == InspectorColumn::Count ==> optional_ranked(o, count_number(l.count), count_number(r.count), up)
            &&& s.column == InspectorColumn::LastStep ==> optional_ranked(o, step_number(l.last_step), step_number(r.last_step), up)
            &&& s.column == InspectorColumn::Status ==> ranked(o, status_rank(l.status), status_rank(r.status), up)
            &&& s.column == InspectorColumn::Evidence ==> ranked(o, evidence_rank(l.evidence), evidence_rank(r.evidence), up)
        }),
{
    lemma_text_sign(l.run_label@, r.run_label@);
    lemma_text_sign(l.project_label@, r.project_label@);
}

/// Baseline rows come before all others and pinned rows before plain ones;
/// within a group the sorted column decides, and snapshot order decides
/// where the column ties or nothing is sorted.
pub proof fn groups_first_then_column_then_snapshot(sort: Option<InspectorSort>, l: InspectorRow, r: InspectorRow)
    ensures
        l.baseline && !r.baseline ==> row_order(sort, l, r) == Ordering::Less,
        !l.baseline && l.pinned && !r.baseline && !r.pinned ==> row_order(sort, l, r) == Ordering::Less,
        l.baseline == r.baseline && l.pinned == r.pinned ==> match sort {
            Some(s) => if column_order(s, l, r) != Ordering::Equal {
                row_order(sort, l, r) == column_order(s, l, r)
            } else {
                (row_order(sort, l, r) == Ordering::Less) == (l.original_order < r.original_order)
            },
            None => (row_order(sort, l, r) == Ordering::Less) == (l.original_order < r.original_order),
        },
{
}

/// `l` stands strictly before `r` in the table.
pub open spec fn row_less(sort: Option<InspectorSort>, l: InspectorRow, r: InspectorRow) -> bool {
    row_order(sort, l, r) == Ordering::Less
}

/// Whether `left` stands strictly before `right` in the table.
pub fn table_row_less(sort: Option<InspectorSort>, left: &InspectorRow, right: &InspectorRow) -> (less: bool)
    ensures
        less == row_less(sort, *left, *right),
{
    match compare_table_rows(sort, left, right) {
        Ordering::Less => true,
        _ => false,
    }
}

/// `l` and `r` tie in the table order: same group, same cell in the sorted
/// column, same snapshot position.
pub open spec fn row_tied(sort: Option<InspectorSort>, l: InspectorRow, r: InspectorRow) -> bool {
    row_order(sort, l, r) == Ordering::Equal
}

/// `perm` lists every position below `n` exactly once.
pub open spec fn is_permutation(perm: Seq<int>, n: int) -> bool {
    &&& perm.len() == n
    &&& forall|k: int| 0 <= k < n ==> 0 <= #[trigger] perm[k] < n
    &&& forall|k: int, l: int| 0 <= k < l < n ==> #[trigger] perm[k] != #[trigger] perm[l]
}

/// `after` holds the rows of `before` rearranged by `perm`, and rows that tie
/// keep their relative order.
pub open spec fn stable_rearrangement(
    sort: Option<InspectorSort>,
    before: Seq<InspectorRow>,
    after: Seq<InspectorRow>,
    perm: Seq<int>,
) -> bool {
    &&& is_permutation(perm, before.len() as int)
    &&& after.len() == before.len()
    &&& forall|k: int| 0 <= k < after.len() ==> #[trigger] after[k] == before[perm[k]]
    &&& forall|k: int, l: int|
        0 <= k < l < after.len() && row_tied(sort, #[trigger] after[k], #[trigger] after[l]) ==> perm[k] < perm[l]
}

/// The table order is total and chains.
proof fn lemma_row_before(sort: Option<InspectorSort>, a: InspectorRow, b: InspectorRow, c: InspectorRow)
    ensures
        !row_less(sort, a, b) ==> row_before(sort, b, a),
        row_less(sort, a, b) ==> row_before(sort, a, b),
        row_before(sort, a, b) && row_before(sort, b, c) ==> row_before(sort, a, c),
        row_less(sort, a, b) && row_before(sort, b, c) ==> row_less(sort, a, c),
        row_less(sort, a, b) ==> !row_tied(sort, a, b),
{
    table_order_is_a_total_preorder(sort, a, b, c);
}

proof fn lemma_insert_to_multiset(s: Seq<InspectorRow>, p: int, x: InspectorRow)
    requires
        0 <= p <= s.len(),
    ensures
        s.insert(p, x).to_multiset() =~= s.to_multiset().insert(x),
{
    broadcast use vstd::seq_lib::group_to_multiset_ensures;
}

/// Inserting a row before the first row it strictly precedes, after all the
/// rows it does not, keeps the rows sorted.
proof fn lemma_insert_sorted(sort: Option<InspectorSort>, out: Seq<InspectorRow>, x: InspectorRow, p: int)
    requires
        0 <= p <= out.len(),
        sorted_by(out, |a: InspectorRow, b: InspectorRow| row_before(sort, a, b)),
        forall|i: int| 0 <= i < p ==> !row_less(sort, x, #[trigger] out[i]),
        p < out.len() ==> row_less(sort, x, out[p]),
    ensures
        sorted_by(out.insert(p, x), |a: InspectorRow, b: InspectorRow| row_before(sort, a, b)),
        forall|l: int| p < l < out.len() + 1 ==> !row_tied(sort, x, #[trigger] out.insert(p, x)[l]),
{
    let t = out.insert(p, x);
    let before = |a: InspectorRow, b: InspectorRow| row_before(sort, a, b);
    assert forall|i: int, j: int| 0 <= i < j < t.len() implies #[trigger] before(t[i], t[j]) by {
        if j < p {
            assert(t[i] == out[i] && t[j] == out[j]);
        } else if j == p {
            assert(t[i] == out[i]);
            lemma_row_before(sort, x, out[i], x);
        } else if i == p {
            assert(t[j] == out[j - 1]);
            if j - 1 > p {
                assert(before(out[p], out[j - 1]));
            }
            lemma_row_before(sort, x, out[p], out[j - 1]);
        } else if i < p {
            assert(t[i] == out[i] && t[j] == out[j - 1]);
            assert(before(out[i], out[j - 1]));
        } else {
            assert(t[i] == out[i - 1] && t[j] == out[j - 1]);
            assert(before(out[i - 1], out[j - 1]));
        }
    }
    assert forall|l: int| p < l < out.len() + 1 implies !row_tied(sort, x, #[trigger] t[l]) by {
        assert(t[l] == out[l - 1]);
        if l - 1 > p {
            assert(before(out[p], out[l - 1]));
        }
        lemma_row_before(sort, x, out[p], out[l - 1]);
        lemma_row_before(sort, x, out[l - 1], out[l - 1]);
    }
}

/// Recording where the inserted row came from keeps `perm` a record of
/// input positions in which tied rows keep their input order.
proof fn lemma_insert_positions(
    sort: Option<InspectorSort>,
    out: Seq<InspectorRow>,
    perm: Seq<int>,
    initial: Seq<InspectorRow>,
    x: InspectorRow,
    p: int,
    done: int,
)
    requires
        0 <= p <= out.len(),
        out.len() == done,
        perm.len() == done,
        done < initial.len(),
        initial[done] == x,
        forall|l: int| p < l < out.len() + 1 ==> !row_tied(sort, x, #[trigger] out.insert(p, x)[l]),
        forall|k: int| 0 <= k < done ==> 0 <= #[trigger] perm[k] < done,
        forall|k: int, l: int| 0 <= k < l < done ==> #[trigger] perm[k] != #[trigger] perm[l],
        forall|k: int| 0 <= k < done ==> #[trigger] out[k] == initial[perm[k]],
        forall|k: int, l: int|
            0 <= k < l < done && row_tied(sort, #[trigger] out[k], #[trigger] out[l]) ==> perm[k] < perm[l],
    ensures
        forall|k: int| 0 <= k < done + 1 ==> 0 <= #[trigger] perm.insert(p, done)[k] < done + 1,
        forall|k: int, l: int| 0 <= k < l < done + 1 ==> #[trigger] perm.insert(p, done)[k] != #[trigger] perm.insert(p, done)[l],
        forall|k: int| 0 <= k < done + 1 ==> #[trigger] out.insert(p, x)[k] == initial[perm.insert(p, done)[k]],
        forall|k: int, l: int|
            0 <= k < l < done + 1 && row_tied(sort, #[trigger] out.insert(p, x)[k], #[trigger] out.insert(p, x)[l])
                ==> perm.insert(p, done)[k] < perm.insert(p, done)[l],
{
    let t = out.insert(p, x);
    let q = perm.insert(p, done);
    assert forall|k: int| 0 <= k < done + 1 implies 0 <= #[trigger] q[k] < done + 1 by {
        if k < p {
            assert(q[k] == perm[k]);
        } else if k > p {
            assert(q[k] == perm[k - 1]);
        }
    }
    assert forall|k: int, l: int| 0 <= k < l < done + 1 implies #[trigger] q[k] != #[trigger] q[l] by {
        if k != p && l != p {
            let ok = if k < p { k } else { k - 1 };
            let ol = if l < p { l } else { l - 1 };
            assert(q[k] == perm[ok] && q[l] == perm[ol]);
        } else if k == p {
            assert(q[l] == perm[l - 1]);
        } else {
            assert(q[k] == perm[k]);
        }
    }
    assert forall|k: int| 0 <= k < done + 1 implies #[trigger] t[k] == initial[q[k]] by {
        if k < p {
            assert(t[k] == out[k] && q[k] == perm[k]);
        } else if k > p {
            assert(t[k] == out[k - 1] && q[k] == perm[k - 1]);
        }
    }
    assert forall|k: int, l: int|
        0 <= k < l < done + 1 && row_tied(sort, #[trigger] t[k], #[trigger] t[l]) implies q[k] < q[l] by {
        if k != p && l != p {
            let ok = if k < p { k } else { k - 1 };
            let ol = if l < p { l } else { l - 1 };
            assert(t[k] == out[ok] && t[l] == out[ol]);
            assert(q[k] == perm[ok] && q[l] == perm[ol]);
        } else if l == p {
            assert(q[k] == perm[k]);
        } else {
            assert(t[k] == x);
        }
    }
}

/// Sorts the table: baseline rows first, then pinned rows, then the rest;
/// within each group by the sorted column, and by snapshot order where the
/// column does not decide (or no column is sorted).
pub fn sort_inspector_rows(rows: &mut Vec<InspectorRow>, sort: Option<InspectorSort>)
    ensures
        final(rows)@.to_multiset() == old(rows)@.to_multiset(),
        sorted_by(final(rows)@, |a: InspectorRow, b: InspectorRow| row_before(sort, a, b)),
        exists|perm: Seq<int>| stable_rearrangement(sort, old(rows)@, final(rows)@, perm),
{
    broadcast use vstd::seq_lib::group_to_multiset_ensures;
    let mut input: Vec<InspectorRow> = Vec::new();
    std::mem::swap(&mut input, rows);
    let ghost initial = input@;
    let ghost before = |a: InspectorRow, b: InspectorRow| row_before(sort, a, b);
    let mut out: Vec<InspectorRow> = Vec::new();
    let ghost mut perm: Seq<int> = Seq::empty();
    proof {
        assert(out@.to_multiset() =~= vstd::multiset::Multiset::empty());
        assert(initial.skip(0) =~= initial);
    }
    while input.len() > 0
        invariant
            out@.to_multiset().add(input@.to_multiset()) == initial.to_multiset(),
            sorted_by(out@, before),
            before == (|a: InspectorRow, b: InspectorRow| row_before(sort, a, b)),
            out@.len() + input@.len() == initial.len(),
            input@ == initial.skip(out@.len() as int),
            perm.len() == out@.len(),
            forall|k: int| 0 <= k < out@.len() ==> 0 <= #[trigger] perm[k] < out@.len(),
            forall|k: int, l: int| 0 <= k < l < out@.len() ==> #[trigger] perm[k] != #[trigger] perm[l],
            forall|k: int| 0 <= k < out@.len() ==> #[trigger] out@[k] == initial[perm[k]],
            forall|k: int, l: int|
                0 <= k < l < out@.len() && row_tied(sort, #[trigger] out@[k], #[trigger] out@[l]) ==> perm[k] < perm[l],
        decreases input@.len(),
    {
        let ghost rest = input@;
        let ghost done = out@.len() as int;
        let x = input.remove(0);
        proof {
            assert(x == initial[done]);
            assert(input@ =~= initial.skip(done + 1));
        }
        let mut p: usize = 0;
        let mut found = false;
        while p < out.len() && !found
            invariant
                p <= out@.len(),
                forall|i: int| 0 <= i < p ==> !row_less(sort, x, #[trigger] out@[i]),
                found ==> p < out@.len() && row_less(sort, x, out@[p as int]),
            decreases out@.len() - p + if found { 0int } else { 1int },
        {
            if table_row_less(sort, &x, &out[p]) {
                found = true;
            } else {
                p = p + 1;
            }
        }
        let ghost old_out = out@;
        let ghost old_perm = perm;
        proof {
            lemma_insert_to_multiset(old_out, p as int, x);
            vstd::seq_lib::to_multiset_remove(rest, 0);
            assert(rest.remove(0) == input@);
            assert(rest[0] == x);
            assert(rest.contains(x));
            vstd::seq_lib::to_multiset_contains(rest, x);
            assert(rest.to_multiset().count(x) > 0);
            lemma_insert_sorted(sort, old_out, x, p as int);
            lemma_insert_positions(sort, old_out, old_perm, initial, x, p as int, done);
        }
        out.insert(p, x);
        proof {
            perm = old_perm.insert(p as int, done);
            assert(out@ =~= old_out.insert(p as int, x));
            assert(out@.to_multiset() == old_out.to_multiset().insert(x));
            assert(input@.to_multiset() == rest.to_multiset().remove(x));
            assert(out@.to_multiset().add(input@.to_multiset()) =~= old_out.to_multiset().add(rest.to_multiset()));
        }
    }
    proof {
        assert(input@.to_multiset() =~= vstd::multiset::Multiset::empty());
        assert(out@.to_multiset() =~= initial.to_multiset());
        assert(stable_rearrangement(sort, initial, out@, perm));
    }
    *rows = out;
}

} // verus!
