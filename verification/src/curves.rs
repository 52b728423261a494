//! The decisions a curve query makes around its storage reads: which axis
//! and viewport storage is asked for, which selected Run a stored Run
//! answers, which answers are drawable, and the data range they cover.

use vstd::prelude::*;

use crate::ids::{DataSourceId, ProjectId, RunId, RunRef, RunRefView};
use crate::inspector::EvidenceCompleteness;
use crate::model::{AlignmentViewport, CurveAxis};

verus! {

/// The axis storage aligns metric points on.
#[derive(Clone, Copy, Debug, PartialEq, Eq, Structural)]
pub enum AlignmentAxis {
    Step,
    ElapsedTime,
}

/// The part of the overview brush a pointer grabs: one of its two handles,
/// or the window between them.
#[derive(Clone, Copy, Debug, PartialEq, Eq, Structural)]
pub enum BrushDragTarget {
    Start,
    End,
    Window,
}

/// The range an overview query covers: the full non-negative axis, every
/// step or every timestamp from the epoch on.
pub open spec fn overview_span(axis: CurveAxis) -> (i64, i64) {
    match axis {
        CurveAxis::Step => (0, i64::MAX),
        CurveAxis::AbsoluteTime => (0, i64::MAX),
    }
}

/// The range an overview query covers on `axis`: the full non-negative axis.
pub fn overview_viewport(axis: CurveAxis) -> (viewport: AlignmentViewport)
    ensures
        viewport@ == overview_span(axis),
{
    match axis {
        CurveAxis::Step => AlignmentViewport::from_ordered(0, i64::MAX),
        CurveAxis::AbsoluteTime => AlignmentViewport::from_ordered(0, i64::MAX),
    }
}

/// The storage axis a curve axis is read from: absolute time is read as
/// elapsed time and shifted back afterwards.
pub fn storage_axis(axis: CurveAxis) -> (storage: AlignmentAxis)
    ensures
        storage == match axis {
            CurveAxis::Step => AlignmentAxis::Step,
            CurveAxis::AbsoluteTime => AlignmentAxis::ElapsedTime,
        },
{
    match axis {
        CurveAxis::Step => AlignmentAxis::Step,
        CurveAxis::AbsoluteTime => AlignmentAxis::ElapsedTime,
    }
}

/// `a - b` saturated to the `i64` range, then raised to at least zero.
pub open spec fn elapsed_since(a: i64, b: i64) -> i64 {
    let d = a - b;
    if d < 0 {
        0
    } else if d > i64::MAX {
        i64::MAX
    } else {
        d as i64
    }
}

fn elapsed(a: i64, b: i64) -> (d: i64)
    ensures
        d == elapsed_since(a, b),
{
    let wide = a as i128 - b as i128;
    if wide < 0 {
        0
    } else if wide > i64::MAX as i128 {
        i64::MAX
    } else {
        wide as i64
    }
}

/// The viewport storage is asked for: the requested one on the step axis;
/// on the absolute-time axis, the requested timestamps as milliseconds
/// elapsed since the Run started, never below zero.
pub fn storage_viewport(axis: CurveAxis, viewport: AlignmentViewport, started_at_millis: i64) -> (storage: AlignmentViewport)
    ensures
        axis == CurveAxis::Step ==> storage == viewport,
        axis == CurveAxis::AbsoluteTime ==> storage@ == (
            elapsed_since(viewport@.0, started_at_millis),
            elapsed_since(viewport@.1, started_at_millis),
        ),
{
    match axis {
        CurveAxis::Step => viewport,
        CurveAxis::AbsoluteTime => {
            let start = elapsed(viewport.start(), started_at_millis);
            let end = elapsed(viewport.end(), started_at_millis);
            AlignmentViewport::from_ordered(start, end)
        },
    }
}

/// Whether evidence of this completeness yields a drawable series.
pub fn is_drawable(completeness: EvidenceCompleteness) -> (drawable: bool)
    ensures
        drawable == (completeness is Complete || completeness is Partial),
{
    match completeness {
        EvidenceCompleteness::Complete | EvidenceCompleteness::Partial => true,
        _ => false,
    }
}

/// Whether the selected Run `selected` is the stored Run `run_id` of project
/// `project_id` read from source `source_id`.
pub open spec fn answers_for(
    selected: RunRefView,
    source_id: Seq<char>,
    project_id: Seq<char>,
    run_id: Seq<char>,
) -> bool {
    selected.source_id == source_id && selected.project_id == project_id && selected.run_id == run_id
}

/// The first selected Run that a stored Run answers for, if any.
pub fn matching_run_ref(
    runs: &Vec<RunRef>,
    source_id: &DataSourceId,
    project_id: &ProjectId,
    run_id: &RunId,
) -> (index: Option<usize>)
    ensures
        match index {
            Some(i) => i < runs@.len() && answers_for(runs@[i as int]@, source_id@, project_id@, run_id@)
                && forall|k: int| 0 <= k < i ==> !answers_for(#[trigger] runs@[k]@, source_id@, project_id@, run_id@),
            None => forall|k: int| 0 <= k < runs@.len() ==> !answers_for(#[trigger] runs@[k]@, source_id@, project_id@, run_id@),
        },
{
    let mut i: usize = 0;
    while i < runs.len()
        invariant
            i <= runs@.len(),
            forall|k: int| 0 <= k < i ==> !answers_for(#[trigger] runs@[k]@, source_id@, project_id@, run_id@),
        decreases runs@.len() - i,
    {
        let selected = &runs[i];
        if selected.source_id.same_as(source_id) && selected.project_id.same_as(project_id)
            && selected.run_id.same_as(run_id) {
            return Some(i);
        }
        i = i + 1;
    }
    None
}

/// `bounds` widened by every value of `values` that lies inside `viewport`.
pub open spec fn widened_bounds(bounds: Option<(i64, i64)>, values: Seq<i64>, viewport: (i64, i64)) -> Option<
    (i64, i64),
>
    decreases values.len(),
{
    if values.len() == 0 {
        bounds
    } else {
        let earlier = widened_bounds(bounds, values.drop_last(), viewport);
        let v = values.last();
        if viewport.0 <= v && v <= viewport.1 {
            match earlier {
                Some((s, e)) => Some((if v < s { v } else { s }, if v > e { v } else { e })),
                None => Some((v, v)),
            }
        } else {
            earlier
        }
    }
}

/// Widens the data bounds by the axis values of one drawable series that
/// lie inside the queried viewport.
pub fn widen_real_bounds(bounds: Option<(i64, i64)>, values: &Vec<i64>, viewport: AlignmentViewport) -> (widened: Option<(i64, i64)>)
    ensures
        widened == widened_bounds(bounds, values@, viewport@),
{
    let start = viewport.start();
    let end = viewport.end();
    let mut result = bounds;
    let mut i: usize = 0;
    while i < values.len()
        invariant
            i <= values@.len(),
            start == viewport@.0,
            end == viewport@.1,
            result == widened_bounds(bounds, values@.take(i as int), viewport@),
        decreases values@.len() - i,
    {
        proof {
            assert(values@.take(i + 1).drop_last() =~= values@.take(i as int));
        }
        let v = values[i];
        if v >= start && v <= end {
            result = match result {
                Some((s, e)) => Some((if v < s { v } else { s }, if v > e { v } else { e })),
                None => Some((v, v)),
            };
        }
        i = i + 1;
    }
    proof {
        assert(values@.take(i as int) =~= values@);
    }
    result
}

/// The data bounds cover every in-viewport value they were widened by and
/// are themselves such values or earlier bounds.
pub proof fn widened_bounds_cover_values(bounds: Option<(i64, i64)>, values: Seq<i64>, viewport: (i64, i64))
    ensures
        forall|i: int| 0 <= i < values.len() && viewport.0 <= #[trigger] values[i] <= viewport.1
            ==> (widened_bounds(bounds, values, viewport) matches Some((s, e)) && s <= values[i] <= e),
        bounds matches Some((s0, e0)) ==> (widened_bounds(bounds, values, viewport) matches Some((s, e))
            && s <= s0 && e0 <= e),
    decreases values.len(),
{
    if values.len() > 0 {
        let earlier_values = values.drop_last();
        widened_bounds_cover_values(bounds, earlier_values, viewport);
        assert forall|i: int| 0 <= i < values.len() && viewport.0 <= #[trigger] values[i] <= viewport.1
            implies (widened_bounds(bounds, values, viewport) matches Some((s, e)) && s <= values[i] <= e) by {
            if i < values.len() - 1 {
                assert(earlier_values[i] == values[i]);
            }
        }
    }
}

} // verus!
