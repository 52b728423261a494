//! Point budgets derived from the physical pixel width of a chart.

use vstd::prelude::*;

verus! {

/// Smallest number of points an overview query asks for.
pub const OVERVIEW_MIN_POINTS: u32 = 500;
/// Largest number of points an overview query asks for.
pub const OVERVIEW_MAX_POINTS: u32 = 2_000;
/// Smallest number of points a detail query asks for.
pub const DETAIL_MIN_POINTS: u32 = 2_000;
/// Largest number of points a detail query asks for.
pub const DETAIL_MAX_POINTS: u32 = 10_000;

/// `value` clamped into the closed interval `[low, high]`.
pub open spec fn clamp_spec(value: int, low: int, high: int) -> int {
    if value < low {
        low
    } else if value > high {
        high
    } else {
        value
    }
}

/// Overview queries sample one point per physical pixel, within fixed bounds.
pub fn overview_budget(physical_width: u32) -> (budget: u32)
    ensures
        budget == clamp_spec(physical_width as int, OVERVIEW_MIN_POINTS as int, OVERVIEW_MAX_POINTS as int),
{
    if physical_width < OVERVIEW_MIN_POINTS {
        OVERVIEW_MIN_POINTS
    } else if physical_width > OVERVIEW_MAX_POINTS {
        OVERVIEW_MAX_POINTS
    } else {
        physical_width
    }
}

/// Detail queries sample two points per physical pixel, within fixed bounds.
/// The doubling saturates, so very wide canvases still get the maximum.
pub fn detail_budget(physical_width: u32) -> (budget: u32)
    ensures
        budget == clamp_spec(2 * physical_width, DETAIL_MIN_POINTS as int, DETAIL_MAX_POINTS as int),
{
    let doubled: u32 = if physical_width > u32::MAX / 2 { u32::MAX } else { physical_width * 2 };
    if doubled < DETAIL_MIN_POINTS {
        DETAIL_MIN_POINTS
    } else if doubled > DETAIL_MAX_POINTS {
        DETAIL_MAX_POINTS
    } else {
        doubled
    }
}

} // verus!
