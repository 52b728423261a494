//! The status texts of Metric panels: the line under a Metric's name, the
//! message in place of a chart, and the error line after a read.

use vstd::prelude::*;

use crate::text::{decimal, push_decimal};
use crate::ids::string_from_chars;
use crate::coordination::SourceReadFailure;
use crate::ids::RunRef;
use crate::selection::run_views;
use crate::sidebar::holds_run;
use crate::ids::RunRefView;

verus! {

/// The text of the line under a Metric's name: how many Runs are shown, then
/// the source errors if any, else whether the viewport is still loading, else
/// how many series are drawable.
pub open spec fn track_metadata(runs: nat, errors: nat, loaded: bool, drawable: nat) -> Seq<char> {
    decimal(runs) + " Runs \u{b7} "@ + if errors > 0 {
        decimal(errors) + " source errors"@
    } else if !loaded {
        "loading"@
    } else {
        decimal(drawable) + " drawable"@
    }
}

fn push_text(out: &mut Vec<char>, text: &str)
    ensures
        final(out)@ == old(out)@ + text@,
{
    let chars = crate::text::chars_of(text);
    let mut i: usize = 0;
    while i < chars.len()
        invariant
            i <= chars@.len(),
            chars@ == text@,
            out@ == old(out)@ + chars@.take(i as int),
        decreases chars@.len() - i,
    {
        out.push(chars[i]);
        proof {
            assert(chars@.take(i + 1) =~= chars@.take(i as int).push(chars@[i as int]));
        }
        i = i + 1;
    }
    proof {
        assert(chars@.take(i as int) =~= chars@);
    }
}

/// The line under a Metric's name.
pub fn metric_row_metadata(runs: usize, errors: usize, loaded: bool, drawable: usize) -> (text: String)
    ensures
        text@ == track_metadata(runs as nat, errors as nat, loaded, drawable as nat),
{
    let mut out: Vec<char> = Vec::new();
    push_decimal(&mut out, runs as u128);
    push_text(&mut out, " Runs \u{b7} ");
    if errors > 0 {
        push_decimal(&mut out, errors as u128);
        push_text(&mut out, " source errors");
    } else if !loaded {
        push_text(&mut out, "loading");
    } else {
        push_decimal(&mut out, drawable as u128);
        push_text(&mut out, " drawable");
    }
    proof {
        assert(out@ =~= track_metadata(runs as nat, errors as nat, loaded, drawable as nat));
    }
    string_from_chars(&out)
}

/// The message a track shows while it has no detail curves: loading the
/// viewport, no drawable evidence although the extent is known, or loading
/// the extent.
pub fn track_placeholder(detail_pending: bool, has_overview: bool) -> (message: &'static str)
    ensures
        message@ == if detail_pending {
            "Loading viewport\u{2026}"@
        } else if has_overview {
            "No drawable evidence is available for this metric."@
        } else {
            "Loading metric extent\u{2026}"@
        },
{
    if detail_pending {
        "Loading viewport\u{2026}"
    } else if has_overview {
        "No drawable evidence is available for this metric."
    } else {
        "Loading metric extent\u{2026}"
    }
}

/// One failed source as the error line names it: its identity, a colon and
/// the failure.
pub open spec fn failure_text(failure: SourceReadFailure) -> Seq<char> {
    failure.source_id@ + ": "@ + failure.message@
}

/// The failures of a read joined by semicolons, in order.
pub open spec fn failures_text(failures: Seq<SourceReadFailure>) -> Seq<char>
    decreases failures.len(),
{
    if failures.len() == 0 {
        Seq::empty()
    } else if failures.len() == 1 {
        failure_text(failures[0])
    } else {
        failures_text(failures.drop_last()) + "; "@ + failure_text(failures.last())
    }
}

/// The error line after a read in which sources failed.
pub fn source_failures_message(failures: &Vec<SourceReadFailure>) -> (text: String)
    ensures
        text@ == failures_text(failures@),
{
    let mut out: Vec<char> = Vec::new();
    let mut i: usize = 0;
    while i < failures.len()
        invariant
            i <= failures@.len(),
            out@ == failures_text(failures@.take(i as int)),
        decreases failures@.len() - i,
    {
        proof {
            assert(failures@.take(i + 1).drop_last() =~= failures@.take(i as int));
            assert(failures@.take(i + 1).last() == failures@[i as int]);
            if i == 0 {
                assert(failures@.take(1)[0] == failures@[0]);
            }
        }
        if i > 0 {
            push_text(&mut out, "; ");
        }
        push_text(&mut out, failures[i].source_id.as_str());
        push_text(&mut out, ": ");
        push_text(&mut out, failures[i].message.as_str());
        proof {
            assert(out@ =~= failures_text(failures@.take(i + 1)));
        }
        i = i + 1;
    }
    proof {
        assert(failures@.take(i as int) =~= failures@);
    }
    string_from_chars(&out)
}

/// The error line after a catalog read dropped persisted Run selections.
pub fn unavailable_runs_message(removed: usize) -> (text: String)
    ensures
        text@ == decimal(removed as nat) + " persisted Run selection(s) are no longer available"@,
{
    let mut out: Vec<char> = Vec::new();
    push_decimal(&mut out, removed as u128);
    push_text(&mut out, " persisted Run selection(s) are no longer available");
    string_from_chars(&out)
}

/// Tracks laid out before the list first reports what it shows.
pub const INITIAL_VISIBLE_TRACKS: usize = 4;

/// Tracks prepared before the list first reports what it shows.
pub const INITIAL_OVERSCAN_TRACKS: usize = 8;

/// The smaller of two integers.
pub open spec fn least(a: int, b: int) -> int {
    if a < b { a } else { b }
}

/// The first window of `count` tracks: the first four shown, the first eight
/// prepared.
pub fn initial_track_window(count: usize) -> (window: ((usize, usize), (usize, usize)))
    ensures
        window.0 == (0usize, least(count as int, INITIAL_VISIBLE_TRACKS as int) as usize),
        window.1 == (0usize, least(count as int, INITIAL_OVERSCAN_TRACKS as int) as usize),
{
    let shown = if count < INITIAL_VISIBLE_TRACKS { count } else { INITIAL_VISIBLE_TRACKS };
    let prepared = if count < INITIAL_OVERSCAN_TRACKS { count } else { INITIAL_OVERSCAN_TRACKS };
    ((0, shown), (0, prepared))
}

/// The window after a scroll to track `top` with `shown` rows in view: the
/// shown tracks, and around them one more screenful prepared on each side,
/// all within the `count` tracks.
pub fn scrolled_track_window(top: usize, shown: usize, count: usize) -> (window: (
    (usize, usize),
    (usize, usize),
))
    ensures
        ({
            let len = if shown < 1 { 1int } else { shown as int };
            let start = least(top as int, count as int);
            let end = least(start + len, count as int);
            &&& window.0 == (start as usize, end as usize)
            &&& window.1 == ((if start - len < 0 { 0int } else { start - len }) as usize, least(
                end + len,
                count as int,
            ) as usize)
        }),
{
    let len = if shown < 1 { 1 } else { shown };
    let start = if top < count { top } else { count };
    let end = if len <= count - start { start + len } else { count };
    let before = if start >= len { start - len } else { 0 };
    let after = if len <= count - end { end + len } else { count };
    ((start, end), (before, after))
}

/// The tracks a window prepares, clamped to the `count` tracks there are.
pub fn scheduled_tracks(overscan: (usize, usize), count: usize) -> (range: (usize, usize))
    ensures
        range == (least(overscan.0 as int, count as int) as usize, least(overscan.1 as int, count as int) as usize),
{
    (
        if overscan.0 < count { overscan.0 } else { count },
        if overscan.1 < count { overscan.1 } else { count },
    )
}

/// How prominently a hovered Run's value is called out: the baseline, then
/// pinned Runs, then the rest.
pub open spec fn callout_rank(r: RunRefView, baseline: Option<RunRefView>, pinned: Seq<RunRefView>) -> int {
    if baseline == Some(r) {
        0
    } else if pinned.contains(r) {
        1
    } else {
        2
    }
}

/// Which of the hovered Runs a track calls out: the first of those with the
/// most prominent rank, or none when nothing is hovered.
pub fn callout_choice(hovered: &Vec<RunRef>, baseline: Option<&RunRef>, pinned: &Vec<RunRef>) -> (choice: Option<usize>)
    ensures
        ({
            let b = match baseline { Some(r) => Some(r@), None => None };
            let p = run_views(pinned@);
            match choice {
                None => hovered@.len() == 0,
                Some(i) => {
                    &&& i < hovered@.len()
                    &&& forall|j: int| 0 <= j < hovered@.len() ==> callout_rank(hovered@[i as int]@, b, p)
                        <= callout_rank(#[trigger] hovered@[j]@, b, p)
                    &&& forall|j: int| 0 <= j < i ==> callout_rank(hovered@[i as int]@, b, p) < callout_rank(
                        #[trigger] hovered@[j]@,
                        b,
                        p,
                    )
                },
            }
        }),
{
    let ghost b = match baseline { Some(r) => Some(r@), None => None };
    let ghost p = run_views(pinned@);
    let mut best: Option<(usize, u8)> = None;
    let mut i: usize = 0;
    while i < hovered.len()
        invariant
            i <= hovered@.len(),
            b == match baseline { Some(r) => Some(r@), None => None },
            p == run_views(pinned@),
            i == 0 <==> best is None,
            match best {
                None => true,
                Some((k, rank)) => {
                    &&& k < i
                    &&& rank == callout_rank(hovered@[k as int]@, b, p)
                    &&& forall|j: int| 0 <= j < i ==> rank <= callout_rank(#[trigger] hovered@[j]@, b, p)
                    &&& forall|j: int| 0 <= j < k ==> rank < callout_rank(#[trigger] hovered@[j]@, b, p)
                },
            },
        decreases hovered@.len() - i,
    {
        let is_baseline = match baseline {
            Some(r) => r.same_as(&hovered[i]),
            None => false,
        };
        let rank: u8 = if is_baseline {
            0
        } else if holds_run(pinned, &hovered[i]) {
            1
        } else {
            2
        };
        proof {
            assert(rank == callout_rank(hovered@[i as int]@, b, p));
        }
        best = match best {
            None => Some((i, rank)),
            Some((k, kept)) => if rank < kept { Some((i, rank)) } else { Some((k, kept)) },
        };
        i = i + 1;
    }
    match best {
        None => None,
        Some((k, _)) => Some(k),
    }
}

/// Whenever a source failed, the line under a Metric's name reports the
/// number of source errors, whether or not detail curves are loaded and
/// however many are drawable; loading or drawable counts show only when no
/// source failed.
pub proof fn source_errors_take_precedence(runs: nat, errors: nat, loaded: bool, drawable: nat, other_loaded: bool, other_drawable: nat)
    ensures
        errors > 0 ==> track_metadata(runs, errors, loaded, drawable) == decimal(runs) + " Runs \u{b7} "@
            + decimal(errors) + " source errors"@,
        errors > 0 ==> track_metadata(runs, errors, loaded, drawable) == track_metadata(runs, errors, other_loaded, other_drawable),
        errors == 0 && !loaded ==> track_metadata(runs, errors, loaded, drawable) == decimal(runs) + " Runs \u{b7} "@ + "loading"@,
        errors == 0 && loaded ==> track_metadata(runs, errors, loaded, drawable) == decimal(runs) + " Runs \u{b7} "@
            + decimal(drawable) + " drawable"@,
{
}

} // verus!
