//! Runs as the viewer lists them, and the case-insensitive Run filter.

use vstd::prelude::*;

use crate::ids::{ProjectId, RunId};
use crate::text::{chars_of, contains_chars, lowercase, occurs_in, to_lowercase, trim, trimmed};

verus! {

/// Lifecycle state of one Run.
#[derive(Clone, Copy, Debug, PartialEq, Eq, Structural)]
pub enum RunStatus {
    Running,
    Finished,
    Failed,
}

/// The lower-case word the viewer shows for a status.
pub open spec fn status_label(status: RunStatus) -> Seq<char> {
    match status {
        RunStatus::Running => "running"@,
        RunStatus::Finished => "finished"@,
        RunStatus::Failed => "failed"@,
    }
}

/// The lower-case word the viewer shows for a status.
pub fn run_status(status: RunStatus) -> (label: &'static str)
    ensures
        label@ == status_label(status),
{
    match status {
        RunStatus::Running => "running",
        RunStatus::Finished => "finished",
        RunStatus::Failed => "failed",
    }
}

/// The parts of a stored Run that the viewer's listing and filter read.
#[derive(Debug)]
pub struct Run {
    pub run_id: RunId,
    pub project_id: ProjectId,
    pub name: String,
    pub status: RunStatus,
}

/// Whether a filter query selects a Run with the given name, identifier and
/// status word: the trimmed, lower-cased query is empty, or occurs in the
/// lower-cased name, in the lower-cased identifier, or in the status word.
pub open spec fn fields_match_filter(
    name: Seq<char>,
    run_id: Seq<char>,
    status: Seq<char>,
    query: Seq<char>,
) -> bool {
    let q = lowercase(trimmed(query));
    q.len() == 0 || occurs_in(lowercase(name), q) || occurs_in(lowercase(run_id), q) || occurs_in(
        status,
        q,
    )
}

/// Matches a Run by name, identifier, or lifecycle status, ignoring case.
pub fn run_fields_match_filter(name: &str, run_id: &str, status: &str, query: &str) -> (matched:
    bool)
    ensures
        matched == fields_match_filter(name@, run_id@, status@, query@),
{
    let lowered = to_lowercase(trim(query).as_str());
    let needle = chars_of(lowered.as_str());
    if needle.len() == 0 {
        return true;
    }
    let name_chars = chars_of(to_lowercase(name).as_str());
    if contains_chars(&name_chars, &needle) {
        return true;
    }
    let id_chars = chars_of(to_lowercase(run_id).as_str());
    if contains_chars(&id_chars, &needle) {
        return true;
    }
    let status_chars = chars_of(status);
    contains_chars(&status_chars, &needle)
}

/// Matches a Run by name, identifier, or lifecycle status.
pub fn run_matches_filter(run: &Run, query: &str) -> (matched: bool)
    ensures
        matched == fields_match_filter(run.name@, run.run_id@, status_label(run.status), query@),
{
    run_fields_match_filter(run.name.as_str(), run.run_id.as_str(), run_status(run.status), query)
}

} // verus!
