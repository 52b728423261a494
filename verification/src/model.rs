//! Requests, results and read events exchanged with the background readers.

use vstd::prelude::*;

use crate::ids::{DataSourceId, MetricKey, ProjectId, RunId, RunRef};

verus! {

/// Monotonically increasing identity for one read request.
#[derive(Clone, Copy, Debug, PartialEq, Eq, Structural, Hash, PartialOrd, Ord)]
pub struct Generation(pub u64);

/// Independent result streams routed by source and panel coordinators.
#[derive(Clone, Copy, Debug, PartialEq, Eq, Structural, Hash)]
pub enum ReadKind {
    Catalog,
    Overview,
    Detail,
    Inspector,
}

/// Horizontal axis a curve is drawn against.
#[derive(Clone, Copy, Debug, PartialEq, Eq, Structural)]
pub enum CurveAxis {
    Step,
    AbsoluteTime,
}

/// A closed range `[start, end]` on an alignment axis, with `start <= end`.
#[derive(Clone, Copy, Debug, PartialEq, Eq, Structural)]
pub struct AlignmentViewport {
    start: i64,
    end: i64,
}

impl View for AlignmentViewport {
    type V = (i64, i64);

    closed spec fn view(&self) -> (i64, i64) {
        (self.start, self.end)
    }
}

impl AlignmentViewport {
    #[verifier::type_invariant]
    closed spec fn ordered(self) -> bool {
        self.start <= self.end
    }

    /// The range `[start, end]`; `None` when `start > end`.
    pub fn new(start: i64, end: i64) -> (range: Option<Self>)
        ensures
            start <= end ==> (range matches Some(r) && r@ == (start, end)),
            start > end ==> range is None,
    {
        if start <= end {
            Some(AlignmentViewport { start, end })
        } else {
            None
        }
    }

    /// The range `[start, end]` of two ordered ends.
    pub(crate) fn from_ordered(start: i64, end: i64) -> (range: Self)
        requires
            start <= end,
        ensures
            range@ == (start, end),
    {
        AlignmentViewport { start, end }
    }

    /// First covered axis value.
    pub fn start(&self) -> (start: i64)
        ensures
            start == self@.0,
            start <= self@.1,
    {
        proof {
            use_type_invariant(self);
        }
        self.start
    }

    /// Last covered axis value.
    pub fn end(&self) -> (end: i64)
        ensures
            end == self@.1,
            self@.0 <= end,
    {
        proof {
            use_type_invariant(self);
        }
        self.end
    }
}

/// Shared series selection for overview and detail queries.
#[derive(Debug)]
pub struct CurveSelection {
    pub source_id: DataSourceId,
    pub runs: Vec<RunRef>,
    pub metric_key: MetricKey,
    pub axis: CurveAxis,
}

/// Full non-negative-axis overview query.
#[derive(Debug)]
pub struct OverviewRequest {
    pub selection: CurveSelection,
    pub physical_width: u32,
}

/// Closed-viewport detail query.
#[derive(Debug)]
pub struct DetailRequest {
    pub selection: CurveSelection,
    pub viewport: AlignmentViewport,
    pub physical_width: u32,
}

/// Whole-series product summaries and objective evidence for the inspector.
#[derive(Debug)]
pub struct InspectorRequest {
    pub source_id: DataSourceId,
    pub runs: Vec<RunRef>,
    pub metric_key: MetricKey,
}

/// Catalog discovery for one source.
#[derive(Debug)]
pub struct DiscoveryRequest {
    pub project_id: Option<ProjectId>,
    pub selected_run_ids: Vec<RunId>,
    pub metric_runs: Vec<(ProjectId, RunId)>,
}

impl Default for DiscoveryRequest {
    fn default() -> (request: Self)
        ensures
            request.project_id is None,
            request.selected_run_ids@.len() == 0,
            request.metric_runs@.len() == 0,
    {
        DiscoveryRequest { project_id: None, selected_run_ids: Vec::new(), metric_runs: Vec::new() }
    }
}

/// Storage work accepted by the background readers.
#[derive(Debug)]
pub enum ReadRequest {
    Discover(DiscoveryRequest),
    Overview(OverviewRequest),
    Detail(DetailRequest),
    Inspector(InspectorRequest),
}

/// The result stream a request belongs to.
pub open spec fn request_kind(request: &ReadRequest) -> ReadKind {
    match request {
        ReadRequest::Discover(_) => ReadKind::Catalog,
        ReadRequest::Overview(_) => ReadKind::Overview,
        ReadRequest::Detail(_) => ReadKind::Detail,
        ReadRequest::Inspector(_) => ReadKind::Inspector,
    }
}

impl ReadRequest {
    /// The result stream this request belongs to.
    pub fn kind(&self) -> (kind: ReadKind)
        ensures
            kind == request_kind(self),
    {
        match self {
            ReadRequest::Discover(_) => ReadKind::Catalog,
            ReadRequest::Overview(_) => ReadKind::Overview,
            ReadRequest::Detail(_) => ReadKind::Detail,
            ReadRequest::Inspector(_) => ReadKind::Inspector,
        }
    }
}

/// One Run's reduced curve; `data` carries the evidence and drawable series.
#[derive(Debug)]
pub struct CurveSeriesSnapshot<S> {
    pub run_ref: RunRef,
    pub data: S,
}

/// Immutable reduced curves returned for one requested viewport.
#[derive(Debug)]
pub struct CurveSnapshot<S> {
    pub viewport: AlignmentViewport,
    pub point_budget: u32,
    /// Data-derived range, expanded to one rendered axis unit for one coordinate.
    pub real_range: Option<AlignmentViewport>,
    pub series: Vec<CurveSeriesSnapshot<S>>,
}

/// Immutable result payload returned by a reader: a catalog `C`, curves
/// whose per-Run data is `S`, or inspector rows `I`.
#[derive(Debug)]
pub enum ReadSnapshot<C, S, I> {
    Catalog(C),
    Overview(CurveSnapshot<S>),
    Detail(CurveSnapshot<S>),
    Inspector(I),
}

/// The result stream a snapshot belongs to.
pub open spec fn snapshot_kind<C, S, I>(snapshot: &ReadSnapshot<C, S, I>) -> ReadKind {
    match snapshot {
        ReadSnapshot::Catalog(_) => ReadKind::Catalog,
        ReadSnapshot::Overview(_) => ReadKind::Overview,
        ReadSnapshot::Detail(_) => ReadKind::Detail,
        ReadSnapshot::Inspector(_) => ReadKind::Inspector,
    }
}

impl<C, S, I> ReadSnapshot<C, S, I> {
    /// The result stream this snapshot belongs to.
    pub fn kind(&self) -> (kind: ReadKind)
        ensures
            kind == snapshot_kind(self),
    {
        match self {
            ReadSnapshot::Catalog(_) => ReadKind::Catalog,
            ReadSnapshot::Overview(_) => ReadKind::Overview,
            ReadSnapshot::Detail(_) => ReadKind::Detail,
            ReadSnapshot::Inspector(_) => ReadKind::Inspector,
        }
    }
}

/// One generation-tagged result, or the description of its failure.
#[derive(Debug)]
pub struct ReadEvent<C, S, I> {
    pub source_id: DataSourceId,
    pub generation: Generation,
    pub kind: ReadKind,
    pub result: Result<ReadSnapshot<C, S, I>, String>,
}

/// Returned when the background readers no longer accept requests.
#[derive(Clone, Copy, Debug, PartialEq, Eq, Structural)]
pub struct WorkerClosed;

impl WorkerClosed {
    /// The user-facing description of the error.
    pub fn message(&self) -> (text: &'static str)
        ensures
            text@ == "native read worker is closed"@,
    {
        "native read worker is closed"
    }
}

} // verus!
