//! Per-panel read coordination: one panel read fans out into one storage
//! read per source, and the answers are merged back in the panel's Run order.
//! Superseded, deactivated and repeated answers are ignored.

use vstd::prelude::*;
use vstd::std_specs::cmp::PartialEqSpecImpl;

use crate::ids::{DataSourceId, MetricKey, RunRef, RunRefView};
use crate::model::{
    AlignmentViewport, CurveAxis, CurveSelection, CurveSeriesSnapshot, CurveSnapshot,
    DetailRequest, Generation, OverviewRequest, ReadEvent, ReadKind, ReadRequest, ReadSnapshot,
};

verus! {

/// Identity of one analysis View.
#[derive(Clone, Debug)]
pub struct AnalysisViewId(String);

/// Identity of one Metric panel inside a View.
#[derive(Clone, Debug)]
pub struct MetricPanelId(String);

impl View for AnalysisViewId {
    type V = Seq<char>;

    closed spec fn view(&self) -> Seq<char> {
        self.0@
    }
}

impl View for MetricPanelId {
    type V = Seq<char>;

    closed spec fn view(&self) -> Seq<char> {
        self.0@
    }
}

impl AnalysisViewId {
    /// Wraps a View identity.
    pub fn from_string(value: String) -> (id: Self)
        ensures
            id@ == value@,
    {
        AnalysisViewId(value)
    }

    /// The identity as text.
    pub fn as_str(&self) -> (s: &str)
        ensures
            s@ == self@,
    {
        self.0.as_str()
    }

    /// A copy with the same identity.
    pub fn duplicate(&self) -> (copy: Self)
        ensures
            copy == *self,
    {
        AnalysisViewId(self.0.clone())
    }

    /// Whether both identities are the same text.
    pub fn same_as(&self, other: &Self) -> (same: bool)
        ensures
            same == (self@ == other@),
    {
        self.0 == other.0
    }
}

impl MetricPanelId {
    /// Wraps a panel identity.
    pub fn from_string(value: String) -> (id: Self)
        ensures
            id@ == value@,
    {
        MetricPanelId(value)
    }

    /// The identity as text.
    pub fn as_str(&self) -> (s: &str)
        ensures
            s@ == self@,
    {
        self.0.as_str()
    }

    /// A copy with the same identity.
    pub fn duplicate(&self) -> (copy: Self)
        ensures
            copy == *self,
    {
        MetricPanelId(self.0.clone())
    }

    /// Whether both identities are the same text.
    pub fn same_as(&self, other: &Self) -> (same: bool)
        ensures
            same == (self@ == other@),
    {
        self.0 == other.0
    }
}

impl PartialEq for AnalysisViewId {
    fn eq(&self, other: &Self) -> (same: bool) {
        self.0 == other.0
    }
}

impl PartialEqSpecImpl for AnalysisViewId {
    open spec fn obeys_eq_spec() -> bool {
        true
    }

    open spec fn eq_spec(&self, other: &Self) -> bool {
        self@ == other@
    }
}

impl PartialEq for MetricPanelId {
    fn eq(&self, other: &Self) -> (same: bool) {
        self.0 == other.0
    }
}

impl PartialEqSpecImpl for MetricPanelId {
    open spec fn obeys_eq_spec() -> bool {
        true
    }

    open spec fn eq_spec(&self, other: &Self) -> bool {
        self@ == other@
    }
}

/// The View, panel and generation one panel read was started for.
#[derive(Clone, Debug)]
pub struct PanelReadTag {
    pub view_id: AnalysisViewId,
    pub panel_id: MetricPanelId,
    pub generation: Generation,
}

impl PanelReadTag {
    /// A copy with the same View, panel and generation.
    pub fn duplicate(&self) -> (copy: Self)
        ensures
            copy == *self,
    {
        PanelReadTag {
            view_id: self.view_id.duplicate(),
            panel_id: self.panel_id.duplicate(),
            generation: self.generation,
        }
    }
}

/// A curve read for one panel, over Runs that may come from several sources.
#[derive(Debug)]
pub enum PanelReadRequest {
    Overview { runs: Vec<RunRef>, metric_key: MetricKey, axis: CurveAxis, physical_width: u32 },
    Detail {
        runs: Vec<RunRef>,
        metric_key: MetricKey,
        axis: CurveAxis,
        viewport: AlignmentViewport,
        physical_width: u32,
    },
}

/// The result stream of a panel read.
pub open spec fn panel_request_kind(request: &PanelReadRequest) -> ReadKind {
    match request {
        PanelReadRequest::Overview { .. } => ReadKind::Overview,
        PanelReadRequest::Detail { .. } => ReadKind::Detail,
    }
}

/// The Runs a panel read covers, in panel order.
pub open spec fn panel_request_runs(request: &PanelReadRequest) -> Seq<RunRef> {
    match request {
        PanelReadRequest::Overview { runs, .. } => runs@,
        PanelReadRequest::Detail { runs, .. } => runs@,
    }
}

/// One storage read planned for one source of a panel read.
#[derive(Debug)]
pub struct PlannedSourceRead {
    pub tag: PanelReadTag,
    pub source_id: DataSourceId,
    pub generation: Generation,
    pub request: ReadRequest,
}

/// A source whose part of a panel read failed, with the reason.
#[derive(Debug)]
pub struct SourceReadFailure {
    pub source_id: DataSourceId,
    pub message: String,
}

/// The merged answer of every source of one panel read.
#[derive(Debug)]
pub struct PanelReadSnapshot<S> {
    pub tag: PanelReadTag,
    pub curves: Option<CurveSnapshot<S>>,
    pub source_errors: Vec<SourceReadFailure>,
}

/// What applying one read event did.
#[derive(Debug)]
pub enum PanelReadOutcome<S> {
    /// The answer was recorded; other sources are still outstanding.
    AcceptedPending,
    /// The answer was the last outstanding one; here is the merged read.
    Completed(PanelReadSnapshot<S>),
    /// The answer belongs to no outstanding read and was dropped.
    IgnoredStale,
}

/// Why a panel read could not be started.
#[derive(Clone, Copy, Debug, PartialEq, Eq, Structural)]
pub enum PanelCoordinationError {
    /// The read names no Run.
    EmptySelection,
    /// Another outstanding read of the same kind already uses this generation.
    DuplicateGeneration(Generation),
}

impl PanelCoordinationError {
    /// The user-facing description of the error, without the generation.
    pub fn message(&self) -> (text: &'static str)
        ensures
            self is EmptySelection ==> text@ == "panel read selection is empty"@,
            self is DuplicateGeneration ==> text@ == "panel read generation is already in flight"@,
    {
        match self {
            PanelCoordinationError::EmptySelection => "panel read selection is empty",
            PanelCoordinationError::DuplicateGeneration(_) => "panel read generation is already in flight",
        }
    }
}

/// The answer recorded for one source of an outstanding panel read.
pub type SourceResponse<S> = Result<CurveSnapshot<S>, String>;

/// One outstanding panel read: the Runs in panel order, the sources in
/// first-appearance order, and one answer slot per source.
#[derive(Debug)]
pub struct PendingPanelRead<S> {
    pub tag: PanelReadTag,
    pub kind: ReadKind,
    pub run_order: Vec<RunRef>,
    pub source_order: Vec<DataSourceId>,
    pub responses: Vec<Option<SourceResponse<S>>>,
    pub received: usize,
}


/// The texts of a sequence of source identities.
pub open spec fn source_views(s: Seq<DataSourceId>) -> Seq<Seq<char>> {
    s.map_values(|d: DataSourceId| d@)
}

/// The sources of `runs`, each once, in order of first appearance.
pub open spec fn source_order_of(runs: Seq<RunRef>) -> Seq<DataSourceId>
    decreases runs.len(),
{
    if runs.len() == 0 {
        Seq::empty()
    } else {
        let earlier = source_order_of(runs.drop_last());
        if source_views(earlier).contains(runs.last().source_id@) {
            earlier
        } else {
            earlier.push(runs.last().source_id)
        }
    }
}

/// The Runs of `runs` that belong to the source with text `source`, in order.
pub open spec fn runs_of_source(runs: Seq<RunRef>, source: Seq<char>) -> Seq<RunRef>
    decreases runs.len(),
{
    if runs.len() == 0 {
        Seq::empty()
    } else {
        let earlier = runs_of_source(runs.drop_last(), source);
        if runs.last().source_id@ == source {
            earlier.push(runs.last())
        } else {
            earlier
        }
    }
}

/// What identifies an outstanding read among its siblings: View, panel and kind.
pub open spec fn read_key<S>(p: PendingPanelRead<S>) -> (Seq<char>, Seq<char>, ReadKind) {
    (p.tag.view_id@, p.tag.panel_id@, p.kind)
}

/// What an answer event names: generation and kind.
pub open spec fn in_flight<S>(p: PendingPanelRead<S>) -> (u64, ReadKind) {
    (p.tag.generation.0, p.kind)
}

/// How many answer slots are filled.
pub open spec fn count_answered<S>(slots: Seq<Option<SourceResponse<S>>>) -> nat
    decreases slots.len(),
{
    if slots.len() == 0 {
        0
    } else {
        count_answered(slots.drop_last()) + if slots.last() is Some {
            1nat
        } else {
            0nat
        }
    }
}

/// Whether no element occurs twice.
pub open spec fn distinct<T>(s: Seq<T>) -> bool {
    forall|i: int, j: int| 0 <= i < j < s.len() ==> s[i] != s[j]
}

/// One outstanding read is consistent: sources are distinct, each has one
/// slot, the count of answers is exact, and some answer is still missing.
pub open spec fn pending_wf<S>(p: PendingPanelRead<S>) -> bool {
    &&& distinct(source_views(p.source_order@))
    &&& p.responses@.len() == p.source_order@.len()
    &&& p.received == count_answered(p.responses@)
    &&& p.received < p.source_order@.len()
}

/// All outstanding reads are consistent, and no two share a key or a
/// generation of the same kind.
pub open spec fn reads_wf<S>(reads: Seq<PendingPanelRead<S>>) -> bool {
    &&& forall|i: int| 0 <= i < reads.len() ==> pending_wf(#[trigger] reads[i])
    &&& forall|i: int, j: int|
        0 <= i < j < reads.len() ==> read_key(#[trigger] reads[i]) != read_key(#[trigger] reads[j])
            && in_flight(reads[i]) != in_flight(reads[j])
}

/// Whether some outstanding read of `kind` uses `generation`.
pub open spec fn has_in_flight<S>(
    reads: Seq<PendingPanelRead<S>>,
    generation: Generation,
    kind: ReadKind,
) -> bool {
    exists|i: int| 0 <= i < reads.len() && in_flight(#[trigger] reads[i]) == (generation.0, kind)
}

/// The outstanding reads without the one that has `key`, if any.
pub open spec fn without_key<S>(
    reads: Seq<PendingPanelRead<S>>,
    key: (Seq<char>, Seq<char>, ReadKind),
) -> Seq<PendingPanelRead<S>> {
    if exists|i: int| 0 <= i < reads.len() && read_key(#[trigger] reads[i]) == key {
        reads.remove(choose|i: int| 0 <= i < reads.len() && read_key(#[trigger] reads[i]) == key)
    } else {
        reads
    }
}

/// `read` is the storage read for one source of `request`: same kind,
/// Metric, axis, width and viewport, restricted to `source_id` and `runs`.
pub open spec fn plans_source_read(
    request: &PanelReadRequest,
    source_id: DataSourceId,
    runs: Seq<RunRef>,
    read: &ReadRequest,
) -> bool {
    match request {
        PanelReadRequest::Overview { metric_key, axis, physical_width, .. } => match read {
            ReadRequest::Overview(o) => {
                &&& o.selection.source_id == source_id
                &&& o.selection.runs@ == runs
                &&& o.selection.metric_key == *metric_key
                &&& o.selection.axis == *axis
                &&& o.physical_width == *physical_width
            },
            _ => false,
        },
        PanelReadRequest::Detail { metric_key, axis, viewport, physical_width, .. } => match read {
            ReadRequest::Detail(d) => {
                &&& d.selection.source_id == source_id
                &&& d.selection.runs@ == runs
                &&& d.selection.metric_key == *metric_key
                &&& d.selection.axis == *axis
                &&& d.viewport == *viewport
                &&& d.physical_width == *physical_width
            },
            _ => false,
        },
    }
}

/// `planned` holds one storage read per source of the request, in order of
/// the sources' first appearance, each over exactly that source's Runs.
pub open spec fn plans_panel_read(
    tag: PanelReadTag,
    request: &PanelReadRequest,
    planned: Seq<PlannedSourceRead>,
) -> bool {
    let runs = panel_request_runs(request);
    let order = source_order_of(runs);
    &&& planned.len() == order.len()
    &&& forall|j: int|
        0 <= j < planned.len() ==> {
            &&& (#[trigger] planned[j]).tag == tag
            &&& planned[j].source_id == order[j]
            &&& planned[j].generation == tag.generation
            &&& plans_source_read(request, order[j], runs_of_source(runs, order[j]@), &planned[j].request)
        }
}

/// `p` is a freshly started read for `tag` and `request`, with no answers.
pub open spec fn fresh_read<S>(p: PendingPanelRead<S>, tag: PanelReadTag, request: &PanelReadRequest) -> bool {
    let runs = panel_request_runs(request);
    &&& p.tag == tag
    &&& p.kind == panel_request_kind(request)
    &&& p.run_order@ == runs
    &&& p.source_order@ == source_order_of(runs)
    &&& p.responses@.len() == p.source_order@.len()
    &&& forall|j: int| 0 <= j < p.responses@.len() ==> p.responses@[j] is None
    &&& p.received == 0
}

/// `after` is `before` with any read of the same View, panel and kind
/// replaced by a fresh read appended at the end.
pub open spec fn started_read<S>(
    before: Seq<PendingPanelRead<S>>,
    after: Seq<PendingPanelRead<S>>,
    tag: PanelReadTag,
    request: &PanelReadRequest,
) -> bool {
    let rest = without_key(before, (tag.view_id@, tag.panel_id@, panel_request_kind(request)));
    &&& after.len() == rest.len() + 1
    &&& forall|k: int| 0 <= k < rest.len() ==> after[k] == rest[k]
    &&& fresh_read(after.last(), tag, request)
}

// ----- Lemmas about the source grouping -----

proof fn lemma_source_order(runs: Seq<RunRef>)
    ensures
        distinct(source_views(source_order_of(runs))),
        runs.len() > 0 ==> source_order_of(runs).len() > 0,
        forall|i: int| 0 <= i < runs.len() ==> source_views(source_order_of(runs)).contains(#[trigger] runs[i].source_id@),
        forall|j: int| 0 <= j < source_order_of(runs).len() ==> exists|i: int| 0 <= i < runs.len() && #[trigger] runs[i].source_id == #[trigger] source_order_of(runs)[j],
    decreases runs.len(),
{
    if runs.len() > 0 {
        let earlier_runs = runs.drop_last();
        lemma_source_order(earlier_runs);
        let earlier = source_order_of(earlier_runs);
        let order = source_order_of(runs);
        assert forall|i: int| 0 <= i < runs.len() implies source_views(order).contains(#[trigger] runs[i].source_id@) by {
            if i < runs.len() - 1 {
                assert(earlier_runs[i] == runs[i]);
                let k = choose|k: int| 0 <= k < source_views(earlier).len() && source_views(earlier)[k] == runs[i].source_id@;
                assert(source_views(order)[k] == runs[i].source_id@);
            } else if !source_views(earlier).contains(runs.last().source_id@) {
                assert(source_views(order)[earlier.len() as int] == runs[i].source_id@);
            }
        }
        assert forall|j: int| 0 <= j < order.len() implies exists|i: int| 0 <= i < runs.len() && #[trigger] runs[i].source_id == #[trigger] order[j] by {
            if j < earlier.len() {
                let i = choose|i: int| 0 <= i < earlier_runs.len() && #[trigger] earlier_runs[i].source_id == #[trigger] earlier[j];
                assert(runs[i] == earlier_runs[i]);
            } else {
                assert(runs[runs.len() - 1].source_id == order[j]);
            }
        }
        if !source_views(earlier).contains(runs.last().source_id@) {
            assert forall|a: int, b: int| 0 <= a < b < source_views(order).len() implies source_views(order)[a] != source_views(order)[b] by {
                if b == earlier.len() {
                    assert(source_views(earlier)[a] == source_views(order)[a]);
                } else {
                    assert(source_views(earlier)[a] == source_views(order)[a]);
                    assert(source_views(earlier)[b] == source_views(order)[b]);
                }
            }
        }
    }
}

proof fn lemma_count_none<S>(slots: Seq<Option<SourceResponse<S>>>)
    requires
        forall|j: int| 0 <= j < slots.len() ==> slots[j] is None,
    ensures
        count_answered(slots) == 0,
    decreases slots.len(),
{
    if slots.len() > 0 {
        lemma_count_none(slots.drop_last());
    }
}

/// Keeps outstanding reads consistent and indexed by key and generation.
pub struct PanelReadCoordinator<S> {
    pending: Vec<PendingPanelRead<S>>,
}

impl<S> PanelReadCoordinator<S> {
    /// The outstanding reads, oldest first.
    pub closed spec fn reads(&self) -> Seq<PendingPanelRead<S>> {
        self.pending@
    }

    #[verifier::type_invariant]
    closed spec fn consistent(self) -> bool {
        reads_wf(self.pending@)
    }

    /// A coordinator with no outstanding reads.
    pub fn new() -> (coordinator: Self)
        ensures
            coordinator.reads().len() == 0,
    {
        PanelReadCoordinator { pending: Vec::new() }
    }

    /// The outstanding reads are always consistent.
    pub fn check_consistent(&self)
        ensures
            reads_wf(self.reads()),
    {
        proof {
            use_type_invariant(self);
        }
    }

    fn find_in_flight(&self, generation: Generation, kind: ReadKind) -> (index: Option<usize>)
        ensures
            match index {
                Some(i) => i < self.reads().len() && in_flight(self.reads()[i as int]) == (
                    generation.0,
                    kind,
                ),
                None => !has_in_flight(self.reads(), generation, kind),
            },
    {
        let mut i: usize = 0;
        while i < self.pending.len()
            invariant
                i <= self.pending@.len(),
                forall|k: int| 0 <= k < i ==> in_flight(#[trigger] self.pending@[k]) != (generation.0, kind),
            decreases self.pending@.len() - i,
        {
            if self.pending[i].tag.generation == generation && self.pending[i].kind == kind {
                return Some(i);
            }
            i = i + 1;
        }
        None
    }

    fn find_key(&self, view_id: &AnalysisViewId, panel_id: &MetricPanelId, kind: ReadKind) -> (index: Option<usize>)
        ensures
            match index {
                Some(i) => i < self.reads().len() && read_key(self.reads()[i as int]) == (
                    view_id@,
                    panel_id@,
                    kind,
                ),
                None => forall|k: int| 0 <= k < self.reads().len() ==> read_key(#[trigger] self.reads()[k]) != (view_id@, panel_id@, kind),
            },
    {
        let mut i: usize = 0;
        while i < self.pending.len()
            invariant
                i <= self.pending@.len(),
                forall|k: int| 0 <= k < i ==> read_key(#[trigger] self.pending@[k]) != (view_id@, panel_id@, kind),
            decreases self.pending@.len() - i,
        {
            let entry = &self.pending[i];
            if entry.tag.view_id.same_as(view_id) && entry.tag.panel_id.same_as(panel_id) && entry.kind == kind {
                return Some(i);
            }
            i = i + 1;
        }
        None
    }
}

/// Sources of `runs`, each once, in order of first appearance.
fn plan_source_order(runs: &Vec<RunRef>) -> (order: Vec<DataSourceId>)
    ensures
        order@ == source_order_of(runs@),
{
    let mut order: Vec<DataSourceId> = Vec::new();
    let mut i: usize = 0;
    while i < runs.len()
        invariant
            i <= runs@.len(),
            order@ == source_order_of(runs@.take(i as int)),
        decreases runs@.len() - i,
    {
        let source_id = &runs[i].source_id;
        let mut k: usize = 0;
        let mut seen = false;
        while k < order.len()
            invariant
                k <= order@.len(),
                seen == (exists|m: int| 0 <= m < k && (#[trigger] order@[m])@ == source_id@),
            decreases order@.len() - k,
        {
            if order[k].same_as(source_id) {
                seen = true;
            }
            k = k + 1;
        }
        proof {
            let prefix = runs@.take(i + 1);
            assert(prefix.drop_last() =~= runs@.take(i as int));
            assert(prefix.last() == runs@[i as int]);
            if seen {
                let m = choose|m: int| 0 <= m < k && (#[trigger] order@[m])@ == source_id@;
                assert(source_views(order@)[m] == source_id@);
            } else {
                assert forall|m: int| 0 <= m < source_views(order@).len() implies source_views(order@)[m] != source_id@ by {
                    assert(order@[m]@ != source_id@);
                }
            }
        }
        if !seen {
            order.push(source_id.duplicate());
        }
        i = i + 1;
    }
    proof {
        assert(runs@.take(i as int) =~= runs@);
    }
    order
}

/// The Runs of `runs` that belong to `source_id`, in order.
fn runs_for_source(runs: &Vec<RunRef>, source_id: &DataSourceId) -> (group: Vec<RunRef>)
    ensures
        group@ == runs_of_source(runs@, source_id@),
{
    let mut group: Vec<RunRef> = Vec::new();
    let mut i: usize = 0;
    while i < runs.len()
        invariant
            i <= runs@.len(),
            group@ == runs_of_source(runs@.take(i as int), source_id@),
        decreases runs@.len() - i,
    {
        proof {
            let prefix = runs@.take(i + 1);
            assert(prefix.drop_last() =~= runs@.take(i as int));
            assert(prefix.last() == runs@[i as int]);
        }
        if runs[i].source_id.same_as(source_id) {
            group.push(runs[i].duplicate());
        }
        i = i + 1;
    }
    proof {
        assert(runs@.take(i as int) =~= runs@);
    }
    group
}

impl PanelReadRequest {
    /// The result stream of this read.
    pub fn kind(&self) -> (kind: ReadKind)
        ensures
            kind == panel_request_kind(self),
    {
        match self {
            PanelReadRequest::Overview { .. } => ReadKind::Overview,
            PanelReadRequest::Detail { .. } => ReadKind::Detail,
        }
    }

    /// The Runs this read covers.
    pub fn runs(&self) -> (runs: &Vec<RunRef>)
        ensures
            runs@ == panel_request_runs(self),
    {
        match self {
            PanelReadRequest::Overview { runs, .. } => runs,
            PanelReadRequest::Detail { runs, .. } => runs,
        }
    }

    /// The storage read of this panel read for one source and its Runs.
    pub fn for_source(&self, source_id: DataSourceId, runs: Vec<RunRef>) -> (read: ReadRequest)
        ensures
            plans_source_read(self, source_id, runs@, &read),
    {
        match self {
            PanelReadRequest::Overview { metric_key, axis, physical_width, .. } => {
                ReadRequest::Overview(
                    OverviewRequest {
                        selection: CurveSelection {
                            source_id,
                            runs,
                            metric_key: metric_key.duplicate(),
                            axis: *axis,
                        },
                        physical_width: *physical_width,
                    },
                )
            },
            PanelReadRequest::Detail { metric_key, axis, viewport, physical_width, .. } => {
                ReadRequest::Detail(
                    DetailRequest {
                        selection: CurveSelection {
                            source_id,
                            runs,
                            metric_key: metric_key.duplicate(),
                            axis: *axis,
                        },
                        viewport: *viewport,
                        physical_width: *physical_width,
                    },
                )
            },
        }
    }

    fn into_runs(self) -> (runs: Vec<RunRef>)
        ensures
            runs@ == panel_request_runs(&self),
    {
        match self {
            PanelReadRequest::Overview { runs, .. } => runs,
            PanelReadRequest::Detail { runs, .. } => runs,
        }
    }
}


impl<S> PanelReadCoordinator<S> {
    /// Starts a panel read, replacing any outstanding read of the same View,
    /// panel and kind, and plans one storage read per source.
    ///
    /// Fails with `EmptySelection` when the read names no Run, and with
    /// `DuplicateGeneration` when an outstanding read of the same kind already
    /// uses the generation; in both cases nothing changes.
    pub fn begin(&mut self, tag: PanelReadTag, request: PanelReadRequest) -> (result: Result<
        Vec<PlannedSourceRead>,
        PanelCoordinationError,
    >)
        ensures
            reads_wf(final(self).reads()),
            panel_request_runs(&request).len() == 0 ==> {
                &&& result == Err::<Vec<PlannedSourceRead>, PanelCoordinationError>(
                    PanelCoordinationError::EmptySelection,
                )
                &&& final(self).reads() == old(self).reads()
            },
            panel_request_runs(&request).len() > 0 && has_in_flight(
                old(self).reads(),
                tag.generation,
                panel_request_kind(&request),
            ) ==> {
                &&& result == Err::<Vec<PlannedSourceRead>, PanelCoordinationError>(
                    PanelCoordinationError::DuplicateGeneration(tag.generation),
                )
                &&& final(self).reads() == old(self).reads()
            },
            panel_request_runs(&request).len() > 0 && !has_in_flight(
                old(self).reads(),
                tag.generation,
                panel_request_kind(&request),
            ) ==> {
                &&& result matches Ok(planned) && plans_panel_read(tag, &request, planned@)
                &&& started_read(old(self).reads(), final(self).reads(), tag, &request)
            },
    {
        proof {
            use_type_invariant(&*self);
        }
        if request.runs().len() == 0 {
            return Err(PanelCoordinationError::EmptySelection);
        }
        let kind = request.kind();
        if self.find_in_flight(tag.generation, kind).is_some() {
            return Err(PanelCoordinationError::DuplicateGeneration(tag.generation));
        }
        let ghost runs = panel_request_runs(&request);
        let order = plan_source_order(request.runs());
        proof {
            lemma_source_order(runs);
        }
        let mut planned: Vec<PlannedSourceRead> = Vec::new();
        let mut j: usize = 0;
        while j < order.len()
            invariant
                j <= order@.len(),
                order@ == source_order_of(runs),
                runs == panel_request_runs(&request),
                planned@.len() == j,
                forall|k: int|
                    0 <= k < j ==> {
                        &&& (#[trigger] planned@[k]).tag == tag
                        &&& planned@[k].source_id == order@[k]
                        &&& planned@[k].generation == tag.generation
                        &&& plans_source_read(&request, order@[k], runs_of_source(runs, order@[k]@), &planned@[k].request)
                    },
            decreases order@.len() - j,
        {
            let group = runs_for_source(request.runs(), &order[j]);
            let read = request.for_source(order[j].duplicate(), group);
            planned.push(
                PlannedSourceRead {
                    tag: tag.duplicate(),
                    source_id: order[j].duplicate(),
                    generation: tag.generation,
                    request: read,
                },
            );
            j = j + 1;
        }
        let existing = self.find_key(&tag.view_id, &tag.panel_id, kind);
        let ghost before = self.pending@;
        let ghost key = (tag.view_id@, tag.panel_id@, kind);
        let mut pending: Vec<PendingPanelRead<S>> = Vec::new();
        std::mem::swap(&mut pending, &mut self.pending);
        match existing {
            Some(i) => {
                pending.remove(i);
                proof {
                    let c = choose|c: int| 0 <= c < before.len() && read_key(#[trigger] before[c]) == key;
                    if c != i {
                        if c < i {
                            assert(read_key(before[c]) != read_key(before[i as int]));
                        } else {
                            assert(read_key(before[i as int]) != read_key(before[c]));
                        }
                    }
                    assert(pending@ == without_key(before, key));
                }
            },
            None => {
                proof {
                    assert(pending@ == without_key(before, key));
                }
            },
        }
        let ghost rest = pending@;
        let mut responses: Vec<Option<SourceResponse<S>>> = Vec::new();
        let mut k: usize = 0;
        while k < order.len()
            invariant
                k <= order@.len(),
                responses@.len() == k,
                forall|m: int| 0 <= m < k ==> responses@[m] is None,
            decreases order@.len() - k,
        {
            responses.push(None);
            k = k + 1;
        }
        proof {
            lemma_count_none(responses@);
        }
        let ghost tag_value = tag;
        pending.push(
            PendingPanelRead {
                tag,
                kind,
                run_order: request.into_runs(),
                source_order: order,
                responses,
                received: 0,
            },
        );
        proof {
            let after = pending@;
            let fresh = after.last();
            assert(in_flight(fresh) == (tag_value.generation.0, kind));
            assert forall|i: int| 0 <= i < rest.len() implies in_flight(#[trigger] rest[i]) != in_flight(fresh) && read_key(rest[i]) != read_key(fresh) by {
                let orig = if existing is Some && i >= existing->0 { i + 1 } else { i };
                assert(rest[i] == before[orig]);
                assert(in_flight(before[orig]) != (tag_value.generation.0, kind));
            }
            assert forall|i: int| 0 <= i < after.len() implies pending_wf(#[trigger] after[i]) by {
                if i < rest.len() {
                    let orig = if existing is Some && i >= existing->0 { i + 1 } else { i };
                    assert(after[i] == before[orig]);
                }
            }
            assert forall|a: int, b: int| 0 <= a < b < after.len() implies read_key(#[trigger] after[a]) != read_key(#[trigger] after[b]) && in_flight(after[a]) != in_flight(after[b]) by {
                if b == rest.len() {
                    assert(after[a] == rest[a]);
                } else {
                    let oa = if existing is Some && a >= existing->0 { a + 1 } else { a };
                    let ob = if existing is Some && b >= existing->0 { b + 1 } else { b };
                    assert(after[a] == before[oa]);
                    assert(after[b] == before[ob]);
                }
            }
        }
        self.pending = pending;
        Ok(planned)
    }
}


// ----- Merging the answers of one panel read -----

/// The covered range of an optional viewport.
pub open spec fn span(range: Option<AlignmentViewport>) -> Option<(i64, i64)> {
    match range {
        Some(r) => Some(r@),
        None => None,
    }
}

/// The smallest range covering both, as `union_range` computes it.
pub open spec fn union_span(current: Option<(i64, i64)>, next: Option<(i64, i64)>) -> Option<(i64, i64)> {
    match (current, next) {
        (Some(c), Some(n)) => {
            let start = if c.0 <= n.0 { c.0 } else { n.0 };
            let end = if c.1 >= n.1 { c.1 } else { n.1 };
            if start <= end { Some((start, end)) } else { None }
        },
        (Some(c), None) => Some(c),
        (None, n) => n,
    }
}

/// The snapshots of the successful answers, in source order.
pub open spec fn successes<S>(slots: Seq<Option<SourceResponse<S>>>) -> Seq<CurveSnapshot<S>>
    decreases slots.len(),
{
    if slots.len() == 0 {
        Seq::empty()
    } else {
        let earlier = successes(slots.drop_last());
        match slots.last() {
            Some(Ok(snapshot)) => earlier.push(snapshot),
            _ => earlier,
        }
    }
}

/// The failed answers, in source order, with the source they came from.
pub open spec fn failures<S>(order: Seq<DataSourceId>, slots: Seq<Option<SourceResponse<S>>>) -> Seq<
    SourceReadFailure,
>
    decreases slots.len(),
{
    if slots.len() == 0 {
        Seq::empty()
    } else {
        let earlier = failures(order, slots.drop_last());
        match slots.last() {
            Some(Err(message)) => earlier.push(
                SourceReadFailure { source_id: order[slots.len() - 1], message },
            ),
            _ => earlier,
        }
    }
}

/// The union of the data-derived ranges of the successful answers.
pub open spec fn union_all<S>(snapshots: Seq<CurveSnapshot<S>>) -> Option<(i64, i64)>
    decreases snapshots.len(),
{
    if snapshots.len() == 0 {
        None
    } else {
        union_span(union_all(snapshots.drop_last()), span(snapshots.last().real_range))
    }
}

/// The union of two ranges is the smallest range covering both, whether or
/// not they overlap: it starts at the earlier start and ends at the later
/// end; a missing range leaves the other as it is.
pub proof fn union_covers_both_ranges(c: (i64, i64), n: (i64, i64))
    requires
        c.0 <= c.1,
        n.0 <= n.1,
    ensures
        union_span(Some(c), Some(n)) matches Some(u) && u.0 <= c.0 && u.0 <= n.0 && c.1 <= u.1 && n.1
            <= u.1 && (u.0 == c.0 || u.0 == n.0) && (u.1 == c.1 || u.1 == n.1),
        union_span(Some(c), None) == Some(c),
        union_span(None, Some(n)) == Some(n),
        union_span(None, None) is None,
{
}

/// The merged data range covers the range of every successful answer that
/// reported one, and is present exactly when one of them did.
pub proof fn merged_range_covers_every_answer<S>(snapshots: Seq<CurveSnapshot<S>>)
    requires
        forall|i: int| 0 <= i < snapshots.len() ==> (#[trigger] span(snapshots[i].real_range) matches Some(r)
            && r.0 <= r.1),
    ensures
        (union_all(snapshots) is Some) == (exists|i: int| 0 <= i < snapshots.len() && #[trigger] span(snapshots[i].real_range) is Some),
        union_all(snapshots) matches Some(u) ==> u.0 <= u.1,
        forall|i: int| 0 <= i < snapshots.len() ==> (#[trigger] span(snapshots[i].real_range) matches Some(r)
            ==> union_all(snapshots) matches Some(u) && u.0 <= r.0 && r.1 <= u.1),
    decreases snapshots.len(),
{
    if snapshots.len() > 0 {
        let earlier = snapshots.drop_last();
        assert forall|i: int| 0 <= i < earlier.len() implies (#[trigger] span(earlier[i].real_range) matches Some(r)
            && r.0 <= r.1) by {
            assert(earlier[i] == snapshots[i]);
        }
        merged_range_covers_every_answer(earlier);
        let last = span(snapshots.last().real_range);
        assert(last matches Some(r) && r.0 <= r.1);
        assert((exists|i: int| 0 <= i < snapshots.len() && #[trigger] span(snapshots[i].real_range) is Some) == ((
        exists|i: int| 0 <= i < earlier.len() && #[trigger] span(earlier[i].real_range) is Some) || last is Some)) by {
            if exists|i: int| 0 <= i < snapshots.len() && #[trigger] span(snapshots[i].real_range) is Some {
                let i = choose|i: int| 0 <= i < snapshots.len() && #[trigger] span(snapshots[i].real_range) is Some;
                if i < earlier.len() {
                    assert(earlier[i] == snapshots[i]);
                }
            }
            if exists|i: int| 0 <= i < earlier.len() && #[trigger] span(earlier[i].real_range) is Some {
                let i = choose|i: int| 0 <= i < earlier.len() && #[trigger] span(earlier[i].real_range) is Some;
                assert(earlier[i] == snapshots[i]);
            }
            if last is Some {
                assert(span(snapshots[snapshots.len() - 1].real_range) is Some);
            }
        }
        assert forall|i: int| 0 <= i < snapshots.len() implies (#[trigger] span(snapshots[i].real_range) matches Some(r)
            ==> union_all(snapshots) matches Some(u) && u.0 <= r.0 && r.1 <= u.1) by {
            if i < earlier.len() {
                assert(earlier[i] == snapshots[i]);
            }
        }
    }
}

/// `m` with each curve stored under its Run, later curves replacing earlier ones.
pub open spec fn insert_curves<S>(
    m: Map<RunRefView, CurveSeriesSnapshot<S>>,
    curves: Seq<CurveSeriesSnapshot<S>>,
) -> Map<RunRefView, CurveSeriesSnapshot<S>>
    decreases curves.len(),
{
    if curves.len() == 0 {
        m
    } else {
        insert_curves(m, curves.drop_last()).insert(curves.last().run_ref@, curves.last())
    }
}

/// Every curve of the successful answers, by Run; a later answer wins.
pub open spec fn curve_map<S>(snapshots: Seq<CurveSnapshot<S>>) -> Map<RunRefView, CurveSeriesSnapshot<S>>
    decreases snapshots.len(),
{
    if snapshots.len() == 0 {
        Map::empty()
    } else {
        insert_curves(curve_map(snapshots.drop_last()), snapshots.last().series@)
    }
}

/// The curves of `m` in panel Run order, each taken at most once.
pub open spec fn pick<S>(m: Map<RunRefView, CurveSeriesSnapshot<S>>, order: Seq<RunRef>) -> Seq<
    CurveSeriesSnapshot<S>,
>
    decreases order.len(),
{
    if order.len() == 0 {
        Seq::empty()
    } else {
        let r = order[0]@;
        if m.contains_key(r) {
            seq![m[r]] + pick(m.remove(r), order.drop_first())
        } else {
            pick(m, order.drop_first())
        }
    }
}

/// `snap` is the merge of a completed read: failures in source order, and,
/// when any source succeeded, the first success's viewport and budget, the
/// union of the data ranges, and every answered curve in panel Run order.
pub open spec fn merged_read<S>(
    tag: PanelReadTag,
    run_order: Seq<RunRef>,
    order: Seq<DataSourceId>,
    slots: Seq<Option<SourceResponse<S>>>,
    snap: PanelReadSnapshot<S>,
) -> bool {
    let succ = successes(slots);
    &&& snap.tag == tag
    &&& snap.source_errors@ == failures(order, slots)
    &&& succ.len() == 0 ==> snap.curves is None
    &&& succ.len() > 0 ==> {
        &&& snap.curves matches Some(c)
        &&& c.viewport == succ[0].viewport
        &&& c.point_budget == succ[0].point_budget
        &&& span(c.real_range) == union_all(succ)
        &&& c.series@ == pick(curve_map(succ), run_order)
    }
}

/// The Run texts of a sequence of curves.
pub open spec fn curve_runs<S>(v: Seq<CurveSeriesSnapshot<S>>) -> Seq<RunRefView> {
    v.map_values(|c: CurveSeriesSnapshot<S>| c.run_ref@)
}

/// A position of a curve for Run `k` in `v`.
pub open spec fn curve_index<S>(v: Seq<CurveSeriesSnapshot<S>>, k: RunRefView) -> int {
    choose|i: int| 0 <= i < v.len() && (#[trigger] v[i]).run_ref@ == k
}

/// Whether `v` holds a curve for Run `k`.
pub open spec fn has_curve<S>(v: Seq<CurveSeriesSnapshot<S>>, k: RunRefView) -> bool {
    exists|i: int| 0 <= i < v.len() && (#[trigger] v[i]).run_ref@ == k
}

/// The curves of `v` by Run.
pub open spec fn vec_map<S>(v: Seq<CurveSeriesSnapshot<S>>) -> Map<RunRefView, CurveSeriesSnapshot<S>> {
    Map::new(|k: RunRefView| has_curve(v, k), |k: RunRefView| v[curve_index(v, k)])
}

proof fn lemma_vec_map_at<S>(v: Seq<CurveSeriesSnapshot<S>>, i: int)
    requires
        distinct(curve_runs(v)),
        0 <= i < v.len(),
    ensures
        vec_map(v).contains_key(v[i].run_ref@),
        vec_map(v)[v[i].run_ref@] == v[i],
{
    let k = v[i].run_ref@;
    assert(exists|c: int| 0 <= c < v.len() && (#[trigger] v[c]).run_ref@ == k) by {
        assert(v[i].run_ref@ == k);
    }
    assert(has_curve(v, k));
    let c = curve_index(v, k);
    assert(vec_map(v).contains_key(k));
    assert(vec_map(v)[k] == v[c]);
    assert(curve_runs(v)[c] == k);
    assert(curve_runs(v)[i] == k);
    if c != i {
        if c < i {
            assert(curve_runs(v)[c] != curve_runs(v)[i]);
        } else {
            assert(curve_runs(v)[i] != curve_runs(v)[c]);
        }
    }
}

proof fn lemma_vec_map_update<S>(v: Seq<CurveSeriesSnapshot<S>>, g: int, x: CurveSeriesSnapshot<S>)
    requires
        distinct(curve_runs(v)),
        0 <= g < v.len(),
        v[g].run_ref@ == x.run_ref@,
    ensures
        distinct(curve_runs(v.update(g, x))),
        vec_map(v.update(g, x)) == vec_map(v).insert(x.run_ref@, x),
{
    let w = v.update(g, x);
    assert(curve_runs(w) =~= curve_runs(v));
    assert forall|k: RunRefView| #[trigger] vec_map(w).contains_key(k) == vec_map(v).insert(x.run_ref@, x).contains_key(k) by {
        if vec_map(w).contains_key(k) {
            assert(has_curve(w, k));
            let i = curve_index(w, k);
            assert(curve_runs(w)[i] == k);
            assert(v[i].run_ref@ == k);
        }
        if vec_map(v).contains_key(k) {
            assert(has_curve(v, k));
            let i = curve_index(v, k);
            assert(curve_runs(v)[i] == k);
            assert(w[i].run_ref@ == k);
        }
        if k == x.run_ref@ {
            assert(w[g].run_ref@ == k);
        }
    }
    assert forall|k: RunRefView| #[trigger] vec_map(w).contains_key(k) implies vec_map(w)[k] == vec_map(v).insert(x.run_ref@, x)[k] by {
        assert(has_curve(w, k));
        let i = curve_index(w, k);
        assert(0 <= i < w.len() && w[i].run_ref@ == k);
        assert(curve_runs(w)[i] == k);
        lemma_vec_map_at(w, i);
        if i != g {
            assert(v[i] == w[i]);
            assert(curve_runs(v)[i] == k);
            lemma_vec_map_at(v, i);
            assert(curve_runs(w)[g] == x.run_ref@);
            if i < g {
                assert(curve_runs(w)[i] != curve_runs(w)[g]);
            } else {
                assert(curve_runs(w)[g] != curve_runs(w)[i]);
            }
            assert(k != x.run_ref@);
        } else {
            assert(w[i] == x);
        }
    }
    assert(vec_map(w) =~= vec_map(v).insert(x.run_ref@, x));
}

proof fn lemma_vec_map_push<S>(v: Seq<CurveSeriesSnapshot<S>>, x: CurveSeriesSnapshot<S>)
    requires
        distinct(curve_runs(v)),
        !vec_map(v).contains_key(x.run_ref@),
    ensures
        distinct(curve_runs(v.push(x))),
        vec_map(v.push(x)) == vec_map(v).insert(x.run_ref@, x),
{
    let w = v.push(x);
    assert(curve_runs(w) =~= curve_runs(v).push(x.run_ref@));
    assert forall|a: int, b: int| 0 <= a < b < curve_runs(w).len() implies curve_runs(w)[a] != curve_runs(w)[b] by {
        if b == v.len() {
            assert(v[a].run_ref@ == curve_runs(w)[a]);
            if curve_runs(w)[a] == curve_runs(w)[b] {
                assert(vec_map(v).contains_key(x.run_ref@));
            }
        } else {
            assert(curve_runs(v)[a] == curve_runs(w)[a]);
            assert(curve_runs(v)[b] == curve_runs(w)[b]);
        }
    }
    assert forall|k: RunRefView| #[trigger] vec_map(w).contains_key(k) == vec_map(v).insert(x.run_ref@, x).contains_key(k) by {
        if vec_map(w).contains_key(k) {
            assert(has_curve(w, k));
            let i = curve_index(w, k);
            if i < v.len() {
                assert(v[i].run_ref@ == k);
            }
        }
        if vec_map(v).contains_key(k) {
            assert(has_curve(v, k));
            let i = curve_index(v, k);
            assert(w[i].run_ref@ == k);
        }
        if k == x.run_ref@ {
            assert(w[v.len() as int].run_ref@ == k);
        }
    }
    assert forall|k: RunRefView| #[trigger] vec_map(w).contains_key(k) implies vec_map(w)[k] == vec_map(v).insert(x.run_ref@, x)[k] by {
        assert(has_curve(w, k));
            let i = curve_index(w, k);
        assert(curve_runs(w)[i] == k);
        lemma_vec_map_at(w, i);
        if i < v.len() {
            assert(v[i] == w[i]);
            assert(curve_runs(v)[i] == k);
            lemma_vec_map_at(v, i);
        }
    }
    assert(vec_map(w) =~= vec_map(v).insert(x.run_ref@, x));
}

proof fn lemma_vec_map_remove<S>(v: Seq<CurveSeriesSnapshot<S>>, g: int)
    requires
        distinct(curve_runs(v)),
        0 <= g < v.len(),
    ensures
        distinct(curve_runs(v.remove(g))),
        vec_map(v.remove(g)) == vec_map(v).remove(v[g].run_ref@),
{
    let w = v.remove(g);
    let r = v[g].run_ref@;
    assert forall|a: int, b: int| 0 <= a < b < curve_runs(w).len() implies curve_runs(w)[a] != curve_runs(w)[b] by {
        let oa = if a < g { a } else { a + 1 };
        let ob = if b < g { b } else { b + 1 };
        assert(curve_runs(v)[oa] == curve_runs(w)[a]);
        assert(curve_runs(v)[ob] == curve_runs(w)[b]);
    }
    assert forall|k: RunRefView| #[trigger] vec_map(w).contains_key(k) == vec_map(v).remove(r).contains_key(k) by {
        if vec_map(w).contains_key(k) {
            assert(has_curve(w, k));
            let i = curve_index(w, k);
            let oi = if i < g { i } else { i + 1 };
            assert(v[oi].run_ref@ == k);
            assert(curve_runs(v)[oi] != curve_runs(v)[g]);
        }
        if vec_map(v).remove(r).contains_key(k) {
            assert(has_curve(v, k));
            let i = curve_index(v, k);
            assert(i != g);
            let wi = if i < g { i } else { i - 1 };
            assert(w[wi].run_ref@ == k);
        }
    }
    assert forall|k: RunRefView| #[trigger] vec_map(w).contains_key(k) implies vec_map(w)[k] == vec_map(v).remove(r)[k] by {
        assert(has_curve(w, k));
            let i = curve_index(w, k);
        assert(curve_runs(w)[i] == k);
        lemma_vec_map_at(w, i);
        let oi = if i < g { i } else { i + 1 };
        assert(v[oi] == w[i]);
        assert(curve_runs(v)[oi] == k);
        lemma_vec_map_at(v, oi);
    }
    assert(vec_map(w) =~= vec_map(v).remove(r));
}

/// The smallest range covering both ranges; either may be missing.
pub fn union_range(current: Option<AlignmentViewport>, next: Option<AlignmentViewport>) -> (union:
    Option<AlignmentViewport>)
    ensures
        span(union) == union_span(span(current), span(next)),
        match (current, next) {
            (Some(c), Some(n)) => union matches Some(u) && u@.0 <= c@.0 && u@.0 <= n@.0 && c@.1 <= u@.1
                && n@.1 <= u@.1 && (u@.0 == c@.0 || u@.0 == n@.0) && (u@.1 == c@.1 || u@.1 == n@.1),
            _ => true,
        },
        current is None ==> span(union) == span(next),
        next is None ==> span(union) == span(current),
{
    match (current, next) {
        (Some(c), Some(n)) => {
            let start = if c.start() <= n.start() { c.start() } else { n.start() };
            let end = if c.end() >= n.end() { c.end() } else { n.end() };
            let union = AlignmentViewport::new(start, end);
            proof {
                union_covers_both_ranges(c@, n@);
            }
            union
        },
        (Some(c), None) => Some(c),
        (None, n) => n,
    }
}

fn find_curve<S>(collected: &Vec<CurveSeriesSnapshot<S>>, run_ref: &RunRef) -> (index: Option<usize>)
    ensures
        match index {
            Some(g) => g < collected@.len() && collected@[g as int].run_ref@ == run_ref@,
            None => !vec_map(collected@).contains_key(run_ref@),
        },
{
    let mut g: usize = 0;
    while g < collected.len()
        invariant
            g <= collected@.len(),
            forall|k: int| 0 <= k < g ==> (#[trigger] collected@[k]).run_ref@ != run_ref@,
        decreases collected@.len() - g,
    {
        if collected[g].run_ref.same_as(run_ref) {
            return Some(g);
        }
        g = g + 1;
    }
    None
}

fn insert_curve<S>(collected: &mut Vec<CurveSeriesSnapshot<S>>, curve: CurveSeriesSnapshot<S>)
    requires
        distinct(curve_runs(old(collected)@)),
    ensures
        distinct(curve_runs(final(collected)@)),
        vec_map(final(collected)@) == vec_map(old(collected)@).insert(curve.run_ref@, curve),
{
    match find_curve(collected, &curve.run_ref) {
        Some(g) => {
            let ghost before = collected@;
            proof {
                lemma_vec_map_update(before, g as int, curve);
            }
            collected.set(g, curve);
        },
        None => {
            proof {
                lemma_vec_map_push(collected@, curve);
            }
            collected.push(curve);
        },
    }
}

proof fn lemma_successes_step<S>(slots: Seq<Option<SourceResponse<S>>>, j: int)
    requires
        0 <= j < slots.len(),
    ensures
        successes(slots.take(j + 1)) == match slots[j] {
            Some(Ok(snapshot)) => successes(slots.take(j)).push(snapshot),
            _ => successes(slots.take(j)),
        },
{
    assert(slots.take(j + 1).drop_last() =~= slots.take(j));
}

proof fn lemma_failures_step<S>(order: Seq<DataSourceId>, slots: Seq<Option<SourceResponse<S>>>, j: int)
    requires
        0 <= j < slots.len(),
    ensures
        failures(order, slots.take(j + 1)) == match slots[j] {
            Some(Err(message)) => failures(order, slots.take(j)).push(
                SourceReadFailure { source_id: order[j], message },
            ),
            _ => failures(order, slots.take(j)),
        },
{
    assert(slots.take(j + 1).drop_last() =~= slots.take(j));
}

/// Merges every answer of a completed read.
pub fn merge_panel_read<S>(pending: PendingPanelRead<S>) -> (snap: PanelReadSnapshot<S>)
    requires
        pending.responses@.len() == pending.source_order@.len(),
    ensures
        merged_read(pending.tag, pending.run_order@, pending.source_order@, pending.responses@, snap),
{
    let ghost slots = pending.responses@;
    let ghost order = pending.source_order@;
    let ghost run_order = pending.run_order@;
    let ghost tag_value = pending.tag;
    let PendingPanelRead { tag, kind: _, run_order: run_vec, source_order, mut responses, received: _ } = pending;
    let n = source_order.len();
    let mut shape: Option<(AlignmentViewport, u32)> = None;
    let mut real_range: Option<AlignmentViewport> = None;
    let mut collected: Vec<CurveSeriesSnapshot<S>> = Vec::new();
    let mut source_errors: Vec<SourceReadFailure> = Vec::new();
    let mut j: usize = 0;
    while j < n
        invariant
            n == order.len(),
            n == slots.len(),
            source_order@ == order,
            j <= n,
            responses@ == slots.skip(j as int),
            source_errors@ == failures(order, slots.take(j as int)),
            successes(slots.take(j as int)).len() == 0 ==> shape is None,
            successes(slots.take(j as int)).len() > 0 ==> shape == Some(
                (
                    successes(slots.take(j as int))[0].viewport,
                    successes(slots.take(j as int))[0].point_budget,
                ),
            ),
            span(real_range) == union_all(successes(slots.take(j as int))),
            distinct(curve_runs(collected@)),
            vec_map(collected@) == curve_map(successes(slots.take(j as int))),
        decreases n - j,
    {
        proof {
            lemma_successes_step(slots, j as int);
            lemma_failures_step(order, slots, j as int);
            assert(slots.skip(j as int)[0] == slots[j as int]);
            assert(slots.skip(j as int).remove(0) =~= slots.skip(j + 1));
        }
        let slot = responses.remove(0);
        let ghost succ_before = successes(slots.take(j as int));
        match slot {
            Some(Ok(snapshot)) => {
                let ghost snap_value = snapshot;
                let CurveSnapshot { viewport, point_budget, real_range: snapshot_range, series } =
                    snapshot;
                if shape.is_none() {
                    shape = Some((viewport, point_budget));
                }
                real_range = union_range(real_range, snapshot_range);
                let mut curves = series;
                let ghost all_curves = curves@;
                let ghost mut m: int = 0;
                let ghost base = curve_map(succ_before);
                while curves.len() > 0
                    invariant
                        curves@ == all_curves.skip(m),
                        0 <= m <= all_curves.len(),
                        distinct(curve_runs(collected@)),
                        vec_map(collected@) == insert_curves(base, all_curves.take(m)),
                    decreases curves@.len(),
                {
                    proof {
                        assert(all_curves.skip(m)[0] == all_curves[m]);
                        assert(all_curves.skip(m).remove(0) =~= all_curves.skip(m + 1));
                        assert(all_curves.take(m + 1).drop_last() =~= all_curves.take(m));
                    }
                    let curve = curves.remove(0);
                    insert_curve(&mut collected, curve);
                    proof {
                        m = m + 1;
                    }
                }
                proof {
                    assert(all_curves.take(m) =~= all_curves);
                    let succ_after = successes(slots.take(j + 1));
                    assert(succ_after == succ_before.push(snap_value));
                    assert(succ_after.drop_last() =~= succ_before);
                    if succ_before.len() > 0 {
                        assert(succ_after[0] == succ_before[0]);
                    }
                }
            },
            Some(Err(message)) => {
                source_errors.push(SourceReadFailure { source_id: source_order[j].duplicate(), message });
            },
            None => {},
        }
        j = j + 1;
    }
    proof {
        assert(slots.take(n as int) =~= slots);
    }
    let ghost full_map = vec_map(collected@);
    let mut series: Vec<CurveSeriesSnapshot<S>> = Vec::new();
    let mut k: usize = 0;
    proof {
        assert(run_order.skip(0) =~= run_order);
        assert(series@ + pick(vec_map(collected@), run_order.skip(0)) =~= pick(full_map, run_order));
    }
    while k < run_vec.len()
        invariant
            run_vec@ == run_order,
            k <= run_order.len(),
            distinct(curve_runs(collected@)),
            series@ + pick(vec_map(collected@), run_order.skip(k as int)) == pick(full_map, run_order),
        decreases run_order.len() - k,
    {
        let ghost rest = run_order.skip(k as int);
        proof {
            assert(rest[0] == run_order[k as int]);
            assert(rest.drop_first() =~= run_order.skip(k + 1));
        }
        match find_curve(&collected, &run_vec[k]) {
            Some(g) => {
                let ghost before = collected@;
                proof {
                    lemma_vec_map_remove(before, g as int);
                    lemma_vec_map_at(before, g as int);
                }
                let curve = collected.remove(g);
                let ghost series_before = series@;
                series.push(curve);
                proof {
                    assert(series@ + pick(vec_map(collected@), run_order.skip(k + 1)) =~= series_before + (
                    seq![curve] + pick(vec_map(collected@), run_order.skip(k + 1))));
                }
            },
            None => {},
        }
        k = k + 1;
    }
    proof {
        assert(run_order.skip(k as int) =~= Seq::<RunRef>::empty());
        assert(series@ =~= pick(full_map, run_order));
    }
    let curves = match shape {
        Some((viewport, point_budget)) => Some(CurveSnapshot { viewport, point_budget, real_range, series }),
        None => None,
    };
    PanelReadSnapshot { tag, curves, source_errors }
}


// ----- Applying answers -----

/// The answer recorded for an event's result: a curve snapshot as it is,
/// a failure's message, or a failure for a snapshot of the wrong kind.
pub open spec fn response_for_result<C, S, I>(
    result: Result<ReadSnapshot<C, S, I>, String>,
    response: SourceResponse<S>,
) -> bool {
    match result {
        Ok(ReadSnapshot::Overview(snapshot)) => response == Ok::<CurveSnapshot<S>, String>(snapshot),
        Ok(ReadSnapshot::Detail(snapshot)) => response == Ok::<CurveSnapshot<S>, String>(snapshot),
        Ok(ReadSnapshot::Catalog(_)) => response matches Err(message) && message@
            == "panel read returned a catalog snapshot"@,
        Ok(ReadSnapshot::Inspector(_)) => response matches Err(message) && message@
            == "panel read returned an inspector snapshot"@,
        Err(message) => response == Err::<CurveSnapshot<S>, String>(message),
    }
}

/// Read `i` is in flight under `generation` and `kind`, and its slot `j`
/// belongs to the source with text `source` and is still empty.
pub open spec fn open_slot<S>(
    reads: Seq<PendingPanelRead<S>>,
    generation: Generation,
    kind: ReadKind,
    source: Seq<char>,
    i: int,
    j: int,
) -> bool {
    &&& 0 <= i < reads.len()
    &&& in_flight(reads[i]) == (generation.0, kind)
    &&& 0 <= j < reads[i].source_order@.len()
    &&& reads[i].source_order@[j]@ == source
    &&& reads[i].responses@[j] is None
}

/// Whether an answer from `source` for `generation` and `kind` is awaited.
pub open spec fn awaits_answer<S>(
    reads: Seq<PendingPanelRead<S>>,
    generation: Generation,
    kind: ReadKind,
    source: Seq<char>,
) -> bool {
    exists|i: int, j: int| open_slot(reads, generation, kind, source, i, j)
}

/// Recording `result` in slot `j` of read `i` took `before` to `after`:
/// the read stays outstanding while answers are missing, and is removed and
/// merged once every source has answered.
pub open spec fn recorded_answer<C, S, I>(
    before: Seq<PendingPanelRead<S>>,
    after: Seq<PendingPanelRead<S>>,
    i: int,
    j: int,
    result: Result<ReadSnapshot<C, S, I>, String>,
    outcome: PanelReadOutcome<S>,
) -> bool {
    let p = before[i];
    exists|response: SourceResponse<S>|
        #![trigger response_for_result(result, response)]
        response_for_result(result, response) && {
            let slots = p.responses@.update(j, Some(response));
            if p.received + 1 < p.source_order@.len() {
                &&& outcome is AcceptedPending
                &&& after.len() == before.len()
                &&& forall|k: int| 0 <= k < after.len() && k != i ==> after[k] == before[k]
                &&& after[i].tag == p.tag
                &&& after[i].kind == p.kind
                &&& after[i].run_order == p.run_order
                &&& after[i].source_order == p.source_order
                &&& after[i].responses@ == slots
                &&& after[i].received == p.received + 1
            } else {
                &&& after == before.remove(i)
                &&& outcome matches PanelReadOutcome::Completed(snap) && merged_read(
                    p.tag,
                    p.run_order@,
                    p.source_order@,
                    slots,
                    snap,
                )
            }
        }
}

proof fn lemma_count_bounds<S>(slots: Seq<Option<SourceResponse<S>>>)
    ensures
        count_answered(slots) <= slots.len(),
        count_answered(slots) == slots.len() ==> forall|j: int| 0 <= j < slots.len() ==> slots[j] is Some,
    decreases slots.len(),
{
    if slots.len() > 0 {
        lemma_count_bounds(slots.drop_last());
        if count_answered(slots) == slots.len() {
            assert forall|j: int| 0 <= j < slots.len() implies slots[j] is Some by {
                if j < slots.len() - 1 {
                    assert(slots.drop_last()[j] == slots[j]);
                }
            }
        }
    }
}

proof fn lemma_count_fill<S>(slots: Seq<Option<SourceResponse<S>>>, j: int, x: SourceResponse<S>)
    requires
        0 <= j < slots.len(),
        slots[j] is None,
    ensures
        count_answered(slots.update(j, Some(x))) == count_answered(slots) + 1,
    decreases slots.len(),
{
    let t = slots.update(j, Some(x));
    if j == slots.len() - 1 {
        assert(t.drop_last() =~= slots.drop_last());
    } else {
        assert(t.drop_last() =~= slots.drop_last().update(j, Some(x)));
        lemma_count_fill(slots.drop_last(), j, x);
    }
}

impl<S> PanelReadCoordinator<S> {
    fn find_source(&self, i: usize, source_id: &DataSourceId) -> (slot: Option<usize>)
        requires
            i < self.reads().len(),
        ensures
            match slot {
                Some(j) => j < self.reads()[i as int].source_order@.len()
                    && self.reads()[i as int].source_order@[j as int]@ == source_id@,
                None => !source_views(self.reads()[i as int].source_order@).contains(source_id@),
            },
    {
        let order = &self.pending[i].source_order;
        let mut j: usize = 0;
        while j < order.len()
            invariant
                i < self.pending@.len(),
                *order == self.pending@[i as int].source_order,
                j <= order@.len(),
                forall|k: int| 0 <= k < j ==> (#[trigger] order@[k])@ != source_id@,
            decreases order@.len() - j,
        {
            if order[j].same_as(source_id) {
                return Some(j);
            }
            j = j + 1;
        }
        proof {
            if source_views(order@).contains(source_id@) {
                let k = choose|k: int| 0 <= k < source_views(order@).len() && source_views(order@)[k] == source_id@;
                assert(order@[k]@ == source_id@);
            }
        }
        None
    }

    /// Records one source's answer. Answers that no outstanding read awaits
    /// (superseded or deactivated generations, unknown sources, repeated
    /// answers) are ignored; the last awaited answer completes the read.
    pub fn apply<C, I>(&mut self, event: ReadEvent<C, S, I>) -> (outcome: PanelReadOutcome<S>)
        ensures
            reads_wf(final(self).reads()),
            !awaits_answer(old(self).reads(), event.generation, event.kind, event.source_id@) ==> {
                &&& outcome is IgnoredStale
                &&& final(self).reads() == old(self).reads()
            },
            awaits_answer(old(self).reads(), event.generation, event.kind, event.source_id@) ==> exists|i: int, j: int|
                #![trigger open_slot(old(self).reads(), event.generation, event.kind, event.source_id@, i, j)]
                open_slot(old(self).reads(), event.generation, event.kind, event.source_id@, i, j)
                    && recorded_answer(old(self).reads(), final(self).reads(), i, j, event.result, outcome),
    {
        proof {
            use_type_invariant(&*self);
        }
        let ghost before = self.pending@;
        let i = match self.find_in_flight(event.generation, event.kind) {
            Some(i) => i,
            None => {
                proof {
                    if awaits_answer(before, event.generation, event.kind, event.source_id@) {
                        let (a, b) = choose|a: int, b: int| open_slot(before, event.generation, event.kind, event.source_id@, a, b);
                        assert(in_flight(before[a]) == (event.generation.0, event.kind));
                    }
                }
                return PanelReadOutcome::IgnoredStale;
            },
        };
        proof {
            assert forall|a: int, b: int| open_slot(before, event.generation, event.kind, event.source_id@, a, b) implies a == i by {
                if a != i {
                    if a < i {
                        assert(in_flight(before[a]) != in_flight(before[i as int]));
                    } else {
                        assert(in_flight(before[i as int]) != in_flight(before[a]));
                    }
                }
            }
        }
        let j = match self.find_source(i, &event.source_id) {
            Some(j) => j,
            None => {
                proof {
                    if awaits_answer(before, event.generation, event.kind, event.source_id@) {
                        let (a, b) = choose|a: int, b: int| open_slot(before, event.generation, event.kind, event.source_id@, a, b);
                        assert(source_views(before[i as int].source_order@)[b] == event.source_id@);
                    }
                }
                return PanelReadOutcome::IgnoredStale;
            },
        };
        proof {
            assert(pending_wf(before[i as int]));
            assert forall|a: int, b: int| open_slot(before, event.generation, event.kind, event.source_id@, a, b) implies b == j by {
                let views = source_views(before[i as int].source_order@);
                if b != j {
                    assert(views[b] == event.source_id@);
                    assert(views[j as int] == event.source_id@);
                    if b < j {
                        assert(views[b] != views[j as int]);
                    } else {
                        assert(views[j as int] != views[b]);
                    }
                }
            }
        }
        if self.pending[i].responses[j].is_some() {
            return PanelReadOutcome::IgnoredStale;
        }
        proof {
            assert(open_slot(before, event.generation, event.kind, event.source_id@, i as int, j as int));
        }
        let ghost result_value = event.result;
        let ReadEvent { source_id: _, generation: _, kind: _, result } = event;
        let response: SourceResponse<S> = match result {
            Ok(ReadSnapshot::Overview(snapshot)) => Ok(snapshot),
            Ok(ReadSnapshot::Detail(snapshot)) => Ok(snapshot),
            Ok(ReadSnapshot::Catalog(_)) => Err("panel read returned a catalog snapshot".to_owned()),
            Ok(ReadSnapshot::Inspector(_)) => Err("panel read returned an inspector snapshot".to_owned()),
            Err(message) => Err(message),
        };
        proof {
            assert(response_for_result(result_value, response));
        }
        let ghost entry_before = before[i as int];
        let mut pending: Vec<PendingPanelRead<S>> = Vec::new();
        std::mem::swap(&mut pending, &mut self.pending);
        let mut entry = pending.remove(i);
        proof {
            lemma_count_fill(entry.responses@, j as int, response);
            lemma_count_bounds(entry.responses@.update(j as int, Some(response)));
        }
        entry.responses.set(j, Some(response));
        let order_len = entry.source_order.len();
        proof {
            assert(pending_wf(entry_before));
        }
        entry.received = entry.received + 1;
        if entry.received < order_len {
            pending.insert(i, entry);
            proof {
                assert(pending@ =~= before.update(i as int, entry));
                assert forall|a: int, b: int| 0 <= a < b < pending@.len() implies read_key(#[trigger] pending@[a]) != read_key(#[trigger] pending@[b]) && in_flight(pending@[a]) != in_flight(pending@[b]) by {
                    assert(read_key(before[a]) != read_key(before[b]));
                }
                assert forall|k: int| 0 <= k < pending@.len() implies pending_wf(#[trigger] pending@[k]) by {
                    if k != i {
                        assert(pending@[k] == before[k]);
                    }
                }
            }
            self.pending = pending;
            PanelReadOutcome::AcceptedPending
        } else {
            proof {
                assert(pending@ == before.remove(i as int));
                assert forall|a: int, b: int| 0 <= a < b < pending@.len() implies read_key(#[trigger] pending@[a]) != read_key(#[trigger] pending@[b]) && in_flight(pending@[a]) != in_flight(pending@[b]) by {
                    let oa = if a < i { a } else { a + 1 };
                    let ob = if b < i { b } else { b + 1 };
                    assert(pending@[a] == before[oa]);
                    assert(pending@[b] == before[ob]);
                }
                assert forall|k: int| 0 <= k < pending@.len() implies pending_wf(#[trigger] pending@[k]) by {
                    let ok = if k < i { k } else { k + 1 };
                    assert(pending@[k] == before[ok]);
                }
            }
            self.pending = pending;
            let snap = merge_panel_read(entry);
            PanelReadOutcome::Completed(snap)
        }
    }
}


// ----- Deactivating a View -----

/// The outstanding reads that do not belong to the View with text `view`.
pub open spec fn other_views<S>(reads: Seq<PendingPanelRead<S>>, view: Seq<char>) -> Seq<PendingPanelRead<S>>
    decreases reads.len(),
{
    if reads.len() == 0 {
        Seq::empty()
    } else {
        let earlier = other_views(reads.drop_last(), view);
        if reads.last().tag.view_id@ == view {
            earlier
        } else {
            earlier.push(reads.last())
        }
    }
}

proof fn lemma_other_views<S>(reads: Seq<PendingPanelRead<S>>, view: Seq<char>)
    ensures
        forall|a: int| 0 <= a < other_views(reads, view).len() ==> exists|o: int| 0 <= o < reads.len() && #[trigger] other_views(reads, view)[a] == #[trigger] reads[o] && reads[o].tag.view_id@ != view,
        reads_wf(reads) ==> reads_wf(other_views(reads, view)),
    decreases reads.len(),
{
    if reads.len() > 0 {
        let earlier_reads = reads.drop_last();
        lemma_other_views(earlier_reads, view);
        let earlier = other_views(earlier_reads, view);
        let result = other_views(reads, view);
        assert forall|a: int| 0 <= a < result.len() implies exists|o: int| 0 <= o < reads.len() && #[trigger] result[a] == #[trigger] reads[o] && reads[o].tag.view_id@ != view by {
            if a < earlier.len() {
                let o = choose|o: int| 0 <= o < earlier_reads.len() && #[trigger] earlier[a] == #[trigger] earlier_reads[o] && earlier_reads[o].tag.view_id@ != view;
                assert(reads[o] == earlier_reads[o]);
                assert(result[a] == earlier[a]);
            } else {
                assert(result[a] == reads[reads.len() - 1]);
            }
        }
        if reads_wf(reads) {
            assert(reads_wf(earlier_reads)) by {
                assert forall|k: int| 0 <= k < earlier_reads.len() implies pending_wf(#[trigger] earlier_reads[k]) by {
                    assert(earlier_reads[k] == reads[k]);
                }
                assert forall|a: int, b: int| 0 <= a < b < earlier_reads.len() implies read_key(#[trigger] earlier_reads[a]) != read_key(#[trigger] earlier_reads[b]) && in_flight(earlier_reads[a]) != in_flight(earlier_reads[b]) by {
                    assert(earlier_reads[a] == reads[a]);
                    assert(earlier_reads[b] == reads[b]);
                }
            }
            if reads.last().tag.view_id@ != view {
                let last = reads.len() - 1;
                assert forall|k: int| 0 <= k < result.len() implies pending_wf(#[trigger] result[k]) by {
                    if k < earlier.len() {
                        assert(result[k] == earlier[k]);
                    } else {
                        assert(result[k] == reads[last]);
                    }
                }
                assert forall|a: int, b: int| 0 <= a < b < result.len() implies read_key(#[trigger] result[a]) != read_key(#[trigger] result[b]) && in_flight(result[a]) != in_flight(result[b]) by {
                    assert(result[a] == earlier[a]);
                    if b < earlier.len() {
                        assert(result[b] == earlier[b]);
                    } else {
                        let o = choose|o: int| 0 <= o < earlier_reads.len() && #[trigger] earlier[a] == #[trigger] earlier_reads[o] && earlier_reads[o].tag.view_id@ != view;
                        assert(earlier_reads[o] == reads[o]);
                        assert(result[b] == reads[last]);
                        assert(read_key(reads[o]) != read_key(reads[last]));
                    }
                }
            }
        }
    }
}

impl<S> PanelReadCoordinator<S> {
    /// Forgets every outstanding read of one View; their answers are then ignored.
    pub fn deactivate_view(&mut self, view_id: &AnalysisViewId)
        ensures
            reads_wf(final(self).reads()),
            final(self).reads() == other_views(old(self).reads(), view_id@),
    {
        proof {
            use_type_invariant(&*self);
        }
        let ghost before = self.pending@;
        let mut pending: Vec<PendingPanelRead<S>> = Vec::new();
        std::mem::swap(&mut pending, &mut self.pending);
        let mut kept: Vec<PendingPanelRead<S>> = Vec::new();
        let ghost mut k: int = 0;
        while pending.len() > 0
            invariant
                0 <= k <= before.len(),
                pending@ == before.skip(k),
                kept@ == other_views(before.take(k), view_id@),
            decreases pending@.len(),
        {
            proof {
                assert(before.skip(k)[0] == before[k]);
                assert(before.skip(k).remove(0) =~= before.skip(k + 1));
                assert(before.take(k + 1).drop_last() =~= before.take(k));
            }
            let entry = pending.remove(0);
            if !entry.tag.view_id.same_as(view_id) {
                kept.push(entry);
            }
            proof {
                k = k + 1;
            }
        }
        proof {
            assert(before.take(k) =~= before);
            lemma_other_views(before, view_id@);
        }
        self.pending = kept;
    }
}

impl<S> Default for PanelReadCoordinator<S> {
    fn default() -> (coordinator: Self)
        ensures
            coordinator.reads().len() == 0,
    {
        PanelReadCoordinator { pending: Vec::new() }
    }
}


// ----- Laws of panel read coordination -----

/// A read that was replaced by a newer read of the same View, panel and
/// kind is no longer awaited: its late answers are ignored.
pub proof fn superseded_answers_are_ignored<S>(
    before: Seq<PendingPanelRead<S>>,
    after: Seq<PendingPanelRead<S>>,
    tag: PanelReadTag,
    request: &PanelReadRequest,
    i: int,
    source: Seq<char>,
)
    requires
        reads_wf(before),
        !has_in_flight(before, tag.generation, panel_request_kind(request)),
        started_read(before, after, tag, request),
        0 <= i < before.len(),
        read_key(before[i]) == (tag.view_id@, tag.panel_id@, panel_request_kind(request)),
    ensures
        !awaits_answer(after, before[i].tag.generation, before[i].kind, source),
{
    let key = (tag.view_id@, tag.panel_id@, panel_request_kind(request));
    let c = choose|c: int| 0 <= c < before.len() && read_key(#[trigger] before[c]) == key;
    if c != i {
        if c < i {
            assert(read_key(before[c]) != read_key(before[i]));
        } else {
            assert(read_key(before[i]) != read_key(before[c]));
        }
    }
    let rest = without_key(before, key);
    assert(rest == before.remove(i));
    if awaits_answer(after, before[i].tag.generation, before[i].kind, source) {
        let (a, b) = choose|a: int, b: int| open_slot(after, before[i].tag.generation, before[i].kind, source, a, b);
        if a < rest.len() {
            let o = if a < i { a } else { a + 1 };
            assert(after[a] == before[o]);
            if o < i {
                assert(in_flight(before[o]) != in_flight(before[i]));
            } else {
                assert(in_flight(before[i]) != in_flight(before[o]));
            }
        } else {
            assert(in_flight(before[i]) == (tag.generation.0, panel_request_kind(request)));
        }
    }
}

/// After a View is deactivated, answers for its reads are ignored.
pub proof fn deactivated_view_answers_are_ignored<S>(
    before: Seq<PendingPanelRead<S>>,
    view: Seq<char>,
    i: int,
    source: Seq<char>,
)
    requires
        reads_wf(before),
        0 <= i < before.len(),
        before[i].tag.view_id@ == view,
    ensures
        !awaits_answer(other_views(before, view), before[i].tag.generation, before[i].kind, source),
{
    let after = other_views(before, view);
    lemma_other_views(before, view);
    if awaits_answer(after, before[i].tag.generation, before[i].kind, source) {
        let (a, b) = choose|a: int, b: int| open_slot(after, before[i].tag.generation, before[i].kind, source, a, b);
        let o = choose|o: int| 0 <= o < before.len() && #[trigger] after[a] == #[trigger] before[o] && before[o].tag.view_id@ != view;
        assert(o != i);
        if o < i {
            assert(in_flight(before[o]) != in_flight(before[i]));
        } else {
            assert(in_flight(before[i]) != in_flight(before[o]));
        }
    }
}

/// Once a source has answered, a repeated answer from it is ignored.
pub proof fn repeated_answers_are_ignored<C, S, I>(
    before: Seq<PendingPanelRead<S>>,
    after: Seq<PendingPanelRead<S>>,
    generation: Generation,
    kind: ReadKind,
    source: Seq<char>,
    i: int,
    j: int,
    result: Result<ReadSnapshot<C, S, I>, String>,
    outcome: PanelReadOutcome<S>,
)
    requires
        reads_wf(before),
        reads_wf(after),
        open_slot(before, generation, kind, source, i, j),
        recorded_answer(before, after, i, j, result, outcome),
    ensures
        !awaits_answer(after, generation, kind, source),
{
    let p = before[i];
    if awaits_answer(after, generation, kind, source) {
        let (a, b) = choose|a: int, b: int| open_slot(after, generation, kind, source, a, b);
        if p.received + 1 < p.source_order@.len() {
            if a != i {
                assert(after[a] == before[a]);
                if a < i {
                    assert(in_flight(before[a]) != in_flight(before[i]));
                } else {
                    assert(in_flight(before[i]) != in_flight(before[a]));
                }
            } else {
                let views = source_views(after[i].source_order@);
                assert(views[b] == source);
                assert(views[j] == source);
                if b != j {
                    if b < j {
                        assert(views[b] != views[j]);
                    } else {
                        assert(views[j] != views[b]);
                    }
                }
            }
        } else {
            let o = if a < i { a } else { a + 1 };
            assert(after[a] == before[o]);
            if o < i {
                assert(in_flight(before[o]) != in_flight(before[i]));
            } else {
                assert(in_flight(before[i]) != in_flight(before[o]));
            }
        }
    }
}

/// A read completes exactly when the answer fills its last empty slot.
pub proof fn read_completes_when_every_source_answered<C, S, I>(
    before: Seq<PendingPanelRead<S>>,
    after: Seq<PendingPanelRead<S>>,
    generation: Generation,
    kind: ReadKind,
    source: Seq<char>,
    i: int,
    j: int,
    result: Result<ReadSnapshot<C, S, I>, String>,
    outcome: PanelReadOutcome<S>,
)
    requires
        reads_wf(before),
        open_slot(before, generation, kind, source, i, j),
        recorded_answer(before, after, i, j, result, outcome),
    ensures
        (outcome is Completed) <==> (forall|k: int| 0 <= k < before[i].responses@.len() && k != j ==> before[i].responses@[k] is Some),
{
    let p = before[i];
    assert(pending_wf(p));
    let response = choose|response: SourceResponse<S>| #![trigger response_for_result(result, response)] response_for_result(result, response) && {
        let slots = p.responses@.update(j, Some(response));
        if p.received + 1 < p.source_order@.len() {
            &&& outcome is AcceptedPending
            &&& after.len() == before.len()
            &&& forall|k: int| 0 <= k < after.len() && k != i ==> after[k] == before[k]
            &&& after[i].tag == p.tag
            &&& after[i].kind == p.kind
            &&& after[i].run_order == p.run_order
            &&& after[i].source_order == p.source_order
            &&& after[i].responses@ == slots
            &&& after[i].received == p.received + 1
        } else {
            &&& after == before.remove(i)
            &&& outcome matches PanelReadOutcome::Completed(snap) && merged_read(p.tag, p.run_order@, p.source_order@, slots, snap)
        }
    };
    let slots = p.responses@.update(j, Some(response));
    lemma_count_fill(p.responses@, j, response);
    lemma_count_bounds(slots);
    if forall|k: int| 0 <= k < p.responses@.len() && k != j ==> p.responses@[k] is Some {
        assert forall|k: int| 0 <= k < slots.len() implies slots[k] is Some by {
            if k != j {
                assert(p.responses@[k] is Some);
            }
        }
        lemma_count_all(slots);
    } else {
        let k = choose|k: int| 0 <= k < p.responses@.len() && k != j && !(p.responses@[k] is Some);
        assert(slots[k] is None);
    }
}

proof fn lemma_count_all<S>(slots: Seq<Option<SourceResponse<S>>>)
    requires
        forall|k: int| 0 <= k < slots.len() ==> slots[k] is Some,
    ensures
        count_answered(slots) == slots.len(),
    decreases slots.len(),
{
    if slots.len() > 0 {
        lemma_count_all(slots.drop_last());
    }
}

proof fn lemma_pick_contains<S>(m: Map<RunRefView, CurveSeriesSnapshot<S>>, order: Seq<RunRef>, idx: int)
    requires
        0 <= idx < order.len(),
        m.contains_key(order[idx]@),
    ensures
        pick(m, order).contains(m[order[idx]@]),
    decreases order.len(),
{
    let r = order[0]@;
    let rest = order.drop_first();
    if m.contains_key(r) {
        if r == order[idx]@ {
            assert(pick(m, order)[0] == m[r]);
        } else {
            assert(rest[idx - 1] == order[idx]);
            lemma_pick_contains(m.remove(r), rest, idx - 1);
            let tail = pick(m.remove(r), rest);
            let k = choose|k: int| 0 <= k < tail.len() && tail[k] == m.remove(r)[order[idx]@];
            assert(pick(m, order)[k + 1] == tail[k]);
        }
    } else {
        assert(idx != 0);
        assert(rest[idx - 1] == order[idx]);
        lemma_pick_contains(m, rest, idx - 1);
    }
}

/// A source's failure does not erase what the other sources answered: every
/// Run of the panel that some successful source answered for keeps its
/// curve in the merged read, and every failed source is reported.
pub proof fn failures_keep_other_sources_curves<S>(
    tag: PanelReadTag,
    run_order: Seq<RunRef>,
    order: Seq<DataSourceId>,
    slots: Seq<Option<SourceResponse<S>>>,
    snap: PanelReadSnapshot<S>,
    idx: int,
)
    requires
        merged_read(tag, run_order, order, slots, snap),
        0 <= idx < run_order.len(),
        curve_map(successes(slots)).contains_key(run_order[idx]@),
    ensures
        snap.curves matches Some(c) && c.series@.contains(curve_map(successes(slots))[run_order[idx]@]),
{
    let succ = successes(slots);
    if succ.len() == 0 {
        assert(curve_map(succ) =~= Map::<RunRefView, CurveSeriesSnapshot<S>>::empty());
    }
    lemma_pick_contains(curve_map(succ), run_order, idx);
}

proof fn lemma_runs_of_source(runs: Seq<RunRef>, source: Seq<char>)
    ensures
        forall|k: int| 0 <= k < runs_of_source(runs, source).len() ==> (#[trigger] runs_of_source(runs, source)[k]).source_id@ == source,
        forall|i: int| 0 <= i < runs.len() && (#[trigger] runs[i]).source_id@ == source ==> runs_of_source(runs, source).contains(runs[i]),
    decreases runs.len(),
{
    if runs.len() > 0 {
        let earlier_runs = runs.drop_last();
        lemma_runs_of_source(earlier_runs, source);
        let earlier = runs_of_source(earlier_runs, source);
        let result = runs_of_source(runs, source);
        assert forall|k: int| 0 <= k < result.len() implies (#[trigger] result[k]).source_id@ == source by {
            if k < earlier.len() {
                assert(result[k] == earlier[k]);
            }
        }
        assert forall|i: int| 0 <= i < runs.len() && (#[trigger] runs[i]).source_id@ == source implies result.contains(runs[i]) by {
            if i < runs.len() - 1 {
                assert(earlier_runs[i] == runs[i]);
                let k = choose|k: int| 0 <= k < earlier.len() && earlier[k] == runs[i];
                assert(result[k] == earlier[k]);
            } else {
                assert(result[earlier.len() as int] == runs[i]);
            }
        }
    }
}

/// A panel read is split into one storage read per distinct source: the
/// planned sources are distinct, every planned read covers only Runs of its
/// own source, and every Run of the panel is covered by the read of its source.
pub proof fn panel_runs_are_partitioned_by_source(
    tag: PanelReadTag,
    request: &PanelReadRequest,
    planned: Seq<PlannedSourceRead>,
)
    requires
        plans_panel_read(tag, request, planned),
    ensures
        forall|a: int, b: int| 0 <= a < b < planned.len() ==> (#[trigger] planned[a]).source_id@ != (#[trigger] planned[b]).source_id@,
        forall|j: int, k: int|
            0 <= j < planned.len() && 0 <= k < runs_of_source(panel_request_runs(request), planned[j].source_id@).len()
                ==> (#[trigger] runs_of_source(panel_request_runs(request), planned[j].source_id@)[k]).source_id@
                == planned[j].source_id@,
        forall|i: int| 0 <= i < panel_request_runs(request).len() ==> exists|j: int| 0 <= j < planned.len()
            && (#[trigger] planned[j]).source_id@ == (#[trigger] panel_request_runs(request)[i]).source_id@
            && runs_of_source(panel_request_runs(request), planned[j].source_id@).contains(panel_request_runs(request)[i]),
{
    let runs = panel_request_runs(request);
    let order = source_order_of(runs);
    lemma_source_order(runs);
    assert forall|a: int, b: int| 0 <= a < b < planned.len() implies (#[trigger] planned[a]).source_id@ != (#[trigger] planned[b]).source_id@ by {
        assert(source_views(order)[a] == planned[a].source_id@);
        assert(source_views(order)[b] == planned[b].source_id@);
    }
    assert forall|j: int, k: int|
        0 <= j < planned.len() && 0 <= k < runs_of_source(runs, planned[j].source_id@).len() implies (#[trigger] runs_of_source(runs, planned[j].source_id@)[k]).source_id@
            == planned[j].source_id@ by {
        lemma_runs_of_source(runs, planned[j].source_id@);
    }
    assert forall|i: int| 0 <= i < runs.len() implies exists|j: int| 0 <= j < planned.len()
        && (#[trigger] planned[j]).source_id@ == (#[trigger] runs[i]).source_id@
        && runs_of_source(runs, planned[j].source_id@).contains(runs[i]) by {
        let v = runs[i].source_id@;
        assert(source_views(order).contains(v));
        let j = choose|j: int| 0 <= j < source_views(order).len() && source_views(order)[j] == v;
        assert(planned[j].source_id == order[j]);
        lemma_runs_of_source(runs, v);
    }
}

} // verus!
