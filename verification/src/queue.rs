//! The background readers' request queue: catalog work is kept once, curve
//! and inspector work is coalesced per source and Metric, and the newest
//! generation always wins.

use vstd::prelude::*;

use crate::ids::{DataSourceId, MetricKey};
use crate::model::{Generation, ReadKind, ReadRequest, request_kind};

verus! {

/// One queued request with its source, generation and completion ticket.
#[derive(Debug)]
pub struct TaggedRequest<T> {
    pub source_id: DataSourceId,
    pub generation: Generation,
    pub request: ReadRequest,
    pub ticket: T,
}

/// The Metric a curve or inspector request reads; catalog requests read none.
pub open spec fn curve_metric(request: &ReadRequest) -> Option<Seq<char>> {
    match request {
        ReadRequest::Discover(_) => None,
        ReadRequest::Overview(r) => Some(r.selection.metric_key@),
        ReadRequest::Detail(r) => Some(r.selection.metric_key@),
        ReadRequest::Inspector(r) => Some(r.metric_key@),
    }
}

/// Whether two queued requests do the same work for the same panel: same
/// source and same Metric.
pub open spec fn same_work<T>(a: TaggedRequest<T>, b: TaggedRequest<T>) -> bool {
    &&& a.source_id@ == b.source_id@
    &&& curve_metric(&a.request) is Some
    &&& curve_metric(&a.request) == curve_metric(&b.request)
}

/// `i` is the first position in `queue` holding the same work as `tagged`.
pub open spec fn first_same_work<T>(queue: Seq<TaggedRequest<T>>, tagged: TaggedRequest<T>, i: int) -> bool {
    &&& 0 <= i < queue.len()
    &&& same_work(queue[i], tagged)
    &&& forall|k: int| 0 <= k < i ==> !same_work(#[trigger] queue[k], tagged)
}

/// How adding `tagged` changes one curve queue: it replaces the first queued
/// request for the same work when its generation is not older, is dropped
/// when it is older, and is appended when no such work is queued.
pub open spec fn coalesced_push<T>(
    before: Seq<TaggedRequest<T>>,
    tagged: TaggedRequest<T>,
    after: Seq<TaggedRequest<T>>,
) -> bool {
    if curve_metric(&tagged.request) is None {
        after == before
    } else if exists|i: int| first_same_work(before, tagged, i) {
        exists|i: int|
            first_same_work(before, tagged, i) && if tagged.generation.0 >= before[i].generation.0 {
                after == before.update(i, tagged)
            } else {
                after == before
            }
    } else {
        after == before.push(tagged)
    }
}

/// No two queued requests do the same work.
pub open spec fn coalesced<T>(queue: Seq<TaggedRequest<T>>) -> bool {
    forall|a: int, b: int| 0 <= a < b < queue.len() ==> !same_work(#[trigger] queue[a], #[trigger] queue[b])
}

fn metric_of(request: &ReadRequest) -> (key: Option<&MetricKey>)
    ensures
        match key {
            Some(k) => curve_metric(request) == Some(k@),
            None => curve_metric(request) is None,
        },
{
    match request {
        ReadRequest::Discover(_) => None,
        ReadRequest::Overview(r) => Some(&r.selection.metric_key),
        ReadRequest::Detail(r) => Some(&r.selection.metric_key),
        ReadRequest::Inspector(r) => Some(&r.metric_key),
    }
}

fn find_same_work<T>(pending: &Vec<TaggedRequest<T>>, tagged: &TaggedRequest<T>) -> (found: Option<usize>)
    requires
        curve_metric(&tagged.request) is Some,
    ensures
        match found {
            Some(i) => first_same_work(pending@, *tagged, i as int),
            None => forall|k: int| 0 <= k < pending@.len() ==> !same_work(#[trigger] pending@[k], *tagged),
        },
{
    let metric_key = match metric_of(&tagged.request) {
        Some(k) => k,
        None => {
            return None;
        },
    };
    let mut index: usize = 0;
    while index < pending.len()
        invariant
            index <= pending@.len(),
            curve_metric(&tagged.request) == Some(metric_key@),
            forall|k: int| 0 <= k < index ==> !same_work(#[trigger] pending@[k], *tagged),
        decreases pending@.len() - index,
    {
        let candidate = &pending[index];
        if candidate.source_id.same_as(&tagged.source_id) {
            match metric_of(&candidate.request) {
                Some(k) => {
                    if k.same_as(metric_key) {
                        return Some(index);
                    }
                },
                None => {},
            }
        }
        index = index + 1;
    }
    None
}

/// Adds a curve or inspector request to one queue, coalescing same work.
pub fn push_curve_request<T>(pending: &mut Vec<TaggedRequest<T>>, tagged: TaggedRequest<T>)
    ensures
        coalesced_push(old(pending)@, tagged, final(pending)@),
{
    if metric_of(&tagged.request).is_none() {
        return;
    }
    match find_same_work(pending, &tagged) {
        Some(index) => {
            if tagged.generation.0 >= pending[index].generation.0 {
                pending.set(index, tagged);
            }
        },
        None => {
            proof {
                if exists|i: int| first_same_work(pending@, tagged, i) {
                    let i = choose|i: int| first_same_work(pending@, tagged, i);
                    assert(!same_work(pending@[i], tagged));
                }
            }
            pending.push(tagged);
        },
    }
}

/// Work waiting for a reader, by kind.
#[derive(Debug)]
pub struct PendingRequests<T> {
    discover: Option<TaggedRequest<T>>,
    overview: Vec<TaggedRequest<T>>,
    detail: Vec<TaggedRequest<T>>,
    inspector: Vec<TaggedRequest<T>>,
}

impl<T> PendingRequests<T> {
    /// The queued catalog request.
    pub closed spec fn queued_discover(&self) -> Option<TaggedRequest<T>> {
        self.discover
    }

    /// The queued overview requests, oldest first.
    pub closed spec fn queued_overview(&self) -> Seq<TaggedRequest<T>> {
        self.overview@
    }

    /// The queued detail requests, oldest first.
    pub closed spec fn queued_detail(&self) -> Seq<TaggedRequest<T>> {
        self.detail@
    }

    /// The queued inspector requests, oldest first.
    pub closed spec fn queued_inspector(&self) -> Seq<TaggedRequest<T>> {
        self.inspector@
    }

    /// An empty queue.
    pub fn new() -> (queue: Self)
        ensures
            queue.queued_discover() is None,
            queue.queued_overview().len() == 0,
            queue.queued_detail().len() == 0,
            queue.queued_inspector().len() == 0,
    {
        PendingRequests { discover: None, overview: Vec::new(), detail: Vec::new(), inspector: Vec::new() }
    }

    /// Queues one request. A catalog request replaces the queued one unless
    /// it is older; curve and inspector requests are coalesced in the queue
    /// of their kind.
    pub fn push(&mut self, tagged: TaggedRequest<T>)
        ensures
            request_kind(&tagged.request) == ReadKind::Catalog ==> {
                &&& final(self).queued_discover() == match old(self).queued_discover() {
                    Some(queued) => if tagged.generation.0 >= queued.generation.0 {
                        Some(tagged)
                    } else {
                        Some(queued)
                    },
                    None => Some(tagged),
                }
                &&& final(self).queued_overview() == old(self).queued_overview()
                &&& final(self).queued_detail() == old(self).queued_detail()
                &&& final(self).queued_inspector() == old(self).queued_inspector()
            },
            request_kind(&tagged.request) == ReadKind::Overview ==> {
                &&& final(self).queued_discover() == old(self).queued_discover()
                &&& coalesced_push(old(self).queued_overview(), tagged, final(self).queued_overview())
                &&& final(self).queued_detail() == old(self).queued_detail()
                &&& final(self).queued_inspector() == old(self).queued_inspector()
            },
            request_kind(&tagged.request) == ReadKind::Detail ==> {
                &&& final(self).queued_discover() == old(self).queued_discover()
                &&& final(self).queued_overview() == old(self).queued_overview()
                &&& coalesced_push(old(self).queued_detail(), tagged, final(self).queued_detail())
                &&& final(self).queued_inspector() == old(self).queued_inspector()
            },
            request_kind(&tagged.request) == ReadKind::Inspector ==> {
                &&& final(self).queued_discover() == old(self).queued_discover()
                &&& final(self).queued_overview() == old(self).queued_overview()
                &&& final(self).queued_detail() == old(self).queued_detail()
                &&& coalesced_push(old(self).queued_inspector(), tagged, final(self).queued_inspector())
            },
    {
        match tagged.request.kind() {
            ReadKind::Catalog => {
                let replace = match &self.discover {
                    Some(pending) => tagged.generation.0 >= pending.generation.0,
                    None => true,
                };
                if replace {
                    self.discover = Some(tagged);
                }
            },
            ReadKind::Overview => push_curve_request(&mut self.overview, tagged),
            ReadKind::Detail => push_curve_request(&mut self.detail, tagged),
            ReadKind::Inspector => push_curve_request(&mut self.inspector, tagged),
        }
    }

    /// Takes the next request: the catalog request first, then the oldest
    /// overview, detail and inspector request, in that order.
    pub fn take_next(&mut self) -> (next: Option<TaggedRequest<T>>)
        ensures
            old(self).queued_discover() is Some ==> {
                &&& next == old(self).queued_discover()
                &&& final(self).queued_discover() is None
                &&& final(self).queued_overview() == old(self).queued_overview()
                &&& final(self).queued_detail() == old(self).queued_detail()
                &&& final(self).queued_inspector() == old(self).queued_inspector()
            },
            old(self).queued_discover() is None && old(self).queued_overview().len() > 0 ==> {
                &&& next == Some(old(self).queued_overview()[0])
                &&& final(self).queued_discover() is None
                &&& final(self).queued_overview() == old(self).queued_overview().drop_first()
                &&& final(self).queued_detail() == old(self).queued_detail()
                &&& final(self).queued_inspector() == old(self).queued_inspector()
            },
            old(self).queued_discover() is None && old(self).queued_overview().len() == 0
                && old(self).queued_detail().len() > 0 ==> {
                &&& next == Some(old(self).queued_detail()[0])
                &&& final(self).queued_discover() is None
                &&& final(self).queued_overview() == old(self).queued_overview()
                &&& final(self).queued_detail() == old(self).queued_detail().drop_first()
                &&& final(self).queued_inspector() == old(self).queued_inspector()
            },
            old(self).queued_discover() is None && old(self).queued_overview().len() == 0
                && old(self).queued_detail().len() == 0 && old(self).queued_inspector().len() > 0 ==> {
                &&& next == Some(old(self).queued_inspector()[0])
                &&& final(self).queued_discover() is None
                &&& final(self).queued_overview() == old(self).queued_overview()
                &&& final(self).queued_detail() == old(self).queued_detail()
                &&& final(self).queued_inspector() == old(self).queued_inspector().drop_first()
            },
            old(self).queued_discover() is None && old(self).queued_overview().len() == 0
                && old(self).queued_detail().len() == 0 && old(self).queued_inspector().len() == 0 ==> {
                &&& next is None
                &&& final(self).queued_discover() is None
                &&& final(self).queued_overview().len() == 0
                &&& final(self).queued_detail().len() == 0
                &&& final(self).queued_inspector().len() == 0
            },
    {
        if self.discover.is_some() {
            return self.discover.take();
        }
        if self.overview.len() > 0 {
            let next = self.overview.remove(0);
            proof {
                assert(self.overview@ =~= old(self).overview@.drop_first());
            }
            return Some(next);
        }
        if self.detail.len() > 0 {
            let next = self.detail.remove(0);
            proof {
                assert(self.detail@ =~= old(self).detail@.drop_first());
            }
            return Some(next);
        }
        if self.inspector.len() > 0 {
            let next = self.inspector.remove(0);
            proof {
                assert(self.inspector@ =~= old(self).inspector@.drop_first());
            }
            return Some(next);
        }
        None
    }
}

impl<T> Default for PendingRequests<T> {
    fn default() -> (queue: Self)
        ensures
            queue.queued_discover() is None,
            queue.queued_overview().len() == 0,
            queue.queued_detail().len() == 0,
            queue.queued_inspector().len() == 0,
    {
        PendingRequests::new()
    }
}

/// Coalescing keeps a queue free of duplicate work: after any push, no two
/// queued requests share a source and a Metric.
pub proof fn coalesced_queue_stays_coalesced<T>(
    before: Seq<TaggedRequest<T>>,
    tagged: TaggedRequest<T>,
    after: Seq<TaggedRequest<T>>,
)
    requires
        coalesced(before),
        coalesced_push(before, tagged, after),
    ensures
        coalesced(after),
{
    if curve_metric(&tagged.request) is Some {
        if exists|i: int| first_same_work(before, tagged, i) {
            let i = choose|i: int|
                first_same_work(before, tagged, i) && if tagged.generation.0 >= before[i].generation.0 {
                    after == before.update(i, tagged)
                } else {
                    after == before
                };
            if tagged.generation.0 >= before[i].generation.0 {
                assert forall|a: int, b: int| 0 <= a < b < after.len() implies !same_work(#[trigger] after[a], #[trigger] after[b]) by {
                    if a == i {
                        assert(!same_work(before[i], before[b]));
                    } else if b == i {
                        assert(!same_work(before[a], before[i]));
                    }
                }
            }
        } else {
            assert forall|a: int, b: int| 0 <= a < b < after.len() implies !same_work(#[trigger] after[a], #[trigger] after[b]) by {
                if b == before.len() {
                    if same_work(after[a], tagged) {
                        assert(same_work(before[a], tagged));
                        assert(forall|k: int| 0 <= k < a ==> !same_work(#[trigger] before[k], tagged)) by {
                            assert forall|k: int| 0 <= k < a implies !same_work(#[trigger] before[k], tagged) by {
                                if same_work(before[k], tagged) {
                                    assert(!first_same_work(before, tagged, k));
                                }
                            }
                        }
                        assert(first_same_work(before, tagged, a));
                    }
                }
            }
        }
    }
}

/// The newest request for a piece of work is the one kept: after a push the
/// queue holds, for the pushed work, a request at least as new as the pushed
/// one or as the one it found queued.
pub proof fn newest_generation_is_kept<T>(
    before: Seq<TaggedRequest<T>>,
    tagged: TaggedRequest<T>,
    after: Seq<TaggedRequest<T>>,
)
    requires
        curve_metric(&tagged.request) is Some,
        coalesced_push(before, tagged, after),
    ensures
        exists|i: int|
            0 <= i < after.len() && same_work(#[trigger] after[i], tagged) && after[i].generation.0 >= tagged.generation.0,
{
    if exists|i: int| first_same_work(before, tagged, i) {
        let i = choose|i: int|
            first_same_work(before, tagged, i) && if tagged.generation.0 >= before[i].generation.0 {
                after == before.update(i, tagged)
            } else {
                after == before
            };
        assert(same_work(after[i], tagged));
    } else {
        assert(same_work(after[before.len() as int], tagged));
    }
}

} // verus!
