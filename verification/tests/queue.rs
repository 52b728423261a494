use pulseon_viewer::gate::{worker_count, ReadConcurrencyGate};
use pulseon_viewer::ids::{DataSourceId, MetricKey};
use pulseon_viewer::model::{
    CurveAxis, CurveSelection, DiscoveryRequest, Generation, OverviewRequest, ReadKind, ReadRequest,
    WorkerClosed,
};
use pulseon_viewer::queue::{PendingRequests, TaggedRequest};

fn overview_request(metric: &str) -> ReadRequest {
    ReadRequest::Overview(OverviewRequest {
        selection: CurveSelection {
            source_id: DataSourceId::from_string("source".to_string()),
            runs: Vec::new(),
            metric_key: MetricKey::from_string(metric.to_string()),
            axis: CurveAxis::Step,
        },
        physical_width: 1_000,
    })
}

#[test]
fn pending_requests_keep_the_latest_generation_per_kind() {
    let mut pending = PendingRequests::default();
    for generation in [1, 2] {
        pending.push(TaggedRequest {
            source_id: DataSourceId::from_string("source".to_string()),
            generation: Generation(generation),
            request: ReadRequest::Discover(DiscoveryRequest::default()),
            ticket: (),
        });
    }

    assert_eq!(
        pending.take_next().map(|request| request.generation),
        Some(Generation(2))
    );
}

#[test]
fn pending_curve_requests_coalesce_per_metric_panel() {
    let mut pending = PendingRequests::default();
    for (generation, metric) in [(1, "loss"), (2, "accuracy"), (3, "loss")] {
        pending.push(TaggedRequest {
            source_id: DataSourceId::from_string("source".to_string()),
            generation: Generation(generation),
            request: overview_request(metric),
            ticket: (),
        });
    }

    assert_eq!(
        [pending.take_next(), pending.take_next()].map(|request| {
            request
                .expect("both metric panels should retain pending work")
                .generation
        }),
        [Generation(3), Generation(2)]
    );
}

#[test]
fn older_requests_do_not_replace_newer_ones_and_catalog_comes_first() {
    let mut pending = PendingRequests::default();
    for (generation, request) in [
        (4, overview_request("loss")),
        (2, overview_request("loss")),
        (1, ReadRequest::Discover(DiscoveryRequest::default())),
    ] {
        pending.push(TaggedRequest {
            source_id: DataSourceId::from_string("source".to_string()),
            generation: Generation(generation),
            request,
            ticket: generation,
        });
    }
    let first = pending.take_next().expect("catalog work is queued");
    assert_eq!(first.request.kind(), ReadKind::Catalog);
    let second = pending.take_next().expect("overview work is queued");
    assert_eq!((second.generation, second.ticket), (Generation(4), 4));
    assert!(pending.take_next().is_none());
}

#[test]
fn concurrency_gate_admits_up_to_its_limit() {
    let mut gate = ReadConcurrencyGate::new(2);
    assert!(gate.try_acquire());
    assert!(gate.try_acquire());
    assert!(!gate.try_acquire());
    assert_eq!(gate.active(), 2);
    gate.release();
    assert!(gate.try_acquire());
    assert_eq!(gate.limit(), 2);
    assert_eq!([worker_count(1), worker_count(4), worker_count(9)], [1, 4, 4]);
    assert_eq!(WorkerClosed.message(), "native read worker is closed");
}
