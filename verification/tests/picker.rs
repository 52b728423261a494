use pulseon_viewer::ids::{DataSourceId, MetricKey, ProjectId, RunId, RunRef};
use pulseon_viewer::picker::{available_metric_keys, metric_candidates};

fn key(text: &str) -> MetricKey {
    MetricKey::from_string(text.to_string())
}

fn keys(texts: &[&str]) -> Vec<MetricKey> {
    texts.iter().map(|text| key(text)).collect()
}

fn texts(keys: &[MetricKey]) -> Vec<&str> {
    keys.iter().map(|key| key.as_str()).collect()
}

fn shown_run(source: &str) -> RunRef {
    RunRef::new(
        DataSourceId::from_string(source.to_string()),
        ProjectId::from_string("p".to_string()),
        RunId::from_string("r".to_string()),
    )
}

fn source(id: &str, metrics: &[&str]) -> (DataSourceId, Vec<MetricKey>) {
    (DataSourceId::from_string(id.to_string()), keys(metrics))
}

#[test]
fn available_metrics_come_from_shown_sources_once_in_text_order() {
    let sources = vec![
        source("a", &["loss", "accuracy", "lr"]),
        source("b", &["loss", "eval/loss"]),
        source("hidden", &["zeta", "alpha"]),
    ];
    let visible = vec![shown_run("b"), shown_run("a")];
    let available = available_metric_keys(&visible, &sources);
    assert_eq!(texts(&available), ["accuracy", "eval/loss", "loss", "lr"]);
    assert!(available_metric_keys(&Vec::new(), &sources).is_empty());
}

#[test]
fn candidates_leave_out_chosen_metrics_and_follow_the_filter() {
    let available = keys(&["accuracy", "eval/Loss", "loss", "lr"]);
    let chosen = keys(&["loss"]);
    assert_eq!(texts(&metric_candidates(&available, &chosen, "")), ["accuracy", "eval/Loss", "lr"]);
    assert_eq!(texts(&metric_candidates(&available, &chosen, "  LOSS ")), ["eval/Loss"]);
    assert!(metric_candidates(&available, &chosen, "nothing").is_empty());
}
