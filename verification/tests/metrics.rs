use bottlecap::metrics::aggregator::{
    bytes_eq, Aggregator, MetricIdentity, MetricKind, MetricPoint, Series,
};
use bottlecap::metrics::datadog::DdApi;
use bottlecap::metrics::flusher::Flusher;
use bottlecap::shipping::Intake;

fn identity(name: &str, kind: MetricKind) -> MetricIdentity {
    MetricIdentity {
        name: name.as_bytes().to_vec(),
        tags: b"env:test".to_vec(),
        kind,
    }
}

fn point(timestamp: u64, value: f64) -> MetricPoint {
    MetricPoint {
        timestamp,
        value: value.to_bits(),
    }
}

fn names(batch: &[Series]) -> Vec<String> {
    batch
        .iter()
        .map(|s| String::from_utf8(s.identity.name.clone()).unwrap())
        .collect()
}

#[test]
fn a_batch_must_hold_something() {
    assert!(Aggregator::new(1024, 0).is_none());
    assert!(Aggregator::new(0, 1).is_some());
}

#[test]
fn capacity_1024_drops_the_1025th_identity() {
    let mut aggregator = Aggregator::new(1024, 1024).unwrap();
    for i in 0..1024u64 {
        assert!(aggregator.add_point(
            identity(&format!("metric.{i}"), MetricKind::Count),
            point(i, 1.0)
        ));
    }
    assert!(!aggregator.add_point(identity("metric.1024", MetricKind::Count), point(9, 1.0)));
    assert_eq!(aggregator.len(), 1024);
    let batches = aggregator.consume_metrics();
    let total: usize = batches.iter().map(|b| b.len()).sum();
    assert_eq!(total, 1024);
    assert_eq!(batches.len(), 1);
    for (i, series) in batches[0].iter().enumerate() {
        assert_eq!(series.identity.name, format!("metric.{i}").into_bytes());
        assert_eq!(series.points, vec![point(i as u64, 1.0)]);
    }
    assert!(aggregator.consume_metrics().is_empty());
}

#[test]
fn full_table_keeps_gathering_for_known_identities() {
    let mut aggregator = Aggregator::new(2, 10).unwrap();
    assert!(aggregator.add_point(identity("a", MetricKind::Gauge), point(1, 1.5)));
    assert!(aggregator.add_point(identity("b", MetricKind::Gauge), point(2, 2.5)));
    assert!(!aggregator.add_point(identity("c", MetricKind::Gauge), point(3, 3.5)));
    assert!(aggregator.add_point(identity("a", MetricKind::Gauge), point(4, 4.5)));
    assert_eq!(aggregator.len(), 2);
    let batches = aggregator.consume_metrics();
    assert_eq!(batches.len(), 1);
    assert_eq!(names(&batches[0]), vec!["a", "b"]);
    assert_eq!(batches[0][0].points, vec![point(1, 1.5), point(4, 4.5)]);
    assert_eq!(batches[0][1].points, vec![point(2, 2.5)]);
}

#[test]
fn identity_is_name_tags_and_kind() {
    let mut aggregator = Aggregator::new(8, 8).unwrap();
    aggregator.add_point(identity("a", MetricKind::Gauge), point(1, 1.0));
    aggregator.add_point(identity("a", MetricKind::Count), point(2, 1.0));
    aggregator.add_point(
        MetricIdentity {
            name: b"a".to_vec(),
            tags: b"env:prod".to_vec(),
            kind: MetricKind::Gauge,
        },
        point(3, 1.0),
    );
    assert_eq!(aggregator.len(), 3);
    assert!(identity("a", MetricKind::Gauge).same(&identity("a", MetricKind::Gauge)));
    assert!(!identity("a", MetricKind::Gauge).same(&identity("a", MetricKind::Count)));
    assert!(!identity("a", MetricKind::Gauge).same(&identity("b", MetricKind::Gauge)));
    assert!(bytes_eq(&b"abc".to_vec(), &b"abc".to_vec()));
    assert!(!bytes_eq(&b"abc".to_vec(), &b"abd".to_vec()));
    assert!(!bytes_eq(&b"abc".to_vec(), &b"ab".to_vec()));
}

#[test]
fn series_and_distributions_are_consumed_apart() {
    let mut aggregator = Aggregator::new(8, 8).unwrap();
    aggregator.add_point(identity("g", MetricKind::Gauge), point(1, 1.0));
    aggregator.add_point(identity("d", MetricKind::Distribution), point(2, 2.0));
    aggregator.add_point(identity("c", MetricKind::Count), point(3, 3.0));
    aggregator.add_point(identity("d", MetricKind::Distribution), point(4, 4.0));
    assert!(identity("d", MetricKind::Distribution).is_distribution());
    assert!(!identity("g", MetricKind::Gauge).is_distribution());

    let series = aggregator.consume_metrics();
    assert_eq!(series.len(), 1);
    assert_eq!(names(&series[0]), vec!["g", "c"]);
    assert_eq!(aggregator.len(), 1);
    assert!(aggregator.consume_metrics().is_empty());

    let distributions = aggregator.consume_distributions();
    assert_eq!(distributions.len(), 1);
    assert_eq!(names(&distributions[0]), vec!["d"]);
    assert_eq!(distributions[0][0].points, vec![point(2, 2.0), point(4, 4.0)]);
    assert_eq!(aggregator.len(), 0);
    assert!(aggregator.consume_distributions().is_empty());
}

#[test]
fn batches_hold_at_most_the_configured_number_of_series() {
    let mut aggregator = Aggregator::new(16, 3).unwrap();
    for i in 0..7 {
        aggregator.add_point(identity(&format!("m{i}"), MetricKind::Count), point(i, 0.0));
    }
    let batches = aggregator.consume_metrics();
    assert_eq!(batches.len(), 3);
    assert_eq!(names(&batches[0]), vec!["m0", "m1", "m2"]);
    assert_eq!(names(&batches[1]), vec!["m3", "m4", "m5"]);
    assert_eq!(names(&batches[2]), vec!["m6"]);
}

#[test]
fn slots_are_free_again_after_consuming() {
    let mut aggregator = Aggregator::new(1, 1).unwrap();
    assert!(aggregator.add_point(identity("a", MetricKind::Count), point(1, 1.0)));
    assert!(!aggregator.add_point(identity("b", MetricKind::Count), point(1, 1.0)));
    assert_eq!(aggregator.consume_metrics().len(), 1);
    assert!(aggregator.add_point(identity("b", MetricKind::Count), point(1, 1.0)));
}

#[test]
fn metrics_flush_posts_series_then_distributions() {
    let mut flusher = Flusher::new("key".to_string(), "datadoghq.com".to_string());
    let mut aggregator = Aggregator::new(16, 2).unwrap();
    aggregator.add_point(identity("d", MetricKind::Distribution), point(1, 1.0));
    for i in 0..3 {
        aggregator.add_point(identity(&format!("m{i}"), MetricKind::Gauge), point(i, 0.0));
    }
    let requests = flusher.flush(&mut aggregator);
    assert_eq!(requests.len(), 3);
    assert_eq!(requests[0].intake, Intake::Series);
    assert_eq!(requests[1].intake, Intake::Series);
    assert_eq!(requests[2].intake, Intake::Distributions);
    assert_eq!(
        requests[0].url,
        b"https://api.datadoghq.com/api/v2/series".to_vec()
    );
    assert_eq!(
        requests[2].url,
        b"https://api.datadoghq.com/api/beta/sketches".to_vec()
    );
    assert_eq!(names(&requests[0].batch), vec!["m0", "m1"]);
    assert_eq!(names(&requests[1].batch), vec!["m2"]);
    assert_eq!(names(&requests[2].batch), vec!["d"]);
    for request in &requests {
        assert_eq!(request.api_key, "key");
    }
    assert_eq!(aggregator.len(), 0);
    assert!(flusher.flush(&mut aggregator).is_empty());
}

#[test]
fn client_describes_posts_to_both_intakes() {
    let api = DdApi::new("key".to_string(), "datadoghq.eu".to_string());
    let series = api.ship_series(Vec::new());
    assert_eq!(series.intake, Intake::Series);
    assert_eq!(series.url, b"https://api.datadoghq.eu/api/v2/series".to_vec());
    assert_eq!(series.api_key, "key");
    let distributions = api.ship_distributions(Vec::new());
    assert_eq!(distributions.intake, Intake::Distributions);
    assert_eq!(
        distributions.url,
        b"https://api.datadoghq.eu/api/beta/sketches".to_vec()
    );
}
