use cluster_core::billing::{
    billing_events_from_samples, extract_billing_metrics_from_samples, is_llm_metric,
    is_object_store_metric, is_simple_metric, BillingMetricEvent, BillingMetricsCollector,
};
use cluster_core::billing::billing_events_from_exposition;
use cluster_core::prom::{parse_prometheus_text, PromSample};

fn sample(
    metric: &str,
    date: Option<&str>,
    method: Option<&str>,
    provider: Option<&str>,
    model: Option<&str>,
    counter: Option<u64>,
) -> PromSample {
    PromSample {
        metric: metric.to_string(),
        date: date.map(str::to_string),
        method: method.map(str::to_string),
        provider: provider.map(str::to_string),
        model: model.map(str::to_string),
        counter,
    }
}

fn exposition() -> String {
    let mut text = String::new();
    text.push_str("# TYPE parseable_total_events_ingested_by_date counter\n");
    text.push_str("# TYPE parseable_total_object_store_calls_by_date counter\n");
    text.push_str("# TYPE parseable_total_input_llm_tokens_by_date counter\n");
    text.push_str("# TYPE parseable_total_parquets_stored_by_date counter\n");
    text.push_str("parseable_total_events_ingested_by_date{date=\"2024-01-01\"} 5\n");
    text.push_str("parseable_total_object_store_calls_by_date{method=\"GET\",date=\"2024-01-01\"} 10\n");
    text.push_str(
        "parseable_total_input_llm_tokens_by_date{provider=\"openai\",model=\"gpt-4\",date=\"2024-01-01\"} 100\n",
    );
    text.push_str("parseable_total_parquets_stored_by_date{date=\"2024-01-01\"} 0\n");
    text
}

#[test]
fn billing_explosion_from_exposition() {
    let events = billing_events_from_exposition(&exposition(), "http://node/", "ingestor", 42);
    assert_eq!(events.len(), 3);

    let ingested: Vec<&BillingMetricEvent> =
        events.iter().filter(|e| e.metric_type == "total_events_ingested").collect();
    assert_eq!(ingested.len(), 1);
    assert_eq!(ingested[0].value, 5);
    assert_eq!(ingested[0].date, "2024-01-01");
    assert_eq!(ingested[0].method, None);

    let object_store: Vec<&BillingMetricEvent> =
        events.iter().filter(|e| e.metric_type == "total_object_store_calls").collect();
    assert_eq!(object_store.len(), 1);
    assert_eq!(object_store[0].value, 10);
    assert_eq!(object_store[0].method.as_deref(), Some("GET"));

    let llm: Vec<&BillingMetricEvent> =
        events.iter().filter(|e| e.metric_type == "total_input_llm_tokens").collect();
    assert_eq!(llm.len(), 1);
    assert_eq!(llm[0].value, 100);
    assert_eq!(llm[0].provider.as_deref(), Some("openai"));
    assert_eq!(llm[0].model.as_deref(), Some("gpt-4"));

    // The zero-valued parquets row is suppressed.
    assert!(events.iter().all(|e| e.metric_type != "total_parquets_stored"));
    // One collection pass shares one time stamp and node identity.
    for e in &events {
        assert_eq!(e.event_time, 42);
        assert_eq!(e.node_address, "http://node/");
        assert_eq!(e.node_type, "ingestor");
        assert_eq!(e.event_type, "billing-metrics");
    }
}

#[test]
fn parser_extracts_counters_with_labels() {
    let samples = parse_prometheus_text(&exposition());
    let counters: Vec<&PromSample> = samples.iter().filter(|s| s.counter.is_some()).collect();
    assert_eq!(counters.len(), 4);
    assert_eq!(counters[0].metric, "parseable_total_events_ingested_by_date");
    assert_eq!(counters[0].date.as_deref(), Some("2024-01-01"));
    assert_eq!(counters[0].counter, Some(5));
    assert_eq!(counters[1].method.as_deref(), Some("GET"));
}

#[test]
fn billing_extraction_is_pure() {
    let samples = vec![
        sample("parseable_total_events_ingested_by_date", Some("2024-01-01"), None, None, None, Some(5)),
        sample("parseable_total_object_store_calls_by_date", Some("2024-01-01"), Some("GET"), None, None, Some(10)),
    ];
    let a = billing_events_from_samples(&samples, "http://node/", "querier", 9);
    let b = billing_events_from_samples(&samples, "http://node/", "querier", 9);
    assert_eq!(a.len(), b.len());
    for (x, y) in a.iter().zip(b.iter()) {
        assert_eq!(x.metric_type, y.metric_type);
        assert_eq!(x.date, y.date);
        assert_eq!(x.value, y.value);
        assert_eq!(x.method, y.method);
        assert_eq!(x.event_time, y.event_time);
    }
}

#[test]
fn zero_values_and_gauges_emit_nothing() {
    let samples = vec![
        sample("parseable_total_events_ingested_by_date", Some("2024-01-01"), None, None, None, Some(0)),
        // gauge-kind: no counter value
        sample("parseable_total_events_ingested_by_date", Some("2024-01-02"), None, None, None, None),
        // missing date label
        sample("parseable_total_events_ingested_by_date", None, None, None, None, Some(3)),
        // unknown metric
        sample("parseable_some_other_metric", Some("2024-01-01"), None, None, None, Some(7)),
    ];
    let events = billing_events_from_samples(&samples, "http://node/", "ingestor", 1);
    assert!(events.is_empty());
}

#[test]
fn repeated_date_overwrites_value() {
    let samples = vec![
        sample("parseable_total_query_calls_by_date", Some("2024-01-01"), None, None, None, Some(4)),
        sample("parseable_total_query_calls_by_date", Some("2024-01-01"), None, None, None, Some(6)),
    ];
    let events = billing_events_from_samples(&samples, "http://node/", "querier", 1);
    assert_eq!(events.len(), 1);
    assert_eq!(events[0].value, 6);
}

#[test]
fn collector_events_share_construction_stamp() {
    let samples = vec![
        sample("parseable_total_output_llm_tokens_by_date", Some("2024-02-02"), None, Some("openai"), Some("gpt-4"), Some(50)),
    ];
    let events = extract_billing_metrics_from_samples(
        &samples,
        "http://node/".to_string(),
        "prism".to_string(),
    );
    assert_eq!(events.len(), 1);
    let t = events[0].event_time;
    assert!(events.iter().all(|e| e.event_time == t));
}

#[test]
fn empty_collector_emits_no_events() {
    let collector =
        BillingMetricsCollector::new("http://node/".to_string(), "indexer".to_string(), 5);
    assert!(collector.into_events().is_empty());
}

#[test]
fn metric_families_are_disjoint() {
    assert!(is_simple_metric("parseable_total_events_ingested_by_date"));
    assert!(is_simple_metric("parseable_total_bytes_scanned_in_query_by_date"));
    assert!(!is_simple_metric("parseable_total_object_store_calls_by_date"));
    assert!(is_object_store_metric("parseable_total_object_store_calls_by_date"));
    assert!(is_object_store_metric("parseable_total_bytes_scanned_in_object_store_calls_by_date"));
    assert!(!is_object_store_metric("parseable_total_input_llm_tokens_by_date"));
    assert!(is_llm_metric("parseable_total_input_llm_tokens_by_date"));
    assert!(is_llm_metric("parseable_total_output_llm_tokens_by_date"));
    assert!(!is_llm_metric("parseable_total_events_ingested_by_date"));
}
