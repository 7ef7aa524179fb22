use cluster_core::errors::ClusterError;
use cluster_core::node::{NodeMetadata, NodeType};
use cluster_core::registry::{querier_or_error, QuerierRegistry};

fn querier(domain: &str) -> NodeMetadata {
    NodeMetadata {
        domain_name: domain.to_string(),
        token: format!("Basic {domain}"),
        node_type: NodeType::Querier,
    }
}

fn acquired_domain(reg: &mut QuerierRegistry, live: &Vec<NodeMetadata>, now: u64) -> String {
    reg.acquire_querier(live, now).expect("a querier should be available").domain_name
}

#[test]
fn round_robin_over_three_queriers() {
    let mut reg = QuerierRegistry::new();
    let live = vec![querier("http://a/"), querier("http://b/"), querier("http://c/")];

    let first = acquired_domain(&mut reg, &live, 1);
    reg.mark_querier_available(&first);
    let second = acquired_domain(&mut reg, &live, 2);
    reg.mark_querier_available(&second);
    let third = acquired_domain(&mut reg, &live, 3);

    assert_eq!(first, "http://a/");
    assert_eq!(second, "http://b/");
    assert_eq!(third, "http://c/");
}

#[test]
fn round_robin_each_exactly_once() {
    let mut reg = QuerierRegistry::new();
    let live = vec![querier("http://a/"), querier("http://b/"), querier("http://c/")];
    let mut seen: Vec<String> = Vec::new();
    for now in 1..=3u64 {
        let d = acquired_domain(&mut reg, &live, now);
        reg.mark_querier_available(&d);
        seen.push(d);
    }
    let mut sorted = seen.clone();
    sorted.sort();
    sorted.dedup();
    assert_eq!(sorted.len(), 3);
}

#[test]
fn lru_fallback_picks_oldest() {
    let mut reg = QuerierRegistry::new();
    let live = vec![querier("http://a/"), querier("http://b/"), querier("http://c/")];

    // Three acquisitions without release: A at t1, B at t2, C at t3.
    assert_eq!(acquired_domain(&mut reg, &live, 1), "http://a/");
    assert_eq!(acquired_domain(&mut reg, &live, 2), "http://b/");
    assert_eq!(acquired_domain(&mut reg, &live, 3), "http://c/");

    // All unavailable: the least recently used entry is A.
    assert_eq!(acquired_domain(&mut reg, &live, 4), "http://a/");
}

#[test]
fn lru_prefers_never_used() {
    let mut reg = QuerierRegistry::new();
    let live = vec![querier("http://a/"), querier("http://b/")];
    // A is acquired and so carries a last-used stamp; B never was.
    assert_eq!(acquired_domain(&mut reg, &live, 1), "http://a/");
    let b = reg.select_least_recently_used_querier();
    assert_eq!(b.unwrap(), "http://b/");
}

#[test]
fn dead_peer_dropped_after_cycle() {
    let mut reg = QuerierRegistry::new();
    let both = vec![querier("http://a/"), querier("http://b/")];
    let d = acquired_domain(&mut reg, &both, 1);
    reg.mark_querier_available(&d);
    assert_eq!(reg.entries.len(), 2);

    // Next cycle the probe reports B dead.
    let only_a = vec![querier("http://a/")];
    let _ = acquired_domain(&mut reg, &only_a, 2);
    assert_eq!(reg.entries.len(), 1);
    assert_eq!(reg.entries[0].0, "http://a/");
}

#[test]
fn metadata_refresh_preserves_status() {
    let mut reg = QuerierRegistry::new();
    let live = vec![querier("http://a/")];
    let d = acquired_domain(&mut reg, &live, 7);
    assert_eq!(d, "http://a/");
    // A is still held; a new cycle with a fresh token must keep it
    // unavailable and keep its stamp.
    let refreshed = vec![NodeMetadata {
        domain_name: "http://a/".to_string(),
        token: "Basic rotated".to_string(),
        node_type: NodeType::Querier,
    }];
    reg.update_live(&refreshed);
    assert_eq!(reg.entries.len(), 1);
    assert!(!reg.entries[0].1.available);
    assert_eq!(reg.entries[0].1.last_used, Some(7));
    assert_eq!(reg.entries[0].1.metadata.token, "Basic rotated");
}

#[test]
fn release_on_error_leaves_querier_available() {
    let mut reg = QuerierRegistry::new();
    let live = vec![querier("http://a/")];
    let d = acquired_domain(&mut reg, &live, 1);
    assert!(!reg.entries[0].1.available);

    // The peer replied 500: the reply settles as a JsonParse error,
    // and the querier is released regardless.
    let settled = cluster_core::dispatch::finish_query_response(
        false,
        "internal error".to_string(),
        String::new(),
    );
    assert!(matches!(settled, Err(ClusterError::JsonParse(b)) if b == "internal error"));
    reg.mark_querier_available(&d);
    assert!(reg.entries[0].1.available);
}

#[test]
fn mark_available_ignores_unknown_domain() {
    let mut reg = QuerierRegistry::new();
    let live = vec![querier("http://a/")];
    let _ = acquired_domain(&mut reg, &live, 1);
    reg.mark_querier_available("http://gone/");
    assert!(!reg.entries[0].1.available);
}

#[test]
fn no_querier_at_all_is_typed_error() {
    let mut reg = QuerierRegistry::new();
    let live: Vec<NodeMetadata> = vec![];
    let picked = reg.acquire_querier(&live, 1);
    assert!(picked.is_none());
    assert!(matches!(querier_or_error(picked), Err(ClusterError::NoAvailableQuerier)));
}

#[test]
fn unavailable_rows_never_exceed_in_flight() {
    let mut reg = QuerierRegistry::new();
    let live = vec![querier("http://a/"), querier("http://b/"), querier("http://c/")];

    // Two acquisitions in flight: exactly two rows are held.
    let d1 = acquired_domain(&mut reg, &live, 1);
    let d2 = acquired_domain(&mut reg, &live, 2);
    let held = reg.entries.iter().filter(|e| !e.1.available).count();
    assert_eq!(held, 2);

    // One release: one row held, one query in flight.
    reg.mark_querier_available(&d1);
    let held = reg.entries.iter().filter(|e| !e.1.available).count();
    assert_eq!(held, 1);

    reg.mark_querier_available(&d2);
    let held = reg.entries.iter().filter(|e| !e.1.available).count();
    assert_eq!(held, 0);
}
