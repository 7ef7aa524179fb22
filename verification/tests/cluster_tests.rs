use cluster_core::dispatch::{
    finish_query_response, query_request, query_uri, scheduler_tick_actions,
    table_contains_any_time_filters, BILLING_METRICS_STREAM_NAME, PMETA_STREAM_NAME,
    QUERY_TIMEOUT_SECONDS, TIME_ELAPSED_HEADER,
};
use cluster_core::errors::ClusterError;
use cluster_core::node::{
    node_info_outcome, remove_node_decision, to_url_string, AboutResponse, NodeMetadata, NodeType,
};
use cluster_core::prom::metrics_scrape_url;
use cluster_core::stats::{
    fetch_daily_stats, fetch_stats_from_ingestors, FullStats, Manifest, ObjectStoreFormat,
    Snapshot, Stats,
};
use cluster_core::timepath::{path_intersects_query, time_from_path};

fn node(domain: &str, role: NodeType) -> NodeMetadata {
    NodeMetadata {
        domain_name: domain.to_string(),
        token: format!("Basic {domain}"),
        node_type: role,
    }
}

fn meta(manifests: &[(&str, u64, u64, u64)], stats: FullStats) -> ObjectStoreFormat {
    ObjectStoreFormat {
        snapshot: Snapshot {
            manifest_list: manifests
                .iter()
                .map(|(d, e, i, s)| Manifest {
                    time_lower_bound_date: d.to_string(),
                    events_ingested: *e,
                    ingestion_size: *i,
                    storage_size: *s,
                })
                .collect(),
        },
        stats,
    }
}

fn stats(e: u64, i: u64, s: u64) -> Stats {
    Stats { events: e, ingestion: i, storage: s }
}

#[test]
fn url_normalization_adds_scheme_and_slash() {
    assert_eq!(to_url_string("node1:8000"), "http://node1:8000/");
    assert_eq!(to_url_string("http://node1:8000"), "http://node1:8000/");
    assert_eq!(to_url_string("https://node1:8000/"), "https://node1:8000/");
}

#[test]
fn daily_stats_sum_matching_manifests() {
    let metas = vec![
        meta(
            &[("2024-01-01", 5, 100, 50), ("2024-01-02", 7, 10, 5)],
            FullStats {
                current_stats: stats(0, 0, 0),
                lifetime_stats: stats(0, 0, 0),
                deleted_stats: stats(0, 0, 0),
            },
        ),
        meta(
            &[("2024-01-01", 3, 200, 25)],
            FullStats {
                current_stats: stats(0, 0, 0),
                lifetime_stats: stats(0, 0, 0),
                deleted_stats: stats(0, 0, 0),
            },
        ),
    ];
    let s = fetch_daily_stats("2024-01-01", &metas).unwrap();
    assert_eq!(s.events, 8);
    assert_eq!(s.ingestion, 300);
    assert_eq!(s.storage, 75);
}

#[test]
fn ingestor_stats_aggregate_into_one_record() {
    let metas = vec![
        meta(
            &[],
            FullStats {
                current_stats: stats(1, 10, 100),
                lifetime_stats: stats(2, 20, 200),
                deleted_stats: stats(3, 30, 300),
            },
        ),
        meta(
            &[],
            FullStats {
                current_stats: stats(4, 40, 400),
                lifetime_stats: stats(5, 50, 500),
                deleted_stats: stats(6, 60, 600),
            },
        ),
    ];
    let qs = fetch_stats_from_ingestors(&metas, 99);
    assert_eq!(qs.len(), 1);
    let q = &qs[0];
    assert_eq!(q.stream, "");
    assert_eq!(q.time, 99);
    assert_eq!(q.ingestion.count, 5);
    assert_eq!(q.ingestion.size, 50);
    assert_eq!(q.ingestion.lifetime_count, 7);
    assert_eq!(q.ingestion.lifetime_size, 70);
    assert_eq!(q.ingestion.deleted_count, 9);
    assert_eq!(q.ingestion.deleted_size, 90);
    assert_eq!(q.ingestion.format, "json");
    assert_eq!(q.storage.size, 500);
    assert_eq!(q.storage.lifetime_size, 700);
    assert_eq!(q.storage.deleted_size, 900);
    assert_eq!(q.storage.format, "parquet");
}

#[test]
fn cluster_info_reachable_node() {
    let n = node("http://a/", NodeType::Querier);
    let info = node_info_outcome(
        &n,
        "s3://bucket",
        AboutResponse::Replied {
            status: "200 OK".to_string(),
            staging: Some("/staging".to_string()),
        },
    )
    .unwrap();
    assert!(info.reachable);
    assert_eq!(info.staging_path, "/staging");
    assert_eq!(info.storage_path, "s3://bucket");
    assert_eq!(info.status.as_deref(), Some("200 OK"));
    assert!(info.error.is_none());
}

#[test]
fn cluster_info_missing_staging_is_serialization_error() {
    let n = node("http://a/", NodeType::Querier);
    let r = node_info_outcome(
        &n,
        "s3://bucket",
        AboutResponse::Replied { status: "200 OK".to_string(), staging: None },
    );
    assert!(matches!(r, Err(ClusterError::Serialization(_))));
}

#[test]
fn cluster_info_unreachable_node() {
    let n = node("http://a/", NodeType::Ingestor);
    let info = node_info_outcome(
        &n,
        "s3://bucket",
        AboutResponse::Failed {
            error: Some("connect timeout".to_string()),
            status: Some("408".to_string()),
        },
    )
    .unwrap();
    assert!(!info.reachable);
    assert_eq!(info.staging_path, "");
    assert_eq!(info.error.as_deref(), Some("connect timeout"));
}

#[test]
fn remove_node_requires_dead_target() {
    let r = remove_node_decision("http://a/", true, false, false, false, false);
    assert!(matches!(r, Err(ClusterError::InvalidInput(_))));

    let ok = remove_node_decision("http://a/", false, false, true, false, false).unwrap();
    assert_eq!(ok, "node http://a/ removed successfully");

    let miss = remove_node_decision("http://a/", false, false, false, false, false);
    assert!(matches!(miss, Err(ClusterError::InvalidInput(msg)) if msg == "node http://a/ not found"));
}

#[test]
fn query_uri_carries_flags() {
    let uri = query_uri("http://q/", true, false, true);
    assert_eq!(uri, "http://q/api/v1/query?fields=true&streaming=false&send_null=true");
    assert_eq!(TIME_ELAPSED_HEADER, "p-total-time-elapsed");
}

#[test]
fn query_response_settlement() {
    let ok = finish_query_response(true, "{\"records\":[1,2]}".to_string(), "5ms".to_string());
    let (_, elapsed) = ok.unwrap();
    assert_eq!(elapsed, "5ms");

    let bad_json = finish_query_response(true, "not json".to_string(), String::new());
    assert!(matches!(bad_json, Err(ClusterError::Serialization(_))));

    let failed = finish_query_response(false, "boom".to_string(), String::new());
    assert!(matches!(failed, Err(ClusterError::JsonParse(b)) if b == "boom"));
}

#[test]
fn scheduler_ingests_only_nonempty_artifacts() {
    assert_eq!(scheduler_tick_actions(0, 0), (false, false));
    assert_eq!(scheduler_tick_actions(2, 0), (true, false));
    assert_eq!(scheduler_tick_actions(0, 3), (false, true));
    assert_eq!(PMETA_STREAM_NAME, "pmeta");
    assert_eq!(BILLING_METRICS_STREAM_NAME, "pbilling");
}

#[test]
fn time_filter_detection_uses_partition_column() {
    let cols = vec!["p_timestamp".to_string()];
    assert!(table_contains_any_time_filters(&cols, &None));
    assert!(!table_contains_any_time_filters(&cols, &Some("ts".to_string())));
    let other = vec!["level".to_string()];
    assert!(!table_contains_any_time_filters(&other, &None));
}

#[test]
fn scrape_url_is_validated() {
    let good = node("http://a/", NodeType::Indexer);
    assert_eq!(metrics_scrape_url(&good, "api/v1").unwrap(), "http://a/api/v1/metrics");

    let bad = node("no scheme at all", NodeType::Indexer);
    assert!(matches!(metrics_scrape_url(&bad, "api/v1"), Err(ClusterError::InvalidInput(_))));
}

#[test]
fn staging_file_window_check() {
    let t = time_from_path("date=2022-01-01.hour=10.minute=30.host.data.parquet").unwrap();
    assert!(path_intersects_query(t, t - 60, t + 60));
    assert!(!path_intersects_query(t, t + 1, t + 60));
}

#[test]
fn role_tags_are_stable() {
    assert_eq!(NodeType::Ingestor.as_str(), "ingestor");
    assert_eq!(NodeType::Indexer.as_str(), "indexer");
    assert_eq!(NodeType::Querier.as_str(), "querier");
    assert_eq!(NodeType::Prism.as_str(), "prism");
}

#[test]
fn query_request_is_fully_described() {
    let body = br#"{"query":"select 1"}"#.to_vec();
    let req = query_request("http://q/", "Basic q-token", false, true, false, body.clone());
    assert!(matches!(req.method, cluster_core::fanout::HttpMethod::Post));
    assert_eq!(req.url, "http://q/api/v1/query?fields=false&streaming=true&send_null=false");
    assert_eq!(req.token, "Basic q-token");
    assert!(req.content_type_json);
    assert_eq!(req.body.as_deref(), Some(body.as_slice()));
    assert_eq!(req.timeout_seconds, Some(300));
    assert_eq!(QUERY_TIMEOUT_SECONDS, 300);
}
