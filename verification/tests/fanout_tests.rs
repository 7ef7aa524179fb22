use cluster_core::errors::ClusterError;
use cluster_core::fanout::{
    aggregate_broadcast_results, get_demo_data_request, live_peers, retention_cleanup_request,
    settle_retention_cleanup_reply, settle_sync_reply, stream_delete_request,
    sync_password_reset_request, sync_role_update_request, sync_stream_request,
    sync_user_creation_request, sync_user_deletion_request, sync_users_with_roles_requests,
    validate_sync_operation, HttpMethod, PeerReply,
};
use cluster_core::node::{NodeMetadata, NodeType};

fn ingestor(domain: &str) -> NodeMetadata {
    NodeMetadata {
        domain_name: domain.to_string(),
        token: format!("Basic {domain}"),
        node_type: NodeType::Ingestor,
    }
}

#[test]
fn broadcast_surfaces_first_transport_error() {
    // Three live ingestors; the second fails at the transport level.
    // Every reply was settled (the side effects already happened), and
    // the aggregate is the network error.
    let replies = vec![
        PeerReply::Replied { success: true, body: String::new() },
        PeerReply::Transport { error: "connection refused".to_string() },
        PeerReply::Replied { success: true, body: String::new() },
    ];
    let results: Vec<Result<(), ClusterError>> =
        replies.into_iter().map(settle_sync_reply).collect();
    assert!(results[0].is_ok());
    assert!(results[2].is_ok());
    let agg = aggregate_broadcast_results(results);
    assert!(matches!(agg, Err(ClusterError::Network(e)) if e == "connection refused"));
}

#[test]
fn broadcast_all_ok_is_ok() {
    let results: Vec<Result<(), ClusterError>> = vec![Ok(()), Ok(()), Ok(())];
    assert!(aggregate_broadcast_results(results).is_ok());
}

#[test]
fn non_success_reply_is_logged_not_fatal() {
    let r = settle_sync_reply(PeerReply::Replied { success: false, body: "oops".to_string() });
    assert!(r.is_ok());
}

#[test]
fn retention_cleanup_propagates_non_success() {
    let r = settle_retention_cleanup_reply(PeerReply::Replied {
        success: false,
        body: "cleanup failed".to_string(),
    });
    assert!(matches!(r, Err(ClusterError::PeerNonSuccess(b)) if b == "cleanup failed"));
    let ok = settle_retention_cleanup_reply(PeerReply::Replied {
        success: true,
        body: String::new(),
    });
    assert!(ok.is_ok());
}

#[test]
fn role_sync_rejects_unknown_operation() {
    assert!(validate_sync_operation("add").is_ok());
    assert!(validate_sync_operation("remove").is_ok());
    let r = validate_sync_operation("rename");
    assert!(matches!(r, Err(ClusterError::InvalidInput(op)) if op == "rename"));

    let live = vec![ingestor("http://a/")];
    let roles = vec!["reader".to_string()];
    let r = sync_users_with_roles_requests(&live, "api/v1", "u1", &roles, "rename");
    assert!(matches!(r, Err(ClusterError::InvalidInput(_))));
}

#[test]
fn role_sync_builds_one_request_per_live_ingestor() {
    let live = vec![ingestor("http://a/"), ingestor("http://b/")];
    let roles = vec!["reader".to_string()];
    let reqs = sync_users_with_roles_requests(&live, "api/v1", "u1", &roles, "add").unwrap();
    assert_eq!(reqs.len(), 2);
    assert_eq!(reqs[0].url, "http://a/api/v1/user/u1/role/sync/add");
    assert_eq!(reqs[1].url, "http://b/api/v1/user/u1/role/sync/add");
    assert!(matches!(reqs[0].method, HttpMethod::Patch));
    assert_eq!(reqs[0].token, "Basic http://a/");
    assert_eq!(reqs[0].body.as_deref(), Some(br#"["reader"]"#.as_slice()));
    assert_eq!(reqs[0].timeout_seconds, None);
}

#[test]
fn builders_shape_urls_and_methods() {
    let node = ingestor("http://a/");
    let headers = vec![("x-p-stream".to_string(), "s1".to_string())];
    let body = vec![1u8, 2, 3];

    let r = sync_stream_request(&node, "api/v1", "s1", &headers, &body);
    assert!(matches!(r.method, HttpMethod::Put));
    assert_eq!(r.url, "http://a/api/v1/logstream/s1/sync");
    assert_eq!(r.headers, headers);
    assert_eq!(r.body.as_deref(), Some(body.as_slice()));

    let r = sync_user_creation_request(&node, "api/v1", "u1", &body);
    assert!(matches!(r.method, HttpMethod::Post));
    assert_eq!(r.url, "http://a/api/v1/user/u1/sync");
    assert!(r.content_type_json);

    let r = sync_user_deletion_request(&node, "api/v1", "u1");
    assert!(matches!(r.method, HttpMethod::Delete));
    assert_eq!(r.url, "http://a/api/v1/user/u1/sync");
    assert!(r.body.is_none());

    let r = sync_password_reset_request(&node, "api/v1", "u1");
    assert!(matches!(r.method, HttpMethod::Post));
    assert_eq!(r.url, "http://a/api/v1/user/u1/generate-new-password/sync");

    let r = sync_role_update_request(&node, "api/v1", "admin", &body);
    assert!(matches!(r.method, HttpMethod::Put));
    assert_eq!(r.url, "http://a/api/v1/role/admin/sync");

    let r = stream_delete_request("http://a/api/v1/logstream/s1", &node);
    assert!(matches!(r.method, HttpMethod::Delete));
    assert_eq!(r.url, "http://a/api/v1/logstream/s1");
}

#[test]
fn retention_cleanup_encodes_dates() {
    let node = ingestor("http://a/");
    let dates = vec!["2024-01-01".to_string(), "2024-01-02".to_string()];
    let r = retention_cleanup_request("http://a/api/v1/retention", &node, &dates);
    assert!(matches!(r.method, HttpMethod::Post));
    assert_eq!(r.body.as_deref(), Some(br#"["2024-01-01","2024-01-02"]"#.as_slice()));
    assert_eq!(r.timeout_seconds, None);
}

#[test]
fn live_partition_keeps_order() {
    let peers = vec![ingestor("http://a/"), ingestor("http://b/"), ingestor("http://c/")];
    let alive = vec![true, false, true];
    let live = live_peers(&peers, &alive);
    assert_eq!(live.len(), 2);
    assert_eq!(live[0].domain_name, "http://a/");
    assert_eq!(live[1].domain_name, "http://c/");
}

#[test]
fn demo_data_goes_to_first_live_ingestor() {
    let peers = vec![ingestor("http://a/"), ingestor("http://b/"), ingestor("http://c/")];
    let alive = vec![false, true, true];
    let req = get_demo_data_request(&peers, &alive, "api/v1", "ingest").unwrap();
    assert!(matches!(req.method, HttpMethod::Get));
    assert_eq!(req.url, "http://b/api/v1/demodata?action=ingest");

    let none_alive = vec![false, false, false];
    let r = get_demo_data_request(&peers, &none_alive, "api/v1", "ingest");
    assert!(matches!(r, Err(ClusterError::InvalidInput(_))));
}
