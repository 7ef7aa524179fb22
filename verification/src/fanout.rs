//! Broadcast operations: per-peer request building, liveness
//! partitioning, and best-effort aggregation of per-peer results.

use vstd::prelude::*;

use crate::errors::ClusterError;
use crate::node::{NodeMetadata, NodeMetadataV};
use crate::strutil::str_eq;

verus! {

/// The HTTP method of a peer request.
#[derive(Clone, Copy, Debug, PartialEq, Eq, Structural)]
pub enum HttpMethod {
    Get,
    Post,
    Put,
    Patch,
    Delete,
}

/// One request to one peer, fully described: the caller only has to
/// send it.  The token is the target peer's own token, carried as its
/// Authorization value.  Only the query dispatch sets a deadline; every
/// other outbound call runs on the transport's default.
#[derive(Debug)]
pub struct PeerRequest {
    pub method: HttpMethod,
    pub url: String,
    pub token: String,
    pub content_type_json: bool,
    pub headers: Vec<(String, String)>,
    pub body: Option<Vec<u8>>,
    pub timeout_seconds: Option<u64>,
}

/// The JSON array encoding of a list of strings.  A function of the
/// strings alone.
pub uninterp spec fn json_string_array(items: Seq<Seq<char>>) -> Seq<u8>;

/// Relies on `serde_json::to_vec`: a string list encodes to its JSON
/// array bytes, a function of the strings alone.  Its source errs only
/// when a `Serialize` impl fails or a map key is not a string, and a
/// `Vec<u8>` writer never fails, so encoding a string list always
/// succeeds; the fallback arm is unreachable.
#[verifier::external_body]
fn json_encode_strings(items: &Vec<String>) -> (r: Vec<u8>)
    ensures
        r@ == json_string_array(items@.map_values(|s: String| s@)),
{
    serde_json::to_vec(items).unwrap_or_default()
}

/// The live sublist of `peers` under the probe outcomes `alive`.
pub open spec fn live_subset(peers: Seq<NodeMetadataV>, alive: Seq<bool>) -> Seq<NodeMetadataV>
    decreases peers.len(),
{
    if peers.len() == 0 {
        Seq::empty()
    } else {
        live_subset(peers.drop_last(), alive.drop_last()) + if alive.last() {
            seq![peers.last()]
        } else {
            Seq::empty()
        }
    }
}

/// Partition a peer list by its probe outcomes, keeping the live peers
/// in order.
#[verifier::loop_isolation(false)]
pub fn live_peers(peers: &Vec<NodeMetadata>, alive: &Vec<bool>) -> (r: Vec<NodeMetadata>)
    requires
        peers@.len() == alive@.len(),
    ensures
        r@.map_values(|m: NodeMetadata| m@) == live_subset(
            peers@.map_values(|m: NodeMetadata| m@),
            alive@,
        ),
{
    let ghost pv = peers@.map_values(|m: NodeMetadata| m@);
    let mut r: Vec<NodeMetadata> = Vec::new();
    let n = peers.len();
    for i in 0..n
        invariant
            r@.map_values(|m: NodeMetadata| m@) == live_subset(
                pv.take(i as int),
                alive@.take(i as int),
            ),
    {
        proof {
            assert(pv.take(i + 1).drop_last() =~= pv.take(i as int));
            assert(alive@.take(i + 1).drop_last() =~= alive@.take(i as int));
            assert(pv.take(i + 1).last() == peers@[i as int]@);
            assert(alive@.take(i + 1).last() == alive@[i as int]);
        }
        if alive[i] {
            r.push(peers[i].duplicate());
        }
        proof {
            assert(r@.map_values(|m: NodeMetadata| m@) =~= live_subset(
                pv.take(i + 1),
                alive@.take(i + 1),
            ));
        }
    }
    proof {
        assert(pv.take(n as int) =~= pv);
        assert(alive@.take(n as int) =~= alive@);
    }
    r
}

/// The position of the first error in a result list, if any.
pub open spec fn first_error_index<E>(results: Seq<Result<(), E>>) -> Option<int>
    decreases results.len(),
{
    if results.len() == 0 {
        None
    } else if results[0] is Err {
        Some(0int)
    } else {
        match first_error_index(results.drop_first()) {
            Some(i) => Some(i + 1),
            None => None,
        }
    }
}

proof fn lemma_first_error_index_some<E>(results: Seq<Result<(), E>>, i: int)
    requires
        0 <= i < results.len(),
        results[i] is Err,
        forall|j: int| 0 <= j < i ==> (#[trigger] results[j]) is Ok,
    ensures
        first_error_index(results) == Some(i),
    decreases results.len(),
{
    if i > 0 {
        lemma_first_error_index_some(results.drop_first(), i - 1);
    }
}

proof fn lemma_first_error_index_none<E>(results: Seq<Result<(), E>>)
    requires
        forall|j: int| 0 <= j < results.len() ==> (#[trigger] results[j]) is Ok,
    ensures
        (first_error_index(results) is None),
    decreases results.len(),
{
    if results.len() > 0 {
        lemma_first_error_index_none(results.drop_first());
    }
}

/// Best-effort aggregation of per-peer broadcast results: every peer
/// was already driven, and the first error (in peer order) is
/// surfaced, or success when every peer succeeded.
#[verifier::loop_isolation(false)]
pub fn aggregate_broadcast_results<E>(results: Vec<Result<(), E>>) -> (r: Result<(), E>)
    ensures
        match first_error_index(results@) {
            Some(i) => r matches Err(e) && results@[i] == Err::<(), E>(e),
            None => r is Ok,
        },
{
    let ghost orig = results@;
    let mut remaining = results;
    while remaining.len() > 0
        invariant
            remaining@.len() <= orig.len(),
            remaining@ =~= orig.skip(orig.len() - remaining@.len()),
            forall|j: int| 0 <= j < orig.len() - remaining@.len() ==> (#[trigger] orig[j]) is Ok,
        decreases remaining@.len(),
    {
        let ghost done = orig.len() - remaining@.len();
        let ghost pre = remaining@;
        let x = remaining.remove(0);
        proof {
            assert(pre[0] == orig[done]);
            assert forall|k: int| 0 <= k < remaining@.len() implies #[trigger] remaining@[k]
                == orig[done + 1 + k] by {
                assert(remaining@[k] == pre[k + 1]);
                assert(pre[k + 1] == orig.skip(done)[k + 1]);
            }
            assert(remaining@ =~= orig.skip(done + 1));
        }
        match x {
            Err(e) => {
                proof {
                    lemma_first_error_index_some(orig, done);
                }
                return Err(e);
            },
            Ok(()) => {},
        }
    }
    proof {
        lemma_first_error_index_none(orig);
    }
    Ok(())
}

/// Whether `op` names a valid role-sync operation.
pub open spec fn valid_sync_op(op: Seq<char>) -> bool {
    op == "add"@ || op == "remove"@
}

/// Reject any role-sync operation other than `add` or `remove`,
/// before any fan-out happens.
pub fn validate_sync_operation(operation: &str) -> (r: Result<(), ClusterError>)
    ensures
        (r is Ok) == valid_sync_op(operation@),
        !valid_sync_op(operation@) ==> (r matches Err(ClusterError::InvalidInput(msg)) && msg@
            == operation@),
{
    if str_eq(operation, "add") || str_eq(operation, "remove") {
        Ok(())
    } else {
        Err(ClusterError::InvalidInput(operation.to_owned()))
    }
}

/// Copy a header list.
#[verifier::loop_isolation(false)]
fn copy_headers(headers: &Vec<(String, String)>) -> (r: Vec<(String, String)>)
    ensures
        r@.map_values(|p: (String, String)| (p.0@, p.1@)) == headers@.map_values(
            |p: (String, String)| (p.0@, p.1@),
        ),
{
    let mut r: Vec<(String, String)> = Vec::new();
    let n = headers.len();
    for i in 0..n
        invariant
            r@.map_values(|p: (String, String)| (p.0@, p.1@)) == headers@.take(i as int).map_values(
                |p: (String, String)| (p.0@, p.1@),
            ),
    {
        r.push((headers[i].0.clone(), headers[i].1.clone()));
        proof {
            let lhs = r@.map_values(|p: (String, String)| (p.0@, p.1@));
            let rhs = headers@.take(i + 1).map_values(|p: (String, String)| (p.0@, p.1@));
            assert forall|j: int| 0 <= j < lhs.len() implies lhs[j] == rhs[j] by {
                assert(rhs[j] == (headers@[j].0@, headers@[j].1@));
                if j < i {
                    assert(lhs[j] == headers@.take(i as int).map_values(
                        |p: (String, String)| (p.0@, p.1@),
                    )[j]);
                } else {
                    assert(r@[j] == (headers@[i as int].0, headers@[i as int].1));
                }
            }
            assert(lhs =~= rhs);
        }
    }
    proof {
        assert(headers@.take(n as int) =~= headers@);
    }
    r
}

/// The stream-sync request for one ingestor: `PUT
/// {peer}{base}/logstream/{name}/sync` with the original headers and
/// body forwarded.
pub fn sync_stream_request(
    ingestor: &NodeMetadata,
    base_path: &str,
    stream_name: &str,
    headers: &Vec<(String, String)>,
    body: &Vec<u8>,
) -> (r: PeerRequest)
    ensures
        r.method is Put,
        r.url@ == ingestor.domain_name@ + base_path@ + "/logstream/"@ + stream_name@ + "/sync"@,
        r.token@ == ingestor.token@,
        !r.content_type_json,
        r.headers@.map_values(|p: (String, String)| (p.0@, p.1@)) == headers@.map_values(
            |p: (String, String)| (p.0@, p.1@),
        ),
        r.body matches Some(b) && b@ == body@,
        r.timeout_seconds is None,
{
    let mut url: String = ingestor.domain_name.as_str().to_owned();
    url.append(base_path);
    url.append("/logstream/");
    url.append(stream_name);
    url.append("/sync");
    PeerRequest {
        method: HttpMethod::Put,
        url,
        token: ingestor.token.clone(),
        content_type_json: false,
        headers: copy_headers(headers),
        body: Some(body.clone()),
        timeout_seconds: None,
    }
}

/// The user-creation sync request for one ingestor: `POST
/// {peer}{base}/user/{id}/sync` with the serialized user as body.
pub fn sync_user_creation_request(
    ingestor: &NodeMetadata,
    base_path: &str,
    userid: &str,
    user_json: &Vec<u8>,
) -> (r: PeerRequest)
    ensures
        r.method is Post,
        r.url@ == ingestor.domain_name@ + base_path@ + "/user/"@ + userid@ + "/sync"@,
        r.token@ == ingestor.token@,
        r.content_type_json,
        r.headers@.len() == 0,
        r.body matches Some(b) && b@ == user_json@,
        r.timeout_seconds is None,
{
    let mut url: String = ingestor.domain_name.as_str().to_owned();
    url.append(base_path);
    url.append("/user/");
    url.append(userid);
    url.append("/sync");
    PeerRequest {
        method: HttpMethod::Post,
        url,
        token: ingestor.token.clone(),
        content_type_json: true,
        headers: Vec::new(),
        body: Some(user_json.clone()),
        timeout_seconds: None,
    }
}

/// The user-deletion sync request for one ingestor: `DELETE
/// {peer}{base}/user/{id}/sync`.
pub fn sync_user_deletion_request(ingestor: &NodeMetadata, base_path: &str, userid: &str) -> (r:
    PeerRequest)
    ensures
        r.method is Delete,
        r.url@ == ingestor.domain_name@ + base_path@ + "/user/"@ + userid@ + "/sync"@,
        r.token@ == ingestor.token@,
        !r.content_type_json,
        r.headers@.len() == 0,
        r.body is None,
        r.timeout_seconds is None,
{
    let mut url: String = ingestor.domain_name.as_str().to_owned();
    url.append(base_path);
    url.append("/user/");
    url.append(userid);
    url.append("/sync");
    PeerRequest {
        method: HttpMethod::Delete,
        url,
        token: ingestor.token.clone(),
        content_type_json: false,
        headers: Vec::new(),
        body: None,
        timeout_seconds: None,
    }
}

/// The password-reset sync request for one ingestor: `POST
/// {peer}{base}/user/{name}/generate-new-password/sync`.
pub fn sync_password_reset_request(ingestor: &NodeMetadata, base_path: &str, username: &str) -> (r:
    PeerRequest)
    ensures
        r.method is Post,
        r.url@ == ingestor.domain_name@ + base_path@ + "/user/"@ + username@
            + "/generate-new-password/sync"@,
        r.token@ == ingestor.token@,
        r.content_type_json,
        r.headers@.len() == 0,
        r.body is None,
        r.timeout_seconds is None,
{
    let mut url: String = ingestor.domain_name.as_str().to_owned();
    url.append(base_path);
    url.append("/user/");
    url.append(username);
    url.append("/generate-new-password/sync");
    PeerRequest {
        method: HttpMethod::Post,
        url,
        token: ingestor.token.clone(),
        content_type_json: true,
        headers: Vec::new(),
        body: None,
        timeout_seconds: None,
    }
}

/// The role-update sync request for one ingestor: `PUT
/// {peer}{base}/role/{name}/sync` with the serialized privilege list.
pub fn sync_role_update_request(
    ingestor: &NodeMetadata,
    base_path: &str,
    name: &str,
    privileges_json: &Vec<u8>,
) -> (r: PeerRequest)
    ensures
        r.method is Put,
        r.url@ == ingestor.domain_name@ + base_path@ + "/role/"@ + name@ + "/sync"@,
        r.token@ == ingestor.token@,
        r.content_type_json,
        r.headers@.len() == 0,
        r.body matches Some(b) && b@ == privileges_json@,
        r.timeout_seconds is None,
{
    let mut url: String = ingestor.domain_name.as_str().to_owned();
    url.append(base_path);
    url.append("/role/");
    url.append(name);
    url.append("/sync");
    PeerRequest {
        method: HttpMethod::Put,
        url,
        token: ingestor.token.clone(),
        content_type_json: true,
        headers: Vec::new(),
        body: Some(privileges_json.clone()),
        timeout_seconds: None,
    }
}

/// The role-sync requests for every live ingestor: the operation is
/// validated before any request is built, and the role set is encoded
/// once and shared.  `PATCH {peer}{base}/user/{id}/role/sync/{op}`.
#[verifier::loop_isolation(false)]
pub fn sync_users_with_roles_requests(
    live_ingestors: &Vec<NodeMetadata>,
    base_path: &str,
    userid: &str,
    roles: &Vec<String>,
    operation: &str,
) -> (r: Result<Vec<PeerRequest>, ClusterError>)
    ensures
        (r is Ok) == valid_sync_op(operation@),
        !valid_sync_op(operation@) ==> (r matches Err(ClusterError::InvalidInput(_))),
        r matches Ok(reqs) ==> {
            &&& reqs@.len() == live_ingestors@.len()
            &&& forall|i: int|
                0 <= i < reqs@.len() ==> {
                    &&& (#[trigger] reqs@[i]).method is Patch
                    &&& reqs@[i].url@ == live_ingestors@[i]@.domain_name + base_path@ + "/user/"@
                        + userid@ + "/role/sync/"@ + operation@
                    &&& reqs@[i].token@ == live_ingestors@[i]@.token
                    &&& reqs@[i].content_type_json
                    &&& reqs@[i].body matches Some(b) && b@ == json_string_array(
                        roles@.map_values(|s: String| s@),
                    )
                    &&& reqs@[i].timeout_seconds is None
                }
        },
{
    validate_sync_operation(operation)?;
    let role_data = json_encode_strings(roles);
    let mut reqs: Vec<PeerRequest> = Vec::new();
    let n = live_ingestors.len();
    for i in 0..n
        invariant
            reqs@.len() == i,
            forall|j: int|
                0 <= j < i ==> {
                    &&& (#[trigger] reqs@[j]).method is Patch
                    &&& reqs@[j].url@ == live_ingestors@[j]@.domain_name + base_path@ + "/user/"@
                        + userid@ + "/role/sync/"@ + operation@
                    &&& reqs@[j].token@ == live_ingestors@[j]@.token
                    &&& reqs@[j].content_type_json
                    &&& reqs@[j].body matches Some(b) && b@ == json_string_array(
                        roles@.map_values(|s: String| s@),
                    )
                    &&& reqs@[j].timeout_seconds is None
                },
    {
        let ingestor = &live_ingestors[i];
        let mut url: String = ingestor.domain_name.as_str().to_owned();
        url.append(base_path);
        url.append("/user/");
        url.append(userid);
        url.append("/role/sync/");
        url.append(operation);
        reqs.push(
            PeerRequest {
                method: HttpMethod::Patch,
                url,
                token: ingestor.token.clone(),
                content_type_json: true,
                headers: Vec::new(),
                body: Some(role_data.clone()),
                timeout_seconds: None,
            },
        );
    }
    Ok(reqs)
}

/// The stream-delete request: `DELETE` at the caller-supplied URL with
/// the ingestor's token.
pub fn stream_delete_request(url: &str, ingestor: &NodeMetadata) -> (r: PeerRequest)
    ensures
        r.method is Delete,
        r.url@ == url@,
        r.token@ == ingestor.token@,
        r.content_type_json,
        r.headers@.len() == 0,
        r.body is None,
        r.timeout_seconds is None,
{
    PeerRequest {
        method: HttpMethod::Delete,
        url: url.to_owned(),
        token: ingestor.token.clone(),
        content_type_json: true,
        headers: Vec::new(),
        body: None,
        timeout_seconds: None,
    }
}

/// The retention-cleanup request: `POST` at the caller-supplied URL
/// with the serialized date list.  Unlike the other broadcasts, a
/// non-success reply to this request is propagated by the caller.
pub fn retention_cleanup_request(url: &str, ingestor: &NodeMetadata, dates: &Vec<String>) -> (r:
    PeerRequest)
    ensures
        r.method is Post,
        r.url@ == url@,
        r.token@ == ingestor.token@,
        r.content_type_json,
        r.headers@.len() == 0,
        r.body matches Some(b) && b@ == json_string_array(dates@.map_values(|s: String| s@)),
        r.timeout_seconds is None,
{
    let dates_json = json_encode_strings(dates);
    PeerRequest {
        method: HttpMethod::Post,
        url: url.to_owned(),
        token: ingestor.token.clone(),
        content_type_json: true,
        headers: Vec::new(),
        body: Some(dates_json),
        timeout_seconds: None,
    }
}

/// The demo-data request, aimed at the first live ingestor: `GET
/// {peer}{base}/demodata?action={action}`.  With no live ingestor the
/// call is rejected.
#[verifier::loop_isolation(false)]
pub fn get_demo_data_request(
    ingestors: &Vec<NodeMetadata>,
    alive: &Vec<bool>,
    base_path: &str,
    action: &str,
) -> (r: Result<PeerRequest, ClusterError>)
    requires
        ingestors@.len() == alive@.len(),
    ensures
        (forall|i: int| 0 <= i < alive@.len() ==> !(#[trigger] alive@[i])) ==> (r matches Err(
            ClusterError::InvalidInput(_),
        )),
        r matches Ok(req) ==> exists|i: int|
            {
                &&& 0 <= i < alive@.len()
                &&& #[trigger] alive@[i]
                &&& forall|j: int| 0 <= j < i ==> !(#[trigger] alive@[j])
                &&& req.method is Get
                &&& req.url@ == ingestors@[i]@.domain_name + base_path@ + "/demodata?action="@
                    + action@
                &&& req.token@ == ingestors@[i]@.token
                &&& req.content_type_json
                &&& req.body is None
                &&& req.timeout_seconds is None
            },
        (exists|i: int| 0 <= i < alive@.len() && #[trigger] alive@[i]) ==> (r is Ok),
{
    let n = ingestors.len();
    for i in 0..n
        invariant
            forall|j: int| 0 <= j < i ==> !(#[trigger] alive@[j]),
    {
        if alive[i] {
            let ingestor = &ingestors[i];
            let mut url: String = ingestor.domain_name.as_str().to_owned();
            url.append(base_path);
            url.append("/demodata?action=");
            url.append(action);
            let req = PeerRequest {
                method: HttpMethod::Get,
                url,
                token: ingestor.token.clone(),
                content_type_json: true,
                headers: Vec::new(),
                body: None,
                timeout_seconds: None,
            };
            return Ok(req);
        }
    }
    Err(ClusterError::InvalidInput("No live ingestors found".to_owned()))
}

/// What came back from driving one peer request, reduced to what the
/// broadcast policy reads.
#[derive(Clone, Debug)]
pub enum PeerReply {
    /// The transport failed; carries the error text.
    Transport { error: String },
    /// The peer replied; `success` is whether the status was 2xx.
    Replied { success: bool, body: String },
}

/// The broadcast policy for sync operations: a transport failure is a
/// network error, while a peer that replied without success is only
/// logged and the broadcast goes on.
pub fn settle_sync_reply(reply: PeerReply) -> (r: Result<(), ClusterError>)
    ensures
        reply matches PeerReply::Transport { error } ==> (r matches Err(
            ClusterError::Network(e),
        ) && e@ == error@),
        (reply is Replied) ==> (r is Ok),
{
    match reply {
        PeerReply::Transport { error } => Err(ClusterError::Network(error)),
        PeerReply::Replied { .. } => Ok(()),
    }
}

/// The retention-cleanup policy: unlike the other broadcasts, a peer
/// reply without success is propagated as an error.
pub fn settle_retention_cleanup_reply(reply: PeerReply) -> (r: Result<(), ClusterError>)
    ensures
        reply matches PeerReply::Transport { error } ==> (r matches Err(
            ClusterError::Network(e),
        ) && e@ == error@),
        reply matches PeerReply::Replied { success: true, .. } ==> (r is Ok),
        reply matches PeerReply::Replied { success: false, body } ==> (r matches Err(
            ClusterError::PeerNonSuccess(b),
        ) && b@ == body@),
{
    match reply {
        PeerReply::Transport { error } => Err(ClusterError::Network(error)),
        PeerReply::Replied { success, body } => if success {
            Ok(())
        } else {
            Err(ClusterError::PeerNonSuccess(body))
        },
    }
}

} // verus!
