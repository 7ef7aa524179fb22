//! Query dispatch and the periodic collection schedule: the query URI,
//! the settlement of a query reply, the tick decisions of the
//! scheduler, and the time-filter check for table scans.

use vstd::prelude::*;

use crate::errors::ClusterError;
use crate::fanout::{HttpMethod, PeerRequest};
use crate::strutil::str_eq;

verus! {

/// The response header that carries the server-reported elapsed time.
pub const TIME_ELAPSED_HEADER: &'static str = "p-total-time-elapsed";

/// The internal stream that receives operational metrics.
pub const PMETA_STREAM_NAME: &'static str = "pmeta";

/// The internal stream that receives billing events.
pub const BILLING_METRICS_STREAM_NAME: &'static str = "pbilling";

/// The default timestamp column of a stream.
pub const DEFAULT_TIMESTAMP_KEY: &'static str = "p_timestamp";

/// The deadline of the query dispatch POST, in seconds.  No other
/// outbound call of the control plane sets a deadline.
pub const QUERY_TIMEOUT_SECONDS: u64 = 300;

/// The digits of a boolean as written in a query string.
pub open spec fn spec_bool_str(b: bool) -> Seq<char> {
    if b {
        "true"@
    } else {
        "false"@
    }
}

fn bool_str(b: bool) -> (r: &'static str)
    ensures
        r@ == spec_bool_str(b),
{
    if b {
        "true"
    } else {
        "false"
    }
}

/// The URI a query is posted to: the querier's domain followed by the
/// query path and the three forwarded flags.
pub fn query_uri(domain: &str, fields: bool, streaming: bool, send_null: bool) -> (r: String)
    ensures
        r@ == domain@ + "api/v1/query?fields="@ + spec_bool_str(fields) + "&streaming="@
            + spec_bool_str(streaming) + "&send_null="@ + spec_bool_str(send_null),
{
    let mut url: String = domain.to_owned();
    url.append("api/v1/query?fields=");
    url.append(bool_str(fields));
    url.append("&streaming=");
    url.append(bool_str(streaming));
    url.append("&send_null=");
    url.append(bool_str(send_null));
    url
}

/// The full query dispatch request: one POST to the acquired querier,
/// authenticated with that querier's token, typed as JSON, carrying
/// the serialized query envelope verbatim, under the fixed deadline.
pub fn query_request(
    domain: &str,
    token: &str,
    fields: bool,
    streaming: bool,
    send_null: bool,
    body: Vec<u8>,
) -> (r: PeerRequest)
    ensures
        r.method is Post,
        r.url@ == domain@ + "api/v1/query?fields="@ + spec_bool_str(fields) + "&streaming="@
            + spec_bool_str(streaming) + "&send_null="@ + spec_bool_str(send_null),
        r.token@ == token@,
        r.content_type_json,
        r.headers@.len() == 0,
        r.body matches Some(b) && b@ == body@,
        r.timeout_seconds == Some(QUERY_TIMEOUT_SECONDS),
{
    PeerRequest {
        method: HttpMethod::Post,
        url: query_uri(domain, fields, streaming, send_null),
        token: token.to_owned(),
        content_type_json: true,
        headers: Vec::new(),
        body: Some(body),
        timeout_seconds: Some(QUERY_TIMEOUT_SECONDS),
    }
}

/// Declares `serde_json::Value`, the opaque JSON document a query
/// reply carries; the library passes it through without reading it.
#[verifier::external_type_specification]
#[verifier::external_body]
pub struct ExJsonValue(serde_json::Value);

/// Whether a text is well-formed JSON.  A function of the text alone.
pub uninterp spec fn json_text_parses(text: Seq<char>) -> bool;

/// Relies on `serde_json::from_str::<Value>`: whether a text parses as
/// a JSON value depends on the text alone.
#[verifier::external_body]
fn parse_json(text: &str) -> (r: Option<serde_json::Value>)
    ensures
        (r is Some) == json_text_parses(text@),
{
    match serde_json::from_str::<serde_json::Value>(text) {
        Ok(v) => Some(v),
        Err(_) => None,
    }
}

/// Settle a query reply after the querier slot was released: a
/// non-success reply fails with its raw body; a success reply is
/// parsed as JSON and returned with the forwarded elapsed-time header,
/// or fails as a serialization error when the body is not JSON.
pub fn finish_query_response(success: bool, body: String, elapsed: String) -> (r: Result<
    (serde_json::Value, String),
    ClusterError,
>)
    ensures
        !success ==> (r matches Err(ClusterError::JsonParse(b)) && b@ == body@),
        success && json_text_parses(body@) ==> (r matches Ok((v, e)) && e@ == elapsed@),
        success && !json_text_parses(body@) ==> (r matches Err(ClusterError::Serialization(_))),
{
    if !success {
        return Err(ClusterError::JsonParse(body));
    }
    match parse_json(body.as_str()) {
        Some(v) => Ok((v, elapsed)),
        None => Err(ClusterError::Serialization("failed to parse query response".to_owned())),
    }
}

/// One scheduler tick's decisions: each artifact stream is ingested
/// exactly when its collection pass produced something, and the two
/// decisions are independent.
pub fn scheduler_tick_actions(metrics_count: usize, billing_count: usize) -> (r: (bool, bool))
    ensures
        r.0 == (metrics_count > 0),
        r.1 == (billing_count > 0),
{
    (metrics_count > 0, billing_count > 0)
}

/// The time column of a table: the stream's time partition when one is
/// set, else the default timestamp key.
pub open spec fn spec_time_column(time_partition: Option<Seq<char>>) -> Seq<char> {
    match time_partition {
        Some(t) => t,
        None => "p_timestamp"@,
    }
}

/// Whether a table scan already filters on its time column, judged
/// from the column names on the left of its binary filter expressions.
#[verifier::loop_isolation(false)]
pub fn table_contains_any_time_filters(
    filter_columns: &Vec<String>,
    time_partition: &Option<String>,
) -> (r: bool)
    ensures
        r == exists|i: int|
            0 <= i < filter_columns@.len() && (#[trigger] filter_columns@[i])@ == spec_time_column(
                match time_partition {
                    Some(t) => Some(t@),
                    None => None,
                },
            ),
{
    let ghost target = spec_time_column(
        match time_partition {
            Some(t) => Some(t@),
            None => None,
        },
    );
    let n = filter_columns.len();
    for i in 0..n
        invariant
            forall|j: int| 0 <= j < i ==> (#[trigger] filter_columns@[j])@ != target,
    {
        let hit = match time_partition {
            Some(t) => str_eq(filter_columns[i].as_str(), t.as_str()),
            None => str_eq(filter_columns[i].as_str(), "p_timestamp"),
        };
        if hit {
            assert(filter_columns@[i as int]@ == target);
            return true;
        }
    }
    false
}

} // verus!
