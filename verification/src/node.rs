//! Node roles, per-node metadata, URL normalization, and the
//! cluster-info and node-removal decisions.

use vstd::prelude::*;

use crate::errors::ClusterError;
use crate::strutil::{concat2, concat3, ends_with, spec_ends_with, spec_starts_with, starts_with};

verus! {

/// The role a peer plays in the cluster.
#[derive(Clone, Copy, Debug, PartialEq, Eq, Structural)]
pub enum NodeType {
    Ingestor,
    Indexer,
    Querier,
    Prism,
}

impl NodeType {
    /// The stable lower-case tag of the role.
    pub open spec fn spec_tag(self) -> Seq<char> {
        match self {
            NodeType::Ingestor => "ingestor"@,
            NodeType::Indexer => "indexer"@,
            NodeType::Querier => "querier"@,
            NodeType::Prism => "prism"@,
        }
    }

    /// The stable lower-case tag of the role.
    pub fn as_str(&self) -> (r: &'static str)
        ensures
            r@ == self.spec_tag(),
    {
        match self {
            NodeType::Ingestor => "ingestor",
            NodeType::Indexer => "indexer",
            NodeType::Querier => "querier",
            NodeType::Prism => "prism",
        }
    }
}

/// Identity of one peer: its normalized base URL, the bearer token that
/// authenticates the control plane to it, and its role.
#[derive(Clone, Debug)]
pub struct NodeMetadata {
    pub domain_name: String,
    pub token: String,
    pub node_type: NodeType,
}

/// The mathematical image of a `NodeMetadata`.
pub struct NodeMetadataV {
    pub domain_name: Seq<char>,
    pub token: Seq<char>,
    pub node_type: NodeType,
}

impl View for NodeMetadata {
    type V = NodeMetadataV;

    open spec fn view(&self) -> NodeMetadataV {
        NodeMetadataV {
            domain_name: self.domain_name@,
            token: self.token@,
            node_type: self.node_type,
        }
    }
}

impl NodeMetadata {
    /// A metadata record is well formed when its domain carries a scheme
    /// and a trailing slash, so URL building is plain concatenation.
    pub open spec fn wf(self) -> bool {
        self.domain_name@ == normalize_url(self.domain_name@)
    }

    /// A copy of the record, equal to it in every field.
    pub fn duplicate(&self) -> (r: NodeMetadata)
        ensures
            r@ == self@,
    {
        NodeMetadata {
            domain_name: self.domain_name.clone(),
            token: self.token.clone(),
            node_type: self.node_type,
        }
    }
}

/// The normal form of a node URL: an `http` scheme is prefixed when no
/// scheme is present, and a trailing slash is appended when missing.
pub open spec fn normalize_url(s: Seq<char>) -> Seq<char> {
    let with_scheme = if spec_starts_with(s, "http://"@) || spec_starts_with(s, "https://"@) {
        s
    } else {
        "http://"@ + s
    };
    if spec_ends_with(with_scheme, "/"@) {
        with_scheme
    } else {
        with_scheme + "/"@
    }
}

/// Normalize a node URL as `normalize_url` describes.
pub fn to_url_string(s: &str) -> (r: String)
    ensures
        r@ == normalize_url(s@),
{
    let with_scheme: String = if starts_with(s, "http://") || starts_with(s, "https://") {
        s.to_owned()
    } else {
        concat2("http://", s)
    };
    if ends_with(with_scheme.as_str(), "/") {
        with_scheme
    } else {
        concat2(with_scheme.as_str(), "/")
    }
}

/// Per-node snapshot returned by the cluster-info endpoint.
///
/// `reachable == false` implies the staging path is empty and the error
/// and status fields may explain the failure.
#[derive(Clone, Debug)]
pub struct ClusterInfo {
    pub domain_name: String,
    pub reachable: bool,
    pub staging_path: String,
    pub storage_path: String,
    pub error: Option<String>,
    pub status: Option<String>,
    pub node_type: NodeType,
}

impl ClusterInfo {
    pub open spec fn wf(self) -> bool {
        !self.reachable ==> self.staging_path@.len() == 0
    }
}

/// What came back from one peer's `about` endpoint, reduced to the
/// values the control plane reads.
#[derive(Clone, Debug)]
pub enum AboutResponse {
    /// A reply was received: its status text, and the `staging` string
    /// field of the JSON body when the body carried one.
    Replied { status: String, staging: Option<String> },
    /// No reply; optional transport error text and status text.
    Failed { error: Option<String>, status: Option<String> },
}

/// Assemble the cluster-info row for one node from its `about` outcome.
///
/// A reply whose body carries the `staging` field yields a reachable
/// row; a reply without it is a serialization error; no reply at all
/// yields an unreachable row with the failure recorded.
pub fn node_info_outcome(node: &NodeMetadata, storage_endpoint: &str, about: AboutResponse) -> (r:
    Result<ClusterInfo, ClusterError>)
    ensures
        about matches AboutResponse::Replied { status, staging: Some(sp) } ==> {
            &&& r matches Ok(info)
            &&& info.domain_name@ == node.domain_name@
            &&& info.reachable
            &&& info.staging_path@ == sp@
            &&& info.storage_path@ == storage_endpoint@
            &&& info.error is None
            &&& info.status matches Some(st) && st@ == status@
            &&& info.node_type == node.node_type
        },
        about matches AboutResponse::Replied { status, staging: None } ==> r matches Err(
            ClusterError::Serialization(_),
        ),
        about matches AboutResponse::Failed { error, status } ==> {
            &&& r matches Ok(info)
            &&& info.domain_name@ == node.domain_name@
            &&& !info.reachable
            &&& info.staging_path@.len() == 0
            &&& info.storage_path@ == storage_endpoint@
            &&& info.error == error
            &&& info.status == status
            &&& info.node_type == node.node_type
            &&& info.wf()
        },
{
    match about {
        AboutResponse::Replied { status, staging } => match staging {
            Some(sp) => Ok(
                ClusterInfo {
                    domain_name: node.domain_name.clone(),
                    reachable: true,
                    staging_path: sp,
                    storage_path: storage_endpoint.to_owned(),
                    error: None,
                    status: Some(status),
                    node_type: node.node_type,
                },
            ),
            None => Err(
                ClusterError::Serialization(
                    "staging path not a string/ not provided".to_owned(),
                ),
            ),
        },
        AboutResponse::Failed { error, status } => Ok(
            ClusterInfo {
                domain_name: node.domain_name.clone(),
                reachable: false,
                staging_path: String::new(),
                storage_path: storage_endpoint.to_owned(),
                error,
                status,
                node_type: node.node_type,
            },
        ),
    }
}

/// Decide the outcome of a node-removal request.
///
/// A live node is never removed; otherwise removal succeeds exactly
/// when at least one role key held metadata for the domain.
pub fn remove_node_decision(
    domain_name: &str,
    is_live: bool,
    removed_ingestor: bool,
    removed_indexer: bool,
    removed_querier: bool,
    removed_prism: bool,
) -> (r: Result<String, ClusterError>)
    ensures
        is_live ==> r matches Err(ClusterError::InvalidInput(_)),
        !is_live && (removed_ingestor || removed_indexer || removed_querier || removed_prism)
            ==> (r matches Ok(msg) && msg@ == "node "@ + domain_name@ + " removed successfully"@),
        !is_live && !(removed_ingestor || removed_indexer || removed_querier || removed_prism)
            ==> (r matches Err(ClusterError::InvalidInput(msg)) && msg@ == "node "@ + domain_name@
            + " not found"@),
{
    if is_live {
        return Err(
            ClusterError::InvalidInput(
                "The node is currently live and cannot be removed".to_owned(),
            ),
        );
    }
    if removed_ingestor || removed_indexer || removed_querier || removed_prism {
        Ok(concat3("node ", domain_name, " removed successfully"))
    } else {
        Err(ClusterError::InvalidInput(concat3("node ", domain_name, " not found")))
    }
}

} // verus!
