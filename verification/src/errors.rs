//! Error kinds distinguished by the control plane.

use vstd::prelude::*;

verus! {

/// The failure modes of the control plane.
///
/// `Network` covers transport failures talking to peers, `Serialization`
/// covers JSON encode or decode problems, `Metastore` covers failures
/// loading or deleting node metadata, `InvalidInput` covers malformed
/// operation names or missing required fields, `NoAvailableQuerier` is
/// raised when the dispatcher finds no querier at all, `PeerNonSuccess`
/// records a non-success reply from a peer, and `JsonParse` carries the
/// raw body of a query reply that was not successful.
#[derive(Clone, Debug, PartialEq, Eq)]
pub enum ClusterError {
    Network(String),
    Serialization(String),
    Metastore(String),
    InvalidInput(String),
    NoAvailableQuerier,
    PeerNonSuccess(String),
    JsonParse(String),
}

} // verus!
