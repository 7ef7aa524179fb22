//! Verified core of a cluster control plane for a distributed log engine.
//!
//! The crate models cluster membership, a querier dispatcher with
//! round-robin and least-recently-used selection, broadcast request
//! building with best-effort aggregation, and a billing pipeline that
//! folds Prometheus counter samples into flat event rows.  All decision
//! logic is verified; network and storage effects stay with the caller.

pub mod assoc;
pub mod billing;
pub mod dispatch;
pub mod errors;
pub mod fanout;
pub mod flatten;
pub mod node;
pub mod prom;
pub mod registry;
pub mod stats;
mod strutil;
pub mod timepath;
