//! Loopback-exemption management for sandboxed application identities.
//!
//! The library holds the decisions: decoding security identifiers, joining
//! the identity list with the exemption list, computing the replacement
//! exemption list for one identity, and planning a reconcile sweep. The
//! operating-system calls that produce and consume these values live with
//! the caller.

pub mod sid;
pub mod api;
pub mod messages;
