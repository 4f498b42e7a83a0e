//! What came of a request.

pub mod momento;

use vstd::prelude::*;

verus! {

/// Type of request for metrics categorization.
#[derive(Clone, Copy, Debug, PartialEq, Eq, Structural)]
pub enum RequestType {
    Get,
    /// A SET.
    Store,
    Ping,
    Delete,
    Other,
}

/// The kind of cluster redirect.
#[derive(Clone, Copy, Debug, PartialEq, Eq, Structural)]
pub enum RedirectKind {
    /// The slot is owned by another node from now on.
    Moved,
    /// One request is redirected while a slot migrates.
    Ask,
}

/// A redirect that a cluster node answered with.
#[derive(Clone, Debug)]
pub struct Redirect {
    pub kind: RedirectKind,
    pub slot: u16,
    /// Address as `host:port`.
    pub address: String,
}

/// Result of a completed request.
#[derive(Clone, Debug)]
pub struct RequestResult {
    /// Unique request ID
    pub id: u64,
    /// Whether the request succeeded
    pub success: bool,
    /// Whether this was an error response (not a network error)
    pub is_error_response: bool,
    /// Latency in nanoseconds (sent_at → full response received)
    pub latency_ns: u64,
    /// Time to first byte in nanoseconds (sent_at → first recv notification), GET only
    pub ttfb_ns: Option<u64>,
    /// Request type
    pub request_type: RequestType,
    /// For GET requests: true if cache hit, false if miss, None for non-GET
    pub hit: Option<bool>,
    /// Key ID for tracking what the request was about
    pub key_id: Option<usize>,
    /// True if this SET was triggered by a miss (backfill)
    pub backfill: bool,
    /// True if this SET was part of the prefill
    pub prefill: bool,
    /// True if this SET was part of the append stream
    pub append: bool,
    /// Cluster redirect (MOVED/ASK), if the response was a redirect error.
    pub redirect: Option<Redirect>,
}

} // verus!
