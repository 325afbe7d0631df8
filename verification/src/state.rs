//! Per-request context: created fresh when a request is accepted, carried
//! through every pipeline phase, and handed to logging when the request
//! reaches a terminal state.

use vstd::prelude::*;

verus! {

/// The cache wiring a cache plugin requested for this request: which shared
/// collaborators take part and the size cap for a cacheable body. The
/// storage backend, eviction manager, predictor and collapsing locks
/// themselves are process-wide collaborators outside this crate.
#[derive(Clone, Copy, PartialEq, Eq, Structural, Debug)]
pub struct CacheContext {
    /// Whether cache participation was enabled for this request.
    pub enabled: bool,
    /// Collapsing-lock wait in seconds: 0 is disabled, else 1, 2 or 3.
    pub lock_secs: u8,
    /// Whether the shared eviction manager takes part.
    pub eviction: bool,
    /// Whether the cacheability predictor takes part.
    pub predictor: bool,
    /// Largest response body the cache may store, in bytes.
    pub max_file_size: u64,
}

/// Per-request state. Owned exclusively by one request's execution.
pub struct State {
    /// Snapshot of the server's in-flight count taken at acceptance,
    /// before this request was counted.
    pub processing: i64,
    /// Snapshot of the server's accepted count taken at acceptance,
    /// before this request was counted.
    pub accepted: u64,
    /// Index of the matched routing rule in the server's ordered list.
    pub location_index: Option<usize>,
    /// Address of the chosen upstream peer, empty until connected.
    pub upstream_address: String,
    /// Whether the upstream connection was reused.
    pub reused: bool,
    /// Response status, written exactly once: first writer wins.
    pub status: Option<u16>,
    /// Running total of response body bytes streamed downstream.
    pub response_body_size: u64,
    /// Cache wiring requested by the matched rule's plugins.
    pub cache: CacheContext,
}

impl Default for State {
    /// A fresh context: nothing matched, nothing counted, cache off.
    fn default() -> (r: State)
        ensures
            r.processing == 0 && r.accepted == 0,
            r.location_index is None,
            r.upstream_address@ == Seq::<char>::empty(),
            !r.reused,
            r.status is None,
            r.response_body_size == 0,
            !r.cache.enabled && r.cache.lock_secs == 0 && !r.cache.eviction
                && !r.cache.predictor && r.cache.max_file_size == 0,
    {
        State {
            processing: 0,
            accepted: 0,
            location_index: None,
            upstream_address: String::new(),
            reused: false,
            status: None,
            response_body_size: 0,
            cache: CacheContext {
                enabled: false,
                lock_secs: 0,
                eviction: false,
                predictor: false,
                max_file_size: 0,
            },
        }
    }
}

} // verus!
