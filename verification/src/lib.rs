//! Core of a configuration-driven HTTP reverse proxy.
//!
//! - [`route`]: routing rules with host/path matching, priority ordering
//!   and path rewriting;
//! - [`upstream`]: backend groups with round-robin and consistent-hash
//!   peer selection over per-peer health;
//! - [`plugin`]: per-rule plugin chains, with the cache plugin's policy;
//! - [`server`]: configuration into servers, and the per-request
//!   pipeline from acceptance to logging;
//! - [`errors`]: failure classification and the error-page synthesis;
//! - [`message`], [`state`]: the request, response and per-request
//!   context the pipeline works on;
//! - [`otel`]: the tracer service's parsed settings;
//! - [`trusted`]: the few calls into outside crates, each behind a
//!   stated contract;
//! - [`util`]: verified text helpers.

pub mod errors;
pub mod message;
pub mod otel;
pub mod plugin;
pub mod route;
pub mod server;
pub mod state;
pub mod trusted;
pub mod upstream;
pub mod util;
