//! A lightweight reverse proxy / ingress gateway: ingress declarations are
//! merged into a route table keyed by listen port, HTTP requests are matched
//! by longest path prefix and rewritten, unmatched paths get a JSON 404, and
//! each accepted connection is pumped to one randomly chosen backend behind
//! a bounded dial retry/backoff supervisor.
//!
//! This crate holds the routing and forwarding decisions, all verified;
//! sockets, the async runtime and configuration files stay with the caller,
//! which feeds chunks, dial results and declarations in as plain values.

pub mod conf;
pub mod config;
pub mod downstream;
pub mod errors;
pub mod helpers;
pub mod loader;
pub mod router;
pub mod routes;
pub mod upstream;
