//! A verified core for a minimal HTTP/1.1 server: request parsing,
//! a case-insensitive header table, response serialization, and a
//! first-match-wins router with `:param` path patterns.
//!
//! The surrounding process (TCP accept loop, per-connection threads,
//! file-system access) drives this library with plain values; every
//! function here is verified.

pub mod error;
pub mod http_headers;
pub mod http_request;
pub mod http_response;
pub mod router;
pub mod strutil;
