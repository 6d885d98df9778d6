//! Verified core of an HTTP testing service that bridges plain HTTP
//! requests onto a simulated persistent-connection model.
//!
//! The library covers the logic of the service: framing and parsing of the
//! WebSocket-over-HTTP event protocol, construction of GRIP hold-control
//! responses, the per-request realtime session state machine, request
//! routing, chunking for deliberately slowed ("tarpit") delivery, and the
//! small parsing helpers of the plain testing endpoints.  All I/O — the
//! HTTP plumbing, key/value store and geolocation lookups — lives outside
//! the library, which speaks only in plain values: byte vectors, strings
//! and the types defined here.

pub mod bytestr;
pub mod codec;
pub mod endpoints;
pub mod grip;
pub mod hex;
pub mod http;
pub mod router;
pub mod session;
pub mod tarpit;
