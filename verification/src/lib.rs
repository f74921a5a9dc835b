//! A verified core for a message-broker wire protocol ("MTP") and its
//! broker-side engine: frame codec, protocol error taxonomy, queue registry
//! with per-queue access control, publish routing, and the request/response
//! state machine that ties them together.
//!
//! Socket plumbing (connect/accept/read/write) lives outside this library;
//! the broker core consumes and produces plain byte frames and values.

pub mod errors;
pub mod protocol;
pub mod codec;
pub mod registry;
pub mod access;
pub mod router;
pub mod engine;
pub mod laws;
pub mod data;
