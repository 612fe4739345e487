//! Verified core of a telemetry pipeline: a payload decoder that turns
//! JSON bytes, however presented, into structured sensor records, an
//! in-process broadcast hub
//! that fans raw payloads out to viewer sessions with bounded, lossy
//! buffering, the ingest step that ties the two together, and the mapping
//! from a decoded record to a flat storage row.

pub mod codec;
pub mod ingest;
pub mod hub;
pub mod lex;
pub mod models;
pub mod relaxed;
pub mod session;
pub mod store;
