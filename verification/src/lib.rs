//! Upload and deduplication manager for a file-hosting service.
//!
//! The crate holds the decisions of the service and none of its I/O: chunked
//! uploads are assembled in memory, and every operation that touches the
//! metadata index or the content store is a small state machine that asks its
//! host to perform one request at a time and is told the reply.

pub mod error;
pub mod chunk;
pub mod ident;
pub mod sessions;
pub mod manager;
pub mod protocol;
pub mod upload;
pub mod deletion;
pub mod listing;
pub mod model;
pub mod consistency;
pub mod inbound;
