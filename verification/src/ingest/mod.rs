//! Ingest: envelope conversion, the shared accept-or-reject decision, the listeners' wire
//! decisions, and the receiver diagnostics they feed.

pub mod convert;
pub mod grpc;
pub mod handler;
pub mod http;
pub mod receiver_state;
pub mod sniff;
