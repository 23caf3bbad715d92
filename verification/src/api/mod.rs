//! The read-side logic behind the JSON API: filtering, trace summaries and payloads, span
//! attributes, the receiver panel and the change feed.

pub mod attributes;
pub mod events;
pub mod filter;
pub mod receiver;
pub mod traces;
