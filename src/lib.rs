//! Batched translation of timed subtitle lines through a remote translation
//! service: the wire types, the per-line client decisions and the chunked
//! dispatcher that drives the whole run.

pub mod api_types;
pub mod client;
pub mod dispatch;
