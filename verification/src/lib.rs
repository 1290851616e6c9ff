//! Core of a bridge that republishes UDP datagrams of the form `topic:payload`
//! onto a message broker.
//!
//! The crate holds the decisions of the bridge as verified functions on plain
//! values; sockets, the broker client and threads live with the caller.

pub mod config_utils;
pub mod text;
pub mod framing;
pub mod decoder;
pub mod dispatcher;
pub mod dispatch_trace;
pub mod receiver;
pub mod lifecycle;
