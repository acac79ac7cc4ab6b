//! A path-routing HTTP/1.1 reverse proxy core: the routing table, the
//! request/response frame parser, the streaming copier and the per-connection
//! bridge state machine.

pub mod config;
pub mod frame;
pub mod copy;
pub mod response;
pub mod bridge;
pub mod util;
