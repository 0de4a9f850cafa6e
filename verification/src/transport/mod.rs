//! Transports.

pub mod sse_server;
