//! Session state storage for horizontally scaled MCP servers: the in-memory
//! store, the configuration system, Redis key naming, and the decisions of the
//! SSE transport that do not touch the network.

pub mod model;
pub mod state_store;
pub mod transport;
