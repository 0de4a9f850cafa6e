# rmcp state store

Session state for MCP servers that run as several instances behind a load
balancer.

- `src/` is the verified library (Verus): the in-memory state store and its
  abstract model (`state_store::memory`), the laws that relate its operations
  (`state_store::laws`), the configuration system (`state_store::config`), the
  Redis key naming and command arithmetic (`state_store::redis_backend`), what
  the Redis store makes of the replies to its commands, from hash fields and
  cached lists to session discovery and instance health
  (`state_store::redis_replies`), and the decisions of the SSE transport
  (`transport::sse_server`).
- `app/` is the asynchronous side: the `StateStore` trait, a store shared between
  tasks, the Redis commands, and the axum SSE server.
- `tests/` runs the library on concrete values.
