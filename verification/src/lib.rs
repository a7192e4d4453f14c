//! Long-running execution protocol: stage bookkeeping, execution-id
//! validation, heartbeat staleness, the reaper's and the delegation
//! cascade's decisions, how errors are answered over HTTP, and the MCP
//! tools with the routes they call.

pub mod types;
pub mod heartbeat;
pub mod delegation;
pub mod reaper;
pub mod routes;
pub mod ext;
pub mod mcp_defs;
