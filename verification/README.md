# convergio_longrunning

The long-running execution protocol of Convergio: heartbeat monitoring,
checkpoints, budget guards, progress streaming and delegation chains.

- `src/` is the verified library. It holds the protocol's decisions, each
  with a contract proved by Verus:
  - `types`: execution stages, their stored names, execution-id validation
    and the protocol's refusals;
  - `heartbeat`: what a registration stores, what a beat on an unknown
    execution answers, which heartbeats are stale (more than three intervals
    without a beat);
  - `delegation`: direct children, descendants, the death cascade and the
    delegation tree, built to at most 64 levels whatever the links hold;
  - `reaper`: which executions a reaper cycle marks as reaped (the stale ones
    and all their non-terminal descendants), what it reports and which
    heartbeats it removes;
  - `routes`: the HTTP status and body answered for each kind of failure;
  - `ext`: the health verdict;
  - `mcp_defs`: the served routes and the MCP tool table, each tool naming a
    served route, with its path parameters and required fields.
- `app/` wires the library to SQLite (rusqlite/r2d2), the HTTP API (axum),
  the event bus, the background reaper (tokio) and the extension interface.
  Budget arithmetic (floating-point USD), checkpoint JSON and the rendering
  of the tool table as JSON schemas live there too.
- `tests/` exercises the library on concrete snapshots.
