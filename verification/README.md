# antigravity_sdk

An agent SDK that drives the `localharness` runtime: it starts the runtime,
exchanges a small protobuf handshake with it, and then talks to it over a
WebSocket in JSON events, applying tool-call policies and lifecycle hooks on
the way.

The crate is in two parts.

- `src/` is the library, written in Verus and verified. It holds the
  decisions of the SDK, each with a contract:
  - `proto` — the startup handshake codec (varints, `InputConfig`,
    `OutputConfig`), with the round-trip laws of the varint encoding;
  - `json` — the JSON values carried by tool calls and results;
  - `types` — the domain types and their wire names and tags;
  - `policy` and `path` — the policy engine (priority tiers, conditions,
    answers) and path containment for workspace-only policies;
  - `hooks` and `keyed` — hook results, the scoped context stores and the
    rules by which a chain of hooks is dispatched;
  - `conversation` — history, turn and compaction markers, usage totals, and
    the chunks a streamed answer is made of;
  - `connection` — how step updates become steps, how paths on the wire are
    read, what confirmation, question and custom-tool requests are answered,
    the configuration sent at start-up, and when the agent is idle.
- `app/` is ordinary Rust around the library: the process and WebSocket I/O,
  the async tasks, the hook traits and their runner, the serde shapes of the
  wire events, and the high-level `Agent`.

`tests/` exercises the library on concrete values.
