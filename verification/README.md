# codex-plus-core

The core logic of the Codex++ companion, with its behaviour stated in
`requires`/`ensures` contracts and proved by Verus.

## Layout

- `src/` — the verified library.
  - `text.rs`: the character-level string model (trimming, splitting, lines,
    decimal text) that the other modules state their contracts in.
  - `json.rs`: a JSON value model (`Json`) and its view (`JsonValue`), with
    lookups and builders.
  - `codec.rs`: JSON text and bytes as `serde_json` reads and prints them, and
    lossy UTF-8 decoding, behind named results.
  - `update.rs`: version tags and their order, platform-aware release asset
    selection, release manifests, `/etc/os-release` classification and safe
    asset file names.
  - `ports.rs`: loopback port selection, the single-instance guard and helper
    listener fallback rules (bind, lock and connect come in as closures), guard
    ports from environment values, and the exhaustion message.
  - `desktop.rs`: Linux desktop entries and where to look for them.
  - `repair.rs`: the local project assignment repair — path normalisation,
    rollout scanning, planning, re-checking against the current state,
    applying, and the write, read-back, check and restore of the repaired
    state as a step function, with laws on what an application preserves.
  - `anthropic.rs`: Responses ↔ Anthropic Messages conversion of requests,
    responses, usage, errors, endpoints and request headers.
  - `sse.rs`: the streaming converter as a state machine from bytes to framed
    events, with laws on terminal events, output indexes and argument deltas.
- `tests/` — tests against the library.
- `app/` — the runtime around it: files, sockets, lock files, environment
  variables, HTTP, installers, the clock, and the serde forms of the
  library's types.
