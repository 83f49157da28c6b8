# ank_kernel

The Aegis Neural Kernel (ANK): an operating-system-like kernel for language
model processes. A process control block carries an instruction, context
references and registers; a scheduler hands the "processor" to the ready
process of highest priority; a context manager builds each process's
prompt window within a token budget; models ask the kernel for work through
syscalls written in their output; plugins run as WebAssembly modules in a
per-tenant sandbox behind a network guard; tenants are known to the outside
only by an HMAC-derived public alias.

The library in `src/` is written in Verus: every function states its
behaviour in `requires`/`ensures` contracts over mathematical models, and the
properties that span functions are proved as `law_*` proof functions.

## Layout

- `src/text.rs`, `src/json.rs`, `src/ids.rs` — strings as character
  sequences, JSON documents, identifiers.
- `src/scheduler.rs` — process control blocks and the scheduler's decisions.
- `src/syscalls.rs` — the syscall grammar, the stream interceptor, and the
  planning of syscall work.
- `src/vcm.rs`, `src/paths.rs` — context windows step by step, workspace
  path audit, the memory store's paths.
- `src/chal.rs` — drivers, routing policy and the master prompt.
- `src/plugins.rs`, `src/std_plugins.rs` — the plugin manager, plugin inputs,
  the network guard, and the standard plugins' logic.
- `src/citadel.rs`, `src/server.rs` — tenant aliases, redaction, password
  hashing, and the decisions of each kernel call.
- `src/siren.rs`, `src/swarm.rs` — the voice channel and process migration.
- `app/` — the program around the library: I/O, databases, the WebAssembly
  runtime, async loops.
- `tests/` — tests of the library.

Trusted items (calls into `serde_json`, `hmac`, `sha2`, `base64`, `uuid`,
`chrono`, `reqwest`'s URL parser, `wasmtime`, `webrtc-vad` and a few std
functions) are the
`#[verifier::external_body]` functions and declared external types; each says
in its doc comment what its contract claims.
