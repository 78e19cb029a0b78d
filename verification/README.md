# void_core

An event-driven host for WebAssembly plugins and the small messengers built
on it, written in Verus. The library's own functions carry contracts that
Verus proves. The calls into outside crates and into std that vstd does not
specify (AES-GCM, SHA-256, Base64, hex, the JSON parser, randomness, the
clock, UUIDs, channel sends) go through small `#[verifier::external_body]`
wrappers whose contracts are trusted, not proved; each names the outside
function it calls and what it claims of it.

## Layout

- `src/` — the verified library.
  - `json.rs`, `text.rs`, `codec.rs`, `framing.rs`, `str_map.rs`,
    `chat_log.rs`: the shared building blocks (a JSON document model with
    its compact text, string and UTF-8 helpers, Base64/hex/SHA-256, length
    framing, ordered string maps, per-key message logs).
  - `aead.rs`, `clock.rs`: AES-256-GCM, randomness, time and UUIDs.
  - `host/`: the plugin host — manifests, signing checks, the registry, the
    topic router, worker supervision with restart back-off, the dead-letter
    record, the hot-swap bookkeeping, the SSE decoder, the plugin table and
    the two event engines.
  - `messenger/`: the messenger core — its state, event queue and API.
  - `plugins/`: the decisions of the guest plugins (crypto, storage,
    transports over ntfy, dweetr and the file system, loggers).
  - `void/`: the peer-to-peer chat engine with its storage, crypto and
    transport parts.
- `tests/` — tests of the library.
- `app/` — the program around it: command-line hosts, the Wasm runtime
  glue, network and file I/O, and the foreign-function entry points.

Laws that relate several operations are public proof functions (`lemma_*`)
beside the functions they speak of.
