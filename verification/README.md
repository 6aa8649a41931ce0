# slim_core

The core of a coding agent, written in Rust and verified with Verus. It asks
providers and reads their streams, keeps a session's context within the window
of its model, and keeps tools, processes, questions and child agents within
their bounds.

## Layout

- `src/` is the library. Every function states what it returns or changes over
  mathematical models of its data, and Verus proves it.
  - `text`, `json`, `url`, `hash`, `arith`: texts and their bytes, JSON trees,
    URLs, digests and saturating sums.
  - `provider/`: configurations, requests for two wire formats, their
    fingerprints and cache keys, answers read chunk by chunk, redaction of
    credentials, the response cache, and reasoning that is switched off. The
    vendor's brand in model names and headers is handed in with the adapter.
  - `context/`: token estimates, which part of a conversation a compaction
    keeps, checkpoints and their sections, transcripts that can be read back,
    and the pruning of stale tool calls.
  - `mcp/`: JSON-RPC messages, framing, tool lists, and which server has which
    connection.
  - `process/`: what is kept of a pipe, when a run ends, and where programs are.
  - `agents/`, `interaction`, `model`, `events`, `codeintel`, `profiles`,
    `protocol`, `runtime`: child agents, questions to the user, the event queue
    and the ledger.
- `app/` does what reaches outside: HTTP, processes, pipes, files, threads and
  channels. It asks the library what to do and hands back what happened. Its
  `wire` module holds the types that are written to sessions.
- `tests/` runs the library.

## Laws

Public proof functions whose names begin with `law_` state what holds across
calls: that credentials do not reach a shown text or the one who runs tools, that
the chunks in which a stream arrives do not matter, that a kept answer is given
again, that a compacted conversation has its calls and results in pairs, and
others. Each has the law in words above it.

## What is trusted

JSON is read and written by `serde_json`, URLs by `reqwest`'s URL type, digests by
`sha2` and dates by `httpdate`. Of std, these are taken on trust: pushing a character
to a `String`, the equality of texts, reading bytes as UTF-8, strictly and with
replacement characters, and that a `String` or a `Vec` has room for what it holds. Each call stands behind a small function marked
`external_body` or has an `assume_specification`, whose contract says what is taken
from outside.

Times are nanoseconds in a `u128`, or milliseconds where a type says so. The
state that several threads share is a plain value here; `app/` holds the locks.
