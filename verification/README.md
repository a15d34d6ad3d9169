# jsonmodem

A streaming JSON parser written in Verus. Text is fed in chunks; the parser
emits events (`ObjectBegin`, `ArrayStart`, scalars, string fragments, ...)
as soon as they are known, without building composite values. Adapters
coalesce string fragments and classify container transitions.

## Layout

- `src/parser.rs` — the streaming parser (`StreamingParser`,
  `ClosedStreamingParser`): lexer and grammar state machine, with its
  invariants and the laws stated on `next`.
- `src/scanner.rs` — an incremental UTF-8 byte scanner.
- `src/grammar.rs`, `src/string_decode.rs`, `src/nesting.rs`,
  `src/lexical.rs` — the specifications that the contracts are written in:
  the accepted language as a character automaton, string bodies, bracket
  nesting, whitespace, numbers and positions.
- `src/buffers.rs` — the string-buffering adapter.
- `src/transition.rs`, `src/path_ctx.rs`, `src/decode.rs`, `src/values.rs` —
  backend-independent pieces of value building.
- `src/string_ranges.rs`, `src/path_pattern.rs`, `src/escape.rs` — byte-level
  scanning of string ranges, path patterns, and string escaping.
- `tests/` — scenario tests.
- `app/` — serde views of events and the text-level entry points.
