# tracegrep

jq-ish queries for JSON-lines and logfmt logs: a query such as
`level = "error" and msg ~ "timeout"` is parsed once, evaluated against each
parsed line (JSON lines, logfmt or plain text), and the matching records are
written as JSON objects, NDJSON, an aligned table, or a count.

The library under `src/` is verified with Verus; every public function has a
contract over mathematical models (sequences, maps and views of the types).

## Layout

- `src/text.rs`, `src/keyed.rs`, `src/float.rs` — characters and their
  encodings, sorted key/value listings, and binary64 values kept as their bit
  pattern and display text (the library computes with no floating-point value).
- `src/record.rs`, `src/value_order.rs` — records, field values and their
  equality and partial order.
- `src/parser/` — logfmt and JSON-line parsing, format detection, blank-line
  skipping and the command line's per-line error policy.
- `src/query/` — the query grammar (`syntax.rs`, as spec functions), the parser
  proved against it, evaluation and rendering.
- `src/output/` — count, JSON, NDJSON and table formatters, and level coloring;
  `src/sink.rs` records what is handed to a writer.
- `src/diagnostics.rs`, `src/exit_codes.rs`, `src/group.rs`, `src/cli.rs`,
  `src/follow.rs` — warnings and tallies, exit statuses, group counts, and the
  decisions of the command line and of follow mode.
- `src/laws.rs` — properties that relate several operations.
- `src/json_doc.rs` — the `serde_json` calls the library makes, with their
  contracts.
- `app/` — the command-line program: argument parsing, file and terminal I/O,
  the Tokio follow loop, and reading float text.

Floats enter the library through a reader supplied by the caller, which turns
float text into a `FloatRepr` (bits and display text); the program and the
tests pass one built on `str::parse::<f64>`.
