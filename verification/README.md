# stoopid_logging

Structured JSON logging for services, written in Verus. Every event carries
`timestamp`, `level`, `message`, `service` and `version` at top level;
caller and span fields are nested under `context` (inner spans win, the
event's own fields win over both, `context` is left out when empty), and
trace correlation adds `trace_id` / `span_id` as W3C lowercase hex.

Layout:

- `src/` — the verified library: level, service-name and version resolution
  (`config`, `builder`), field recording (`fields`), event assembly
  (`layer`), timestamp normalization (`timestamp`), trace identifiers
  (`otel`) and character helpers (`text`).
- `app/` — the runtime around it: environment reading, the
  `tracing_subscriber::Layer` and `Visit` impls, global installation, and
  JSON serialization and writing of each event.
- `tests/` — tests of the library on concrete values.
