# spanfall

A local-first OTLP trace store and viewer back end. Spans arrive over OTLP/gRPC (port 4317)
and OTLP/HTTP (port 4318, protobuf or JSON); a single writer applies them to an in-memory,
trace-partitioned store; a JSON read API on port 5317 serves trace lists, columnar trace
payloads, per-span attributes, a span filter language, receiver diagnostics and a change feed.

## Layout

- `src/` is the verified library (Verus). Every function carries a contract and is proved,
  except the thin trusted wrappers around outside calls (hash-map operations, `String::push`,
  protobuf and JSON decoding), whose contracts are assumed from those libraries.
  - `store/`: identifiers (`types`), the capped string interner, one trace's columnar
    storage with parent linkage and CSR attributes (`trace`), the store with budgeted,
    oldest-activity-first eviction, and the writer's batch step.
  - `ingest/`: the conversion of an OTLP request into a span batch, the shared
    accept-or-reject decision, the HTTP listener's decisions, the gRPC port's first-bytes
    check, and the receiver diagnostics (reject ring, arrival counts).
  - `api/`: trace lookup by hex id, trace summaries, the columnar payload with its string
    table, span attributes, the filter query language, the receiver panel, the change feed.
  - `demo`, `client`, `dump`, `port_conflict`, `cli`, `text`, `fxmap`: the demo trace set,
    reading a raw HTTP response into a JSON value, the `list` rows read from that value,
    naming a port's holder from `lsof` output, the command line as plain values,
    character-level text helpers, and the hash-map operations the store uses.
- `app/` is the executable around it: argument parsing, the listeners and their async
  plumbing, the writer task, JSON serialisation, the HTTP client, and the few filter
  comparisons that need floating point.
- `tests/` exercises the library from outside.
