# pulseon-viewer

The state and decision logic of a desktop viewer for training metrics,
written in Verus and proved against its contracts.

- `src/` — the verified library: Run, source and Metric identities; Run
  filters and selections; the per-panel read coordinator that splits a read
  by source and merges the answers; the background request queue and read
  admission count; curve-query decisions; the inspector table's order; the
  project sidebar and Metric picker; single-line text editing; screen budgets
  and the texts the viewer formats from integers.
- `app/` — plain Rust around it: reader threads and their channels,
  floating-point chart navigation, cell texts of floating-point values, and
  error types with `Display`.
- `tests/` — tests of the library's public functions.
