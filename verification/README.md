# sealrun

Deterministic run records for command executions: capture a command into a
record with a content-addressed run id and a fixed event timeline, diff two
records field by field, project a record onto a causal graph and query it, and
keep tenant, retention, RBAC and governance state for enterprise deployments.

The library in `src/` is verified with Verus. Each public function states its
result in its contract; where the result rests on something outside the library
(the clock a capture is stamped by, the outcome of running a process, SHA-256
digests), the contract states it in terms of that outside value; the JSON text
`serde_json` writes is stated exactly. `src/laws.rs` and `src/sorting.rs` hold
the properties that span several calls: a run diffed with itself, diffs taken
the other way round (the same fields with their values exchanged), the shape of
every captured timeline, captures stamped by a fixed clock, replay, event-stream
round trips, role checks after an assignment, capsule replay after registration,
retention read back, where causal graphs diverge, that a missing final newline
shows in the rendering, the evaluation as a function of its inputs, the role
hierarchy, and the sort (ordered, a permutation, stable).

- `src/` — the verified library (capture, diff, causal graph and queries,
  output formatting, event store, self-evaluation, enterprise rules).
- `tests/` — tests of the library on concrete values.
- `app/` — the `sealrun` command line: argument parsing, files, processes,
  the kernel library, HTTP sinks and the OIDC device flow.
