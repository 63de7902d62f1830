# Contract conformance guard

Checks data-product responses against the field contract that governs them in
the catalog, and strips, reports or withholds what does not conform.

- `src/` is the library. Its functions state what they return in `requires` and
  `ensures` clauses, which Verus proves; `src/laws.rs` and the laws at the end of
  the other modules state what holds across functions.
- `app/` is the gateway policy around it: filters, HTTP calls and the shared
  store.
- `tests/` runs the library on concrete values.

What is believed without proof are the contracts of `serde_json` in
`src/json.rs` and of a few functions of the standard library in `src/text.rs` and
`src/timing.rs`. Each is described where it stands.
