# kt_resolver

The symbol-resolution and completion core of a Kotlin/Java/Swift language
server, written in Verus: every function in `src/` carries a contract that
Verus proves.

## Layout

- `src/` — the verified library.
  - `types.rs`: symbols, imports, files, positions; `interning.rs`: URI and
    JAR-path interning tables.
  - `resolve.rs`: the resolution chain as a step planner (`chain_start`,
    `chain_after`) and its laws; local lookup, Swift preference, auto-import
    candidates.
  - `find.rs`, `package_scope.rs`, `imports.rs`, `scope_check.rs`,
    `qualified.rs`, `receiver_calls.rs`, `hierarchy.rs`, `tie_break.rs`:
    finding a name in a file, a package, through imports, on a receiver
    type, along the supertype chain, and choosing among ambiguous
    candidates.
  - `infer.rs`, `infer_lines.rs`, `cst.rs`: type strings, generic
    substitution, declared types from source lines and from the syntax tree,
    `when` smart casts.
  - `completion.rs`, `completion_items.rs`, `bare_completion.rs`,
    `cross_package.rs`, `extensions.rs`, `members.rs`, `ranking.rs`:
    completion candidates, items, deduplication, ordering and capping.
  - `text.rs`, `segments.rs`, `platform.rs`, `rg.rs`, `throttle.rs`:
    character and string helpers, platform packages, text-search hits,
    warning budgets.
- `tests/` — tests of the library.
- `app/` — plain Rust around the library: conversions to LSP types and
  tree-sitter nodes, serde copies of library types, the JAR-indexer sidecar
  process, the driver of the resolution chain, file-system probes, and the
  interning tables behind locks for sharing between threads.

Calls into outside crates (`dashmap`, `url` through `tower-lsp`, std's
Unicode character classes) go through small trusted wrappers whose contracts
state what those crates document.
