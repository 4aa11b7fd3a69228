# aster_analysis

Static analysis of Lua projects, verified with Verus: the `require` graph of
a project, the resolution of module names to files, Lua-specific checks
(sequence misuse, multiple returns, unknown members, performance
suggestions), and an inspector that explains how a member access resolves
through class tables, constructors, metatables and `__index` chains.

## Layout

- `src/` — the verified library. The library's own functions state their
  results in `ensures` over spec functions and views; laws that relate
  several functions are public proof functions (`lemma_*`). What comes from
  outside is trusted, not proved: the parser's output is named and only
  converted (`parse.rs`), the graph's contents follow `petgraph`'s source
  (`graph.rs`), and which files exist is the file system's answer, so module
  resolution is stated up to those answers (`resolve.rs`).
  - `syntax.rs` — the Lua syntax model the analyses read, and the order in
    which a walk meets its nodes; `parse.rs` — Lua text to that model,
    through `full_moon`'s parser behind trusted wrappers.
  - `require_sites.rs`, `resolve.rs`, `graph.rs`, `project.rs` — require
    calls, module resolution, the module graph (a `petgraph` graph behind
    trusted wrappers) and the project-wide `check`, `explain` and `analyze`.
  - `sequence.rs`, `multi_return.rs`, `arity.rs`, `members.rs`,
    `performance.rs` — the checks; `exports.rs`, `shapes.rs`, `bindings.rs`, `classes.rs`,
    `explain.rs`, `lookup.rs` — module shapes and the member inspector.
  - `order.rs`, `render.rs` — sort orders and the analyzer's text output;
    `requests.rs` — naming a file by its relative or its root-joined path.
  - `outline.rs`, `workspace.rs` — editor-side logic: class outlines of
    files, recent projects, the file tree order, runtime detection and run
    reports, snippet validation.
  - `text.rs`, `assoc.rs`, `diagnostic.rs` — strings, association lists,
    diagnostics.
- `app/` — the `aster` command line: argument parsing, file discovery,
  reading files, JSON output.
- `tests/` — tests of the library on Lua sources.
