# move_clippy

A linter for Sui Move sources, with its rules, directives, registry and
fix machinery verified with Verus.

## Layout

- `src/` — the verified library.
  - `syntax` — a parsed file as a list of nodes in preorder (kind, field,
    byte range, points, parent, children), and the source text sliced by
    byte ranges.
  - `rules/` — the syntactic lints (`style`, `modernization`, `conventions`,
    `security`, `test_quality`) and their shared text patterns. Each rule
    states, node by node, which diagnostic it reports.
  - `annotations`, `context` — `allow` / `deny` / `expect` directives of
    modules and items, and the context that applies them to reports and
    reports unmet expectations. The context keeps its per-item caches in
    `HashMap`s keyed by byte offset.
  - `names`, `lint::LintSettings` — sets of lint names and configured
    levels, kept in vectors of distinct names.
  - `engine` — the rule registry (filters, tiers, aliases) and the engine
    that runs the rules over a file.
  - `fix`, `fixer` — text edits, applying fixes from diagnostics, unified
    diffs.
  - `parser` — masking of directive lines before parsing.
  - `laws` — properties that relate several operations.
  - `cross_module` — the call graph of a compiled package, given as plain
    facts per function (its calls and the abilities of its signature), with
    transitive callers and callees (in ascending key order), and the
    cross-module lints over it. The call lists are kept in ascending order
    of the calling function's key.
  - `absint`, `flow_lints` — the value lattices of the abstract-interpretation
    lints, their descriptors, and the lookup by diagnostic code.
  - `error` — the library's error kinds and their messages.
  - `catalog` — the cells of the generated lint reference tables.
  - `cli`, `config` — the command line's and the configuration file's
    options as plain values.
- `app/` — the `move-clippy` program: argument parsing, file I/O, the
  configuration file, and the tree-sitter parse that produces the node list.
- `tests/` — tests of the library.
