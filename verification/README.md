# norma

norma validates source code against registered design-pattern and
code-quality rules. A rule is a complete ast-grep `RuleConfig` YAML for one
language; norma stores rules in a SQLite registry, checks files against
them from the command line (`norma validate`, with `--fix` to apply the
rules' fixes), bulk-imports rule directories (`norma import`), and serves
the same operations as MCP tools on stdio (`norma serve`).

## Layout

- `src/` is the library, verified with Verus. Each public function states
  what it returns in its `ensures`; the laws that relate several functions
  are public proof functions.
  - `models.rs`: severities, patterns, violations, scores, fix results.
  - `pattern_engine.rs`: language keys, rule parsing and the registration
    checks, validation of code against patterns, dry runs of a rule.
  - `fixes.rs`: applying the patterns' fixes (outermost matches only,
    overlapping fixes of different patterns set aside as conflicts).
  - `pattern_store.rs`: what registering, importing and seeding store or
    skip, and how a stored row reads back.
  - `cli.rs`: the grammar of the command line, the printed reports, the
    exit status, the directory import and the database location.
  - `mcp.rs`: the MCP tools' parameters and how a refused call is answered.
  - `default_patterns.rs`: the shipped rule set.
  - `timestamps.rs`: timestamps as the RFC 3339 text the database stores.
  - The trusted boundary: `ast_grep.rs` (ast-grep), `stdlib.rs` (the
    standard library), `timestamps.rs` (chrono) and the serde_yaml wrapper
    `yaml_documents` in `pattern_store.rs`. Each trusted item says in its
    doc comment which function it calls and what its contract claims.
  - `text.rs`, `error.rs`: string helpers and the engine's errors.
- `tests/` runs the library on concrete inputs, with the real ast-grep;
  `tests/clap_agreement.rs` reads a set of command lines with both the
  library's grammar and clap.
- `app/` is the program: argument help through clap, the SQLite store
  (sqlx), the MCP server (rmcp), JSON output (serde) and the file system.

A score is kept as the exact ratio `1 - deducted / out_of`; the program
prints its floating-point value.
