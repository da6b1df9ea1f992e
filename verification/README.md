# dk_engine

The engine behind isolated agent sessions on a shared code repository:
per-session file overlays and semantic graphs, symbol-level claims and
locks, changesets and their state machine, three-way symbol-level merging,
language-aware parsing of source files into symbols, calls and imports, and
the tool operations agents call.

## Layout

- `src/` is the library, verified with Verus. Every rule of the engine lives
  here with its contract: the overlay and session graph with their
  read-after-write laws, the claim tracker and its lock exclusivity, the
  lock-key layout of the shared claim store, the changeset state machine, the
  AST merge and the rebase of a workspace onto a moved head, the parsers'
  rules over a plain syntax tree, and the helpers behind each tool operation.
  Calls into outside crates (hashing, UUIDs, concurrent maps, the clock)
  stand behind small trusted wrappers whose contracts say what those crates
  document.
- `tests/` runs the library on concrete values.
- `app/` is the unverified shell around it: reading the grammars' query files,
  PostgreSQL stores, git through gix, the tantivy search index, the
  Valkey-backed cache and claim store, the event bus, and the asynchronous
  workspace manager and engine that perform the I/O the library's decisions
  call for.

## Languages

Files are parsed by extension: Rust (`rs`), Python (`py`), Go (`go`), Java
(`java`), TypeScript and JavaScript (`ts`, `tsx`, `js`, `jsx`), Scala
(`scala`, `sc`), Haskell (`hs`), Julia (`jl`), Bash (`sh`, `bash`) and Kotlin
(`kt`, `kts`). C++, C#, Ruby, PHP and Swift are not supported: the library
has neither grammars nor language rules for them, so their files are
reported as `UnsupportedLanguage` and merged byte by byte.

Each language's queries (`<language>_symbols.scm`, `_calls.scm`,
`_imports.scm`) are read at start-up from the `queries` directory of the
storage path; a missing file is an empty query.
