# pata

A local assistant for Rust repositories: it scans a workspace, retrieves the
files relevant to an objective, proposes a patch, reviews and checksums it,
applies it once approved, validates the result and keeps a long-term memory of
sessions, lessons and open loops. Persona agents (developer, teacher,
personal, small business) run goals through a verified reasoning pipeline.

## Layout

- `src/` is the library, verified with Verus: every function carries a
  `requires`/`ensures` contract over spec functions and views, and the laws of
  the library (read-after-write of the memory store, round trips of the stored
  patch, review, mission and fingerprint files, the calendar round trip, the
  ranking being a stable sort, termination of the validation and reasoning
  runs, ...) are public proof functions.
- `tests/` exercises the library on concrete values.
- `app/` is the `pata` command: argument handling, files, git and cargo
  processes, the Ollama client and the async runtime. It hands plain values to
  the library and prints what comes back.

## Commands

`pata [--low-power] [--verbose] <command>` with `scan`, `retrieve`, `plan`,
`patch`, `review`, `approve`, `apply`, `validate`, `evals`, `status`,
`end-session`, `resume-session`, `memory ...`, `doctor`, `smoke-test`,
`multiverse`, `ast-fingerprint`, `analyze`, `agent <persona> <goal>`, `serve [config.toml]`, `personas`,
`eval-suite <suite.json> [config.toml] [output.json]`, `demo` and `tui`.

Environment: `PATA_MODEL`, `PATA_OLLAMA_ENDPOINT`, `PATA_OLLAMA_TIMEOUT_SEC`,
`PATA_OLLAMA_RETRIES`, `PATA_MAX_TOKENS`, `PATA_LOW_POWER`, `PATA_VERBOSE`.
