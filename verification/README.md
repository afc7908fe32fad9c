# git-atomic

Split multi-component commits into isolated per-component branches.

`git-atomic` reads an `.atomic.toml` configuration of components (each a list of
glob patterns, first match wins) and, for a commit or a range of commits, writes one
commit per component holding only that component's files, on a branch of its own.

## Layout

- `src/` — the library, verified with Verus:
  - `domain/` — ref-spec parsing, errors and exit codes, component matching
    (globs compiled and matched by `globset`), and the side effects commands plan;
  - `config/` — configuration types, validation, and the resolution of layered
    settings with their provenance;
  - `git/` — branch naming and branch-state decisions, commit messages, the planning
    of a split, and the commit-range walk (a state machine driven from outside);
  - `cli/` — arguments, the decisions of each command, and the layout of the output
    (colors by `owo-colors`).
- `app/` — the `git-atomic` program: argument parsing (`clap`), reading the
  configuration (`toml`, `figment`), the repository (`gix`), running `git push`, and
  printing (JSON by `serde_json`).
- `tests/` — tests of the library.
