# tellme

Git blame, but for prompts and decisions: `tellme` records the prompt behind
each change and the decision that justifies it, anchors both to lines at the
commit where they landed, and answers `tellme why <file> #lineN` from git's
own line history.

## Layout

- `src/` — the library, verified with Verus. Every public function carries a
  contract; the properties the project promises as a whole (hook installation
  is idempotent and undone by uninstallation, merging agent settings keeps
  unrelated settings, a line's history runs oldest first, capture never drops
  an edit, …) are public `law_*` proof functions next to the code they speak
  of.
  - `lineref`, `paths`, `capture`, `reconcile`, `blame`, `journey`, `graph`,
    `analysis`, `tui`, `store`, `config`, `cli`: the project's logic.
  - `commands`: what each command decides and prints, as pure functions.
  - `json`, `text`, `order`: plain-value JSON, string and ordering helpers.
- `app/` — the `tellme` program: clap parsing, SQLite through rusqlite, git
  through libgit2, the terminal UI through ratatui, and file I/O. It asks the
  library what to do and performs it.
- `tests/` — tests of the library's public API.

Calls into outside crates (tree-sitter, petgraph, sha2, and a few `str`
methods) go through small trusted wrappers whose contracts say what the
library relies on.
