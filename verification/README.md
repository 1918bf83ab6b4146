# simplecommander

The logic of a dual-pane file manager, written in Verus and proved against
its contracts: file-list sorting and filtering, the search query language,
tab and pane state with history, the undo journal, the operation queue's
scheduling, clipboard and index wire formats, batch rename, zip folders,
keyboard shortcuts (which command each fires, and when typing or an open
overlay holds them back), sessions, the SHA-256 column, and the
interface's decisions (what a drop, a row click, an Enter, a typed name or
a folder-compare button does).

- `src/` — the verified library. Each module starts with a line saying what
  it holds. Public proof functions named `law_*` state properties that span
  several operations (undo then redo, back then forward, a session saved and
  restored, and so on).
- `tests/` — tests that run the compiled library on concrete values.
- `app/` — a small command-line front end: it reads folders, zip archives,
  files and `settings.toml` from disk and hands plain values to the
  library. The window front end is not part of this build; `app/keys.rs`
  shows how a window reads its keys for `shortcuts::key_commands`.
