# nt

`nt` is a context-aware terminal notes tool: notes are scoped to the git repository (or
directory) you are in, carry inline `#tags`, can be searched with fuzzy matching, and can be
viewed across all scopes. Each scope's notes are stored as pretty-printed JSON in
`<data dir>/nt/notes/<scope>.json`.

## Layout

- `src/` — the library, verified with Verus:
  - `text.rs`: the character and string operations used (trimming, lowercasing, membership);
  - `model.rs`: notes and tag extraction;
  - `scope.rs`: scope detection and scope-name sanitizing;
  - `search.rs`: fuzzy matching of notes against a query and their ranking;
  - `app.rs`: the application state and every operation on it, with the laws that relate them;
  - `event.rs`: which key does what in each mode;
  - `display.rs`: titles, counts, key hints and due-date highlighting;
  - `storage.rs`: scope file names and which scopes a save writes.
- `app/` — the terminal program: arguments, terminal setup, drawing, file access and the
  event loop.
- `tests/` — tests of the library.

## Keybindings

| Mode | Key | Action |
| --- | --- | --- |
| Normal | `j` / Down, `k` / Up | Move the selection |
| Normal | `a`, `e` | Add, edit a note |
| Normal | `v` | Mark / unmark for bulk actions |
| Normal | space / `d` | Toggle done |
| Normal | `x` | Delete |
| Normal | `/` | Search |
| Normal | `g` | Toggle the global view |
| Normal | `q` / Esc | Quit |
| Adding, Editing | Enter / Esc | Save / cancel |
| Searching | Enter / Esc | Apply / clear |
| Confirm | `y`, Enter / `n`, Esc | Confirm / cancel deletion |
