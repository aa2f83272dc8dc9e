# candi

The reading core of Candi, a minimal keyboard-first document reader, as a
Verus library: every function in `src/` carries a `requires`/`ensures`
contract that Verus proves, and the properties that span several functions
are stated and proved as `law_*` proof functions.

## Layout

- `src/` — the verified library.
  - `navigation` — page and scroll position, clamped to the document.
  - `state`, `session` — sidecar files next to each PDF: the v1 reading
    position and the v2 reading session (zoom, theme, bookmarks), how a
    parsed TOML document becomes a load outcome, and the documents a save
    writes (which read back as what was saved).
  - `prefs` — app configuration and the recent-documents list.
  - `search` — lazy, page-at-a-time case-insensitive search over a
    document, with wrap-around stepping.
  - `pdf`, `backend` — the error taxonomy, rendered page images, backend
    selection, the scriptable stub backend, the open-time text-layer check
    and the mapping of engine and file-system failures onto error kinds.
  - `color`, `theme`, `recolor`, `retint` — theme colors, built-in themes,
    page recoloring onto a theme's page colors, and accent retinting.
  - `keybinds`, `json` — key strings, bindings, the keybinds file with its
    schema migration, and the JSON values it is read from and written to.
  - `cache`, `render`, `layout` — the byte-budgeted LRU bitmap cache and
    render-request coalescing.
  - `sidebar`, `toc`, `chrome` — search snippets, the contents outline and
    its active row, and the GUI's pure decisions (page jumps, toasts,
    render retry backoff, repaint scheduling).
  - `strings`, `text` — string helpers and reader-text normalization.
- `tests/` — tests of the library's behaviour on concrete inputs.
- `app/` — the command-line program and the file side of the library:
  reading and atomically writing sidecars, the configuration and the
  keybinds file, and parsing YAML theme files.
