# clipvault

A local clipboard history: copied text, links and images are kept with where
they were copied from, searched, cleaned up by age and count, and put back on
the clipboard.

- `src/` is the verified library (Verus): text handling (`text`), settings and
  entry types (`models`), where a copy came from and which sources are never
  recorded (`source`), hashing and entries made from clipboard content
  (`clipboard`), and the history's search, saving and cleanup rules (`store`).
- `app/` is the desktop application around it: SQLite storage, the system
  clipboard, macOS scripting and the Tauri window shell.
- `tests/` exercises the library with the real outside crates.
