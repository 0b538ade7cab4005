# SnapPaste core

A clipboard history tool whose logic is written in Verus and proved
against its specifications.

- `src/` — the verified library:
  - `store.rs`: the history store (records, settings, window sizes), its
    listing order, paging, search, duplicate merging, retention and
    favourite import; `queries.rs` wraps it in the application's calls.
  - `properties.rs`: proved properties of the store (listing order, stable
    paging, one copy per duplicate, import results, clearing).
  - `processor.rs`, `monitor.rs`: the clipboard watcher's decisions.
  - `image.rs`: image scaling for storage and PNG coding.
  - `settings.rs`, `services.rs`, `hotkeys.rs`, `autostart.rs`: settings
    checks, how edited settings are applied, the requests made to the
    system's hotkey service, and the start-at-login steps (the host's step
    wrapped in `AutostartSync`, which records what it was asked); `shortcut.rs`
    holds a parsed hotkey with its id and makes every request to the
    hotkey service.
  - `transfer.rs`: favourites export and import packages.
  - `ui.rs`, `window.rs`: what the list window shows and when it hides.
  - `url.rs`, `ai.rs`, `rows.rs`, `shell.rs`, `text.rs`, `clock.rs`: links,
    AI requests, stored words, theme and selection choices, text helpers
    and time.
- `tests/` — tests of the library on concrete values.
- `app/` — a command-line host: SQLite storage, clipboard access, key
  presses, HTTP, file import and export, and the Windows registry and
  focused-window reads (`platform.rs`).
