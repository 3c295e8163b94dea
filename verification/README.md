# yoinker

A clipboard history manager for Linux: a daemon that watches the clipboard
and keeps a history of texts and images, and a command line with a terminal
picker to search, pin, tag, copy back and delete entries.

- `src/` is the library, verified with Verus:
  - `entry` — entries, their previews, content hashes and sizes;
  - `history` — the history store (newest first, duplicates moved to the
    front, only the newest unpinned entries kept) and its laws;
  - `protocol` — the daemon's requests and replies;
  - `picker`, `gui` — the listing order and key handling of the terminal and
    graphical pickers;
  - `capture`, `clock`, `daemonctl`, `config`, `paths`, `text` — what the
    watcher takes in and when it polls, reconnects and backs off, entry ages, daemon control decisions, configuration,
    paths and string helpers.
- `app/` holds the programs around it: the daemon (socket server, clipboard
  watcher, history file) and the command line with its terminal picker.
- `tests/` runs the library on concrete values.
