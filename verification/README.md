# DeskTrace

A local-first desktop time machine: on a hotkey or a tray click it records the
running applications, the clipboard text, a screenshot of every monitor and,
when the browser extension pushed them, the open tabs; later it can restore a
snapshot by starting the executables again and reopening the pages. It listens
on `127.0.0.1:8741` only.

## Layout

- `src/` is the library, verified with Verus. Every rule lives here, with its
  contract:
  - `tabs`: which pushed tabs are kept (`http`/`https` with a host, trimmed,
    deduplicated, at most 80, titles at most 300 characters, addresses at most
    2000).
  - `capture`: which processes a snapshot lists, what it keeps of the
    clipboard, and how monitor captures are checked and stitched into one
    canvas.
  - `store`: the snapshot record, the search over stored snapshots and the
    120-second freshness of the pushed tab list.
  - `restore`: which executables and pages a restore starts, and its report.
  - `server`, `status`, `tray`, `autostart`: what a capture records and
    reports, which requests the loopback server accepts, the tray's texts and
    choices, the hotkey search, and the startup entries.
  - `text`: the string operations the rules are written with.
- `tests/` runs the library on concrete values.
- `app/` is the program around the library: the SQLite database, the files,
  the process list, the clipboard, the screens, the HTTP server and the tray.
  It reads the machine, hands plain values to the library and performs what the
  library decides.
