# sway-tab

History-aware Alt+Tab daemon for Sway WM, with its decisions verified in Verus.

## What it does

- Maintains a history of recently focused windows.
- On first `Alt+Tab`, switches to the last active window; further presses cycle
  through the whole history and around its end.
- The previewed window is committed (promoted to most-recent) after a quiet
  timeout (`--timeout`), or as soon as the focus moves some other way.
- On clean shutdown it removes the bindings it made.

Installed under the name `sway-rust-alttab`, the program is a minimal daemon
with a bounded history and a fixed timeout.

## Layout

- `src/` is the verified library:
  - `recency`: sequences of windows ordered by recency
  - `state`, `state_laws`: the history, the cycle, and what they promise
  - `timer`: the commit timer
  - `daemon`: signals and window events
  - `tree`: the windows of sway's container tree
  - `commands`, `text`: requests to sway, replies, and numbers as text
  - `options`: the command line
  - `alttab`: the minimal daemon
- `app/` is the program around it: connections, threads, signals and the clock.
- `tests/` runs the library.

A window that closes during a cycle leaves the cycle on the previewed window,
so that this is the window that is committed, whatever happened since the start
(`state_laws::law_previewed_window_is_committed`). Closing the previewed window
itself ends the cycle.
