# hyprdie

Ends a Hyprland session gracefully: every window is asked to close, the session's
processes are sent `SIGTERM` (and `SIGKILL` after a timeout), an overlay lists what is still
open, and once nothing is left the post command runs and the compositor exits.

## Layout

- `src/` is the verified library:
  - `text.rs`: character-level helpers (search, trim, prefix, decimal numbers, words).
  - `cgroup.rs`: reading `/proc/<pid>/cgroup` text.
  - `procs.rs`: finding the session's processes, by cgroup or by the parent links of
    `/proc/<pid>/stat`, over a snapshot of `/proc`.
  - `color.rs`, `config.rs`, `cli.rs`: colors, configuration defaults and the command line.
  - `shutdown.rs`: the shutdown state: which windows and processes to close, the rounds of
    `SIGTERM`/`SIGKILL`, what a tick does and how the run ends.
  - `ui.rs`, `picture.rs`: the overlay's size, its lines of text, and its pixels.
  - `laws.rs`: properties that span several functions.
- `app/` is the program around it: the command line, the configuration file, `hyprctl`,
  `/proc`, signals, the Wayland overlay and text rendering.
- `tests/` runs the library on concrete values.
