# RatClick

An auto-clicker for Linux desktops: a background service drives a virtual
mouse, and a global keyboard shortcut (a GNOME custom keybinding, a GNOME
Shell extension, or a keyd mapping) starts and stops it.

## Layout

- `src/` is the library, written in Verus. Every function in it carries a
  contract and is proved against it:
  - `accel` and `accel_laws`: keyboard accelerators in GTK and keyd notation,
    and what a rendering parses back to;
  - `config`: the settings file's model, defaults and clamping;
  - `engine`: the click scheduler, one step at a time;
  - `ipc`: the session-bus names and the status text;
  - `shortcut`: the three shortcut backends, conflict detection, and the
    laws of installing, reinstalling, reading back and removing;
  - `cli`, `setup`, `doctor`: what the command line, the terminal wizard and
    the installation check decide;
  - `window`, `first_run`, `bridge`: what the settings window, the first-run
    window and their bus thread decide;
  - `text`: the string operations the parsers share, with their meaning
    stated.
- `app/` is the `ratclick` program around it: argument parsing, files,
  `gsettings`, `keyd`, `systemctl`, the session bus and the virtual mouse.
  The service runs as `ratclick daemon run`.
- The GTK/libadwaita windows are not built here: `ratclick gui` starts a
  separately installed `ratclick-gui`. What those windows decide (the status
  area, the shortcut row, the capture dialog, the installation check, the
  first-run pages, the bus thread) is in `window`, `first_run`, `doctor` and
  `bridge`.
- `tests/` exercise the library on concrete values.
