# olshell

The menu, application, icon, layout and pointer logic of an OPEN LOOK
style desktop shell, verified with Verus:

- `src/menu.rs` — the olwm-style root menu file (`~/.openwin-menu`): its
  parser, with `INCLUDE`d files supplied by the caller on request; the
  built-in default menu; expansion of `APPMENU` placeholders.
- `src/appmenu.rs` — the application submenu built from XDG `.desktop`
  files: which files to read, what each says, `Exec` field-code stripping,
  category buckets and section order.
- `src/icon_theme.rs` — XDG data directories, the `Icon=` key of a desktop
  file, and a resumable icon-theme search that asks the caller about the
  filesystem one question at a time.
- `src/layout.rs` — geometry and hit-testing of the window decoration,
  menus and popups, the workspace strip and the icon tray, and the tray's
  order.
- `src/pointer.rs` — what each pointer event does: a step function from
  the shell's pointer state and one event to the next state and the
  actions to perform (window menu from the title-bar button, icon menu,
  root-menu popups and pushpins, the modal Exit notice, icon selection
  with SELECT and ADJUST, double-click restore, icon dragging, workspace
  switching and ADJUST-click moves on the panel).
- `src/text.rs` — the string operations the above are specified with
  (`str::trim`, `str::lines`, `split_whitespace`, ...).

`app/` is a small command-line front end that does the reading and
environment lookups (the Wayland client that would draw the shell and
perform `pointer::ShellAction`s is not part of this crate): `olshell menu` prints the root menu as it would be
shown, `olshell icon <app_id>` prints the icon file found for an
application.

Run the tests in `tests/` for concrete scenarios; the `law_*` proof
functions in `src/` state the properties that hold for every input.
