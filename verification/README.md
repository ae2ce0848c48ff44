# halley

Verified pieces of the Halley Wayland compositor and its control client,
written in Verus.

`src/` is the library. Its functions are verified, except four small
trusted wrappers around std and `xcursor` calls (`char::to_uppercase`,
`String::push`, `Arc::clone`, `xcursor::parser::parse_xcursor`), whose
contracts state what those calls document:

- `layer_cli` — parsing of `halley layer list|promote|demote`.
- `layer_ipc` — serving layer requests: handle lookup, layer descriptions,
  replies.
- `layer_window` — layer-shell surfaces promoted to nodes: which surfaces are
  promoted, labels, the click-shield heuristic, content regions.
- `foreign_toplevel` — the wlr-foreign-toplevel state: what each client was
  told and which events a change calls for.
- `config` — the `cursor:` configuration section and its defaults.
- `cursor_sprite`, `cursor_theme`, `cursor_manager` — animated XCursor
  sprites: frame selection, size choice, the sprite cache, the animation
  clock and the run-length blit.
- `dynamic_cursor` — the discrete decisions of the dynamic cursor.
- `text` — trimming (Unicode `White_Space`) and case mapping shared by the
  above.

`app/` is the compositor-side glue that Verus does not see: file and theme
I/O, smithay and Wayland protocol objects, configuration reading, and the
floating-point dynamic cursor simulation.

`tests/` exercises the library on concrete values.
