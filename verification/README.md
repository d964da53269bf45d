# idol_catalog

The request logic of a small catalogue service for idol groups, verified with
Verus, and the HTTP server around it.

- `src/` is the verified library: whitespace trimming (`text`), plain-text
  answers (`reply`), upload admission and content-addressed image naming
  (`upload`, `add_images`, `add_group`), group listings with a stable sort by
  name (`get_groups`), group and member look-ups (`get_group`, `get_members`),
  group confirmation (`confirm_group`) and sign-in (`login`).
- `app/` is the actix-web server: it reads requests, runs the database
  statements, writes files and sends answers. The library makes the
  decisions: which fields an upload admits, which files it accepts, what a
  broken or ended stream does to it, which listing to look up and in what
  order to send it, and whether a sign-in succeeds.
- `tests/` exercises the library on concrete values.
