# skypier-blackhole (verified core)

The blocklist-source handling and the dashboard logic of the Skypier
Blackhole DNS daemon, with proved contracts.

- `src/` — the verified library:
  - `text`: whitespace, trimming and line splitting over characters;
  - `domains`: parsing of blocklist files;
  - `loader`: the configured sources, their summaries, and the load plan;
  - `tui::logs`: rendering of log events and the bounded line buffer;
  - `tui::input`: key handling of the domain prompt;
  - `tui::events`: one turn of the dashboard's event loop;
  - `tui::edit`: adding a domain to and taking it out of the custom list;
  - `tui::update`: the single-update rule for remote lists.
- `app/` — the dashboard's state and event loop, with the file system,
  terminal, clock and tracing plumbing around the library.
- `tests/` — tests of the library on concrete values.
