# hitman

A command line tool for hitting API endpoints: HTTP and GraphQL requests
are written as templates, filled in from TOML configuration files, sent,
and values taken from their JSON responses are kept for later requests.

- `src/` is the library, verified with Verus: configuration values, their
  reading from TOML text and their merging (`value`, `toml_text`, `env`), variable lookup (`scope`, `replacer`,
  `prompt`), extraction of values from responses (`json`, `extract`),
  resolution of request files (`path`, `resolve`), reading request heads and
  building requests (`request`), batch modes (`util`, `flurry`, `monitor`),
  log formatting (`logging`), the interactive widgets (`keymap`,
  `select`, `output`, `datepicker`, `widgets`) and the state machine of
  the interactive screen (`tui`).
- `app/` is the program: command line, files, network, terminal prompts,
  template rendering, and the loop of the interactive screen (run as
  `hitman-ui`), which draws the screen and does the work its state
  machine asks for.
- `tests/` runs the library on concrete values.
