# Lupa

A minimalist launcher for Wayland desktops, built on GTK 4 and
gtk4-layer-shell. Its search logic is a library verified with Verus.

## Layout

- `src/` — the verified library `lupa`:
  - `text` — the parts of `str` the parsers rely on, stated over `Seq<char>`;
  - `config` — where the configuration and plugins live, and the defaults
    of the behaviour section;
  - `desktop` — reading desktop entries into applications;
  - `apps` — application folders, ranking applications for a query, their
    command lines and icon files;
  - `matching` — fuzzy scores and the orders in which scored results are shown;
  - `files`, `chars`, `emoji`, `calc`, `system`, `plugin` — the other search
    providers: what a query asks of each and how its results are ordered;
  - `window` — which providers a query goes to and how entries are laid out;
  - `spawn` — the commands that plugins ask to run.
- `app/` — the GTK program around the library: windows, widgets, Lua
  plugins, the file system and processes.
- `tests/` — tests of the library.

## Prefixes

A query that starts with `#` searches applications alone, `=` evaluates an
expression, `/` searches files, `*` searches the system actions and `!`
emoji. A query without a prefix searches applications, the calculator and
files.
