# cutler

Declarative macOS settings management: a TOML file names `defaults`
domains and keys, Homebrew formulae and casks, App Store apps and shell
commands; `cutler` applies them, reports their status and undoes them.

## Layout

- `src/` is the library, verified with Verus. It holds the logic: reading
  the configuration as a tree of values, grouping settings by domain,
  planning `defaults` writes and the snapshot that undoes them, comparing
  Homebrew state, resolving `$var` references in commands, choosing the
  configuration file, and deciding on updates. Each public function states
  its result in its contract; the proof functions named `law_*` state what
  holds across several calls (for example, that undoing an apply restores
  what was there before).
- `tests/` runs the library on concrete values.
- `app/` is the program around the library: argument parsing, files,
  processes and the network. It hands the library plain values and acts on
  the plans it gets back.
