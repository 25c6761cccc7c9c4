# dotctor

Diagnoses the health of a dotfiles setup: broken or missing symlinks,
required tools missing from `PATH`, tool versions below a minimum, and (on
macOS) the state of Homebrew's Command Line Tools.

- `src/` is the library, verified with Verus: version extraction and
  comparison, the findings of each check, the report lines, the exit code,
  the configuration search order and a sorted string map for the
  configuration's tables.
- `app/main.rs` is the command: argument parsing, reading the TOML file,
  looking at the disk and running commands, printing.
- `tests/` runs the library on concrete inputs.
