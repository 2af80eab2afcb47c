# moi

`moi` sets up Linux (Debian or Arch) environments from modules: each module
of an environment declares packages, directories, files, marker blocks in
shell profiles, commands and `PATH` additions in its `module.toml`. `moi plan`
shows what would be done; `moi apply` does it.

The decisions are made by a library whose behaviour is stated in contracts
and proved with Verus:

- `src/model/`: module definitions and their checks; the set of modules and
  the order they are processed in (dependencies first; modules, and the
  dependencies of each module, in name order).
- `src/steps.rs`, `src/report.rs`, `src/plan.rs`: which operations of a
  module apply on a platform, in what order, and everything a plan shows.
- `src/exec/`: directories, files, marker blocks, commands (as a state
  machine the program drives), packages and `PATH`.
- `src/config.rs`, `src/cli.rs`, `src/os_release.rs`, `src/checkout.rs`:
  settings and their precedence, the command line, platform detection, and
  where the modules come from.
- `src/upgrade.rs`, `src/install_command.rs`, `src/util/tracing.rs`: release
  versions, the install command line, and output filtering.

`app/` is the program around the library: argument parsing with `clap`, TOML
reading with `serde` and `toml`, output with `tracing`, and everything that
touches files and processes.
