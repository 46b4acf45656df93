# git_account_switcher

Declarative Git & GitHub CLI (`gh`) multi-account manager, with its core
verified by Verus.

- `src/` — the verified library:
  - `config.rs`: the manifest (`accounts.toml`) model and its validation,
    with a proof of what a valid manifest is;
  - `paths.rs`: paths as text, the `std::path` operations the library
    relies on, and `~` expansion;
  - `resolver.rs`: which account a directory belongs to, and the shell
    export lines for `gh`;
  - `doctor.rs`: the diagnostics (includes, drift of the generated files,
    ssh keys, roots), computed from a snapshot of the host;
  - `commands.rs`: what `init` decides and reports;
  - `ui.rs`: the styled status lines of the reports;
  - `text.rs`: trimming, substring search, octal numerals;
  - `cli.rs`: the subcommands and shells.
- `app/` — the program: command line (clap), reading and parsing the
  manifest (serde/toml), running `git`, probing the file system, and
  writing to the terminal (anstream).
- `tests/` — tests of the library.
