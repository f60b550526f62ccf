# ezcli

`ezcli` loads the MSVC `cl` environment into the current PowerShell or `cmd`
session and switches into configured project directories. A normal program
cannot change its parent shell, so `ezcli emit ...` prints a script and small
shell wrappers (`ecl`, `ep <name>`) make the current session run it.

## Layout

- `src/` — the verified library (Verus):
  - `text.rs`: the character-level model of strings (lines, split, trim,
    search, ASCII case) and the executable operations proved against it;
  - `env_map.rs`: environment variables kept in increasing name order;
  - `env_capture.rs`: the `vcvarsall.bat` command line and the reading of
    its before/after environment dumps into the variables that changed;
  - `render.rs`: PowerShell and `cmd` scripts for a plan of changes;
  - `wrapper.rs`: the shell wrappers and the PowerShell profile line;
  - `config.rs`: projects in the configuration;
  - `workflow.rs`: what each `emit` action prints, yes/no answers, and the
    `PATH` value with the configuration directory added.
- `tests/` — tests of the library on concrete values.
- `app/` — the command line program: arguments, prompts, TOML files,
  `cmd.exe`, code pages, dialogs and the registry.
