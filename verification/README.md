# devenv

A development environment installer for Linux: an interactive terminal
interface and a headless mode that install a curated set of tools with
[mise](https://mise.jdx.dev), system packages and shell/editor
configurations.

The installer's logic is a library verified with Verus; the program around
it does the terminal drawing, runs processes and touches files.

## Layout

- `src/` — the verified library.
  - `registry.rs`: the built-in components, their actions and the
    installation plan.
  - `app.rs`: the interactive state and what each key does.
  - `install.rs`: the course of an installation as a state machine that
    names the next piece of outside work and takes its result.
  - `system.rs`, `mise.rs`, `config.rs`: the commands, tool specs and
    configuration updates of each phase, and what their results come to.
  - `headless_config.rs`, `cli.rs`: configuration files and the command
    line.
  - `observe.rs`, `sys.rs`: what is found on the machine before a change.
  - `view.rs`: the rows, titles and colour roles of each screen.
  - `manifest.rs`, `outcomes.rs`, `text.rs`: the tool registry, the
    outcome store and character-level text handling.
- `app/` — the `devenv` program: command line, terminal interface,
  processes and files.
- `tests/` — tests of the library.
