# cjtaskrunner

A task runner for `cjtasks` files, written in Verus. The parts that decide
things are proved against their contracts: the taskfile grammar, variable
interpolation and word splitting, the runner, the formatter, help output,
the language-server analysis, semantic versions, `--init`/`--auto` planning
and the command line. The executables are thin Rust around that library.

## Layout

- `src/`: the verified library. Each module states its behaviour with spec
  functions, and executable functions are proved against them.
  - `task_file`, `task_header`, `scan`, `names`: reading a taskfile;
    `file_invariants`: what every file that reads without error satisfies.
  - `command_text`: `$NAME` / `${NAME}` / `${NAME?}` / `${NAME?fallback}`
    interpolation, shell quoting and word splitting.
  - `runner`, `awaited`, `watch`, `file_copy`, `conditions`, `values`,
    `runtime`, `vars`:
    running tasks. The runner is a state machine. It asks for outside work
    (processes, files, awaited tasks, watched lines) as actions and resumes
    from the events it gets back.
  - `environment`: the environment of a run (process, `.env`, `@env:`,
    Python virtualenv).
  - `formatter`, `help_output`, `directive_info`, `lsp_analysis`,
    `lsp_queries`: tooling; `analysis_invariants`: what every analysis
    satisfies.
  - `semver`, `version_file`, `layers`, `project_init`, `cli`: versions,
    overlays, project import and argument handling.
- `app/`: the `cj` program and its language server. It does file and process
  I/O, watches files and speaks LSP over stdio, then hands plain values to the
  library.
- `tests/`: tests of the library on concrete inputs.

Laws that span several functions are public proof functions (`lemma_*`),
most of them next to the functions they are about. Examples are formatting
twice changes nothing, closing a scope restores the working directory, and
text without `$` is left unchanged by interpolation.
