# devapp

The verified core of a desktop supervisor for a project's development
processes. A project describes its processes in a `devapp.yml` file (tasks and
services, their dependencies and readiness checks); the supervisor starts them
in dependency order, watches them, and stops them all when the session ends.

Layout:

- `src/` — the library, verified with Verus:
  - `config` — the configuration model and its version check;
  - `config_loader` — validation of processes, readiness checks and the
    dependency graph (depth-first search for cycles), with the graph laws;
  - `session`, `supervisor` — the state of a run session and every transition
    the runtime applies to it (launch, readiness, exit, failure, stop, finish),
    with the laws that relate them;
  - `git_info`, `commands` — reading a linked worktree's `.git` file, and the
    small decisions of the user-interface commands;
  - `text`, `error` — text helpers and the error type;
  - `ordered_map`, `url` — the calls into `indexmap` and `reqwest`, each with
    the contract it is trusted to meet.
- `tests/` — tests of the library on concrete values.
- `app/` — the runtime around the library: YAML files, git checkouts, process
  launching and the asynchronous session loop.
