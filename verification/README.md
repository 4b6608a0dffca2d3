# piquelcli

`piquel` opens project and ad hoc workspaces in tmux. It reads a JSON
configuration of session templates and git projects, lists and picks running
sessions with fzf, clones missing projects, opens branch worktrees (creating
managed ones under `<worktrees_dir>/<project>/<sanitized-branch>`), and builds
tmux sessions window by window from a template.

## Layout

- `src/` is the library, verified with Verus. It never runs a process or
  touches the filesystem: every command it needs is a request
  (`backend::CommandRequest`), and every workflow is a state machine that names
  what it needs next (`workflow::Need`) and decides from the outcome it is
  handed (`workflow::Flow::step`). Opening a tmux session is its own machine
  (`opener`).
  - `lib.rs`: the configuration model, its validation and normalisation.
  - `backend.rs`, `paths.rs`, `text.rs`, `sort.rs`: requests and outputs,
    Unix paths as text, characters, sorting.
  - `git.rs`, `tmux.rs`, `fzf.rs`: the requests for each tool and the reading
    of their output.
  - `cli.rs`, `workflow.rs`, `opener.rs`: the command line's decisions.
- `app/` is the program around it: argument parsing (clap), the JSON file
  (serde), running processes on this machine or over SSH, the terminal and
  fzf, and the loop that feeds the workflows.
- `tests/` runs the library on concrete values, including whole workflows
  driven by scripted outcomes.
