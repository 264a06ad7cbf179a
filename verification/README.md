# jj_worktree

A `git` shim for jj repositories: `git worktree` (and `git branch -d`,
`git status`, `git rev-parse`) calls are answered with `jj workspace` and
related jj commands; everything else goes to the real `git`.

- `src/` is the verified library: git global-option parsing and routing
  (`shim`), the `worktree` commands' argument parsing, naming and output
  (`worktree`), the steps of `worktree add` and `worktree remove` with their
  checks, ordering and rollback (`creation`, `removal`), path components,
  joining and normalization (`path`), workspace metadata naming, lookup and
  ordering (`meta`), the issue log's JSONL entries and stderr notice
  (`issue_log`), `jj` call arguments and results (`jj`), and the program's
  own command selection (`cli`).
- `app/` is the program: it runs the processes, touches files and the
  environment, and does serde. For `add` and `remove` it performs the action
  that the library's step function chooses and hands back its outcome.
- `tests/` exercise the library on concrete values.
