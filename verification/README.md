# guitar

A terminal view of a git repository: its commit graph, working-tree status, remotes and
worktrees.

- `src/` is the library, verified with Verus: the lane buffer that lays out the commit graph and
  rebuilds any window of its history (`buffer`, `chunk`), commit aliases (`oids`), the history
  queue (`batcher`), the worktree and context-menu decisions of the app (`app_state`,
  `worktrees`), the splash wordmark's sheen and grain (`logo`, `splash`), the graph's symbol
  layers (`layers`), and the rules around remotes, branches, statuses, file history, commit
  times, file watching and git's multi-step operations.
- `tests/` exercises the library on concrete values.
- `app/` is the program around it: the command line, the repository and file-system work, the
  watcher, threads, and drawing with ratatui.
