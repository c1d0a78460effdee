# zellij-ssh-manager

A host picker for a Zellij plugin. It reads the concrete `Host` aliases of
`~/.ssh/config` (following `Include`), lets the user filter them and choose a
backend (a login shell, tmux, tmux workspace panes, or Zellij), lists the
remote tmux sessions, and opens a tab running the connector for the chosen
host and session.

The logic is a library verified with Verus:

- `src/parser.rs` reads the configuration as a step machine: it says which
  file to open or which pattern to glob next and decides what the answers
  mean, so the file-system work stays with the caller.
- `src/state.rs` is the picker's state machine; `src/plugin.rs` the plugin's
  settings, status line, splits of workspace tabs and screen.
- `src/worker.rs` reads a worker pane's connector command (host and
  workspace) and picks the next worker index above every listed and every
  reserved one. A split therefore needs nothing remembered from the tab's
  creation, and works after the plugin reloads.
- `src/laws.rs` states and proves properties across operations, such as that
  every connector command carries a safe session name, that hosts are listed
  once each in first-seen order, that each file is read at most once, and
  that a split never opens a worker name already listed or reserved.
- `src/progress.rs` ranks the reader's outstanding work by `Include` depth
  and kind; `laws.rs` uses it to prove that reading a configuration always
  ends, whatever the files hold.

`app/main.rs` is the plugin itself: it registers with Zellij, performs the
file-system and plugin-host calls, and hands their results to the library.
