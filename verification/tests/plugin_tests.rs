use zellij_ssh_manager::parser::ParseResult;
use zellij_ssh_manager::plugin::{
    list_sessions_command, map_key, split_direction, Action, Followup, Key, PaneCommand, Plugin,
    SessionTabs,
};
use zellij_ssh_manager::state::{Backend, CommandSpec, Input, Stage};

fn strings(items: &[&str]) -> Vec<String> {
    items.iter().map(|s| s.to_string()).collect()
}

#[test]
fn plugin_starts_unloaded() {
    let plugin = Plugin::default();
    assert_eq!(plugin.status, "");
    assert!(!plugin.home_ready);
    assert_eq!(plugin.zellij_cli, "zellij");
    assert_eq!(plugin.app.connector, "zellij-ssh-connector");
    assert_eq!(plugin.app.backend, Backend::Tmux);
}

#[test]
fn settings_override_defaults_when_given() {
    let mut plugin = Plugin::default();
    plugin.configure(Some("/opt/bin/connector"), Some(""), Some("shell"));
    assert_eq!(plugin.app.connector, "/opt/bin/connector");
    assert_eq!(plugin.zellij_cli, "zellij");
    assert_eq!(plugin.app.backend, Backend::Shell);
    assert_eq!(plugin.status, "Waiting for permissions...");

    plugin.configure(Some(""), Some("/usr/bin/zellij"), Some("tmux-worker"));
    assert_eq!(plugin.app.connector, "/opt/bin/connector");
    assert_eq!(plugin.zellij_cli, "/usr/bin/zellij");
    assert_eq!(plugin.app.backend, Backend::TmuxWorker);

    plugin.configure(None, None, Some("zellij"));
    assert_eq!(plugin.app.backend, Backend::Zellij);
    plugin.configure(None, None, Some("something else"));
    assert_eq!(plugin.app.backend, Backend::Tmux);
    plugin.app.backend = Backend::Shell;
    plugin.configure(None, None, None);
    assert_eq!(plugin.app.backend, Backend::Shell);
}

#[test]
fn permissions_lead_to_mounting_home() {
    let mut plugin = Plugin::default();
    assert_eq!(plugin.permissions_granted(Some("/home/u")), Some("/home/u".to_owned()));
    assert!(plugin.home_ready);
    assert_eq!(plugin.status, "Loading ~/.ssh/config...");

    let mut plugin = Plugin::default();
    assert_eq!(plugin.permissions_granted(Some("")), None);
    assert!(!plugin.home_ready);
    assert_eq!(plugin.status, "HOME is not available in the Zellij session");
    assert_eq!(plugin.permissions_granted(None), None);

    plugin.permissions_denied();
    assert_eq!(plugin.status, "Required permissions were denied");

    plugin.host_folder_failed(Some("no such folder".to_owned()));
    assert_eq!(plugin.status, "no such folder");
    plugin.host_folder_failed(None);
    assert_eq!(plugin.status, "Failed to access HOME");
}

#[test]
fn loaded_hosts_are_counted_in_the_status() {
    let mut plugin = Plugin::default();
    plugin.app.selected = 3;
    plugin.hosts_loaded(ParseResult {
        hosts: strings(&["a", "b"]),
        warnings: vec![],
    });
    assert_eq!(plugin.status, "Loaded 2 SSH hosts");
    assert_eq!(plugin.app.hosts, vec!["a", "b"]);
    assert_eq!(plugin.app.selected, 0);

    plugin.hosts_loaded(ParseResult {
        hosts: strings(&["a"]),
        warnings: strings(&["w"]),
    });
    assert_eq!(plugin.status, "Loaded 1 SSH hosts (1 warning)");

    plugin.hosts_loaded(ParseResult {
        hosts: strings(&["a", "b", "c", "d", "e", "f", "g", "h", "i", "j", "k", "l"]),
        warnings: strings(&["w", "v"]),
    });
    assert_eq!(plugin.status, "Loaded 12 SSH hosts (2 warnings)");

    plugin.hosts_loaded(ParseResult {
        hosts: vec![],
        warnings: strings(&["first problem", "second"]),
    });
    assert_eq!(plugin.status, "first problem");

    plugin.hosts_loaded(ParseResult::default());
    assert_eq!(plugin.status, "No concrete Host aliases found");
}

#[test]
fn keys_map_to_inputs() {
    assert_eq!(map_key(Key::Char('c'), true, false), Some(Input::Cancel));
    assert_eq!(map_key(Key::Char('p'), true, false), Some(Input::Up));
    assert_eq!(map_key(Key::Char('n'), true, false), Some(Input::Down));
    assert_eq!(map_key(Key::Char('x'), true, false), None);
    assert_eq!(map_key(Key::Char('c'), false, false), None);
    assert_eq!(map_key(Key::Char('x'), false, true), Some(Input::Character('x')));
    assert_eq!(map_key(Key::Backspace, false, true), Some(Input::Backspace));
    assert_eq!(map_key(Key::Up, false, true), Some(Input::Up));
    assert_eq!(map_key(Key::Down, false, true), Some(Input::Down));
    assert_eq!(map_key(Key::Enter, false, true), Some(Input::Enter));
    assert_eq!(map_key(Key::Esc, false, true), Some(Input::Escape));
    assert_eq!(map_key(Key::Other, false, true), None);
}

#[test]
fn pipe_messages_name_split_directions() {
    assert_eq!(split_direction("split-right"), Some("right"));
    assert_eq!(split_direction("split-down"), Some("down"));
    assert_eq!(split_direction("split-left"), None);
}

#[test]
fn session_listing_runs_tmux_over_batch_ssh() {
    assert_eq!(
        list_sessions_command("prod"),
        vec![
            "ssh",
            "-o",
            "BatchMode=yes",
            "-o",
            "ConnectTimeout=5",
            "--",
            "prod",
            "tmux list-sessions -F '#{session_name}'",
        ]
    );
}

#[test]
fn finished_commands_update_the_picker_or_the_status() {
    let mut plugin = Plugin::default();
    plugin.app.stage = Stage::Loading;
    plugin.app.host = Some("prod".to_owned());
    let ignored = |f: Followup| matches!(f, Followup::Ignore);
    let redraw = |f: Followup| matches!(f, Followup::Redraw);
    assert!(ignored(plugin.command_finished(None, Some("prod"), None, Some(0), b"a\n", b"")));
    assert!(ignored(plugin.command_finished(Some("other"), Some("prod"), None, Some(0), b"a\n", b"")));
    assert!(ignored(plugin.command_finished(Some("tmux_sessions"), None, None, Some(0), b"a\n", b"")));
    assert!(ignored(plugin.command_finished(Some("tmux_sessions"), Some("dev"), None, Some(0), b"a\n", b"")));
    assert!(redraw(plugin.command_finished(Some("tmux_sessions"), Some("prod"), None, Some(0), b"b\na\n", b"")));
    assert_eq!(plugin.app.tmux_sessions, vec!["a", "b"]);
    assert_eq!(plugin.app.stage, Stage::TmuxSessionSelection);

    assert!(redraw(plugin.command_finished(Some("workspace_split"), None, Some("zr-w-p0002"), Some(0), b"", b"")));
    assert_eq!(plugin.status, "Opened workspace worker zr-w-p0002");
    assert!(redraw(plugin.command_finished(
        Some("workspace_split"),
        None,
        Some("zr-w-p0003"),
        Some(1),
        b"out line\n",
        b"\n   \n  no tab  \n",
    )));
    assert_eq!(plugin.status, "Could not open zr-w-p0003:   no tab  ");
    assert!(redraw(plugin.command_finished(Some("workspace_split"), None, None, None, b"", b"")));
    assert_eq!(plugin.status, "Could not open worker: zellij new-pane failed");
    assert!(redraw(plugin.command_finished(Some("workspace_split"), None, None, Some(2), b" x\n", b"")));
    assert_eq!(plugin.status, "Could not open worker:  x");

    assert!(ignored(plugin.command_finished(Some("worker_listing"), Some("prod"), None, Some(0), b"", b"")));
    assert!(ignored(plugin.command_finished(Some("worker_listing"), None, None, Some(0), b"", b"")));
}

fn workspace_plugin() -> Plugin {
    let mut plugin = Plugin::default();
    plugin.app.stage = Stage::WorkspaceInput;
    plugin.app.host = Some("prod".to_owned());
    plugin.app.backend = Backend::TmuxWorker;
    plugin.app.workspace = "proj".to_owned();
    plugin.app.connector = "/opt/bin/connector".to_owned();
    plugin
}

const WORKER_COMMAND: &str =
    "/opt/bin/connector --host prod --backend tmux-worker --session zr-proj-p0001";

fn pane(tab_position: usize, id: u32, is_plugin: bool, command: Option<&str>) -> PaneCommand {
    PaneCommand {
        tab_position,
        id,
        is_plugin,
        command: command.map(|c| c.to_owned()),
    }
}

fn current_session(panes: Vec<PaneCommand>) -> Vec<SessionTabs> {
    vec![
        SessionTabs {
            name: "other".to_owned(),
            is_current: false,
            tabs: vec![(0, 9)],
            panes: vec![pane(0, 1, false, Some(WORKER_COMMAND))],
        },
        SessionTabs {
            name: "main".to_owned(),
            is_current: true,
            tabs: vec![(0, 3), (1, 7)],
            panes,
        },
    ]
}

fn split_args(worker: &str, direction: &str) -> Vec<String> {
    strings(&[
        "zellij",
        "--session",
        "main",
        "action",
        "new-pane",
        "--tab-id",
        "7",
        "--direction",
        direction,
        "--",
        "/opt/bin/connector",
        "--host",
        "prod",
        "--backend",
        "tmux-worker",
        "--session",
        worker,
    ])
}

#[test]
fn workspace_connection_opens_its_first_worker() {
    let mut plugin = workspace_plugin();
    assert!(plugin.handles(Input::Enter));
    match plugin.key_pressed(Input::Enter) {
        Action::ConnectWorkspace(spec) => assert_eq!(
            spec,
            CommandSpec {
                program: "/opt/bin/connector".to_owned(),
                args: strings(&[
                    "--host",
                    "prod",
                    "--backend",
                    "tmux-worker",
                    "--session",
                    "zr-proj-p0001"
                ]),
                tab_name: "prod/proj".to_owned(),
            }
        ),
        other => panic!("unexpected action {other:?}"),
    }
    assert_eq!(plugin.workspace_host(), Some("prod".to_owned()));
    plugin.workspace_opened();
    assert_eq!(
        plugin.status,
        "Workspace connected; use its split bindings for more workers"
    );
}

#[test]
fn split_after_reload_recovers_the_workspace_and_lists_workers() {
    // A freshly loaded plugin remembers nothing of the tab it splits.
    let mut plugin = Plugin::default();
    plugin.app.connector = "/opt/bin/connector".to_owned();
    let panes = vec![
        pane(1, 5, true, None),
        pane(1, 4, false, Some(WORKER_COMMAND)),
        pane(0, 4, false, Some("bash")),
    ];
    let host = plugin.split_requested(1, false, 4, Ok(current_session(panes)), "right");
    assert_eq!(host, Some("prod".to_owned()));
    assert_eq!(plugin.status, "Looking for the next worker of proj on prod...");
    assert_eq!(plugin.pending.len(), 1);

    let listing = b"zr-proj-p0001\nzr-proj-p0003\nzr-other-p0009\nmain\n";
    match plugin.command_finished(Some("worker_listing"), Some("prod"), None, Some(0), listing, b"") {
        Followup::Split(split) => {
            assert_eq!(split.worker, "zr-proj-p0004");
            assert_eq!(split.tab_id, 7);
            assert_eq!(split.command, split_args("zr-proj-p0004", "right"));
        }
        other => panic!("unexpected follow-up {other:?}"),
    }
    assert_eq!(plugin.status, "Opening workspace pane to the right...");
    assert!(plugin.pending.is_empty());
    assert_eq!(plugin.reserved.len(), 1);
    assert_eq!(plugin.reserved[0].index, 4);
}

#[test]
fn rapid_splits_reserve_distinct_workers() {
    let mut plugin = Plugin::default();
    plugin.app.connector = "/opt/bin/connector".to_owned();
    let panes = || vec![pane(1, 4, false, Some(WORKER_COMMAND))];
    assert!(plugin.split_requested(1, false, 4, Ok(current_session(panes())), "right").is_some());
    assert!(plugin.split_requested(1, false, 4, Ok(current_session(panes())), "down").is_some());
    assert_eq!(plugin.pending.len(), 2);
    // Both listings show only the first worker: the second pane was not yet
    // created when they were taken.
    let first = plugin
        .worker_listing_arrived("prod", Some(0), b"zr-proj-p0001\n", b"")
        .unwrap();
    let second = plugin
        .worker_listing_arrived("prod", Some(0), b"zr-proj-p0001\n", b"")
        .unwrap();
    assert_eq!(first.worker, "zr-proj-p0002");
    assert_eq!(first.command, split_args("zr-proj-p0002", "right"));
    assert_eq!(second.worker, "zr-proj-p0003");
    assert_eq!(second.command, split_args("zr-proj-p0003", "down"));
    assert_eq!(plugin.status, "Opening workspace pane to the down...");
    assert!(plugin
        .worker_listing_arrived("prod", Some(0), b"zr-proj-p0001\n", b"")
        .is_none());
}

#[test]
fn failed_worker_listings_explain_themselves() {
    let mut plugin = Plugin::default();
    let panes = || vec![pane(1, 4, false, Some(WORKER_COMMAND))];
    assert!(plugin.split_requested(1, false, 4, Ok(current_session(panes())), "right").is_some());
    match plugin.command_finished(
        Some("worker_listing"),
        Some("prod"),
        None,
        Some(255),
        b"",
        b"ssh: connect to host prod port 22: Connection refused\n",
    ) {
        Followup::ShowPicker => {}
        other => panic!("unexpected follow-up {other:?}"),
    }
    assert_eq!(
        plugin.status,
        "Could not list tmux sessions: ssh: connect to host prod port 22: Connection refused"
    );
    assert!(plugin.pending.is_empty());
    assert!(plugin.reserved.is_empty());

    assert!(plugin.split_requested(1, false, 4, Ok(current_session(panes())), "right").is_some());
    let listing = format!("zr-proj-p{}\n", u32::MAX);
    assert!(plugin
        .worker_listing_arrived("prod", Some(0), listing.as_bytes(), b"")
        .is_none());
    assert_eq!(plugin.status, "No worker index is left for workspace proj");

    assert!(plugin.split_requested(1, false, 4, Ok(current_session(panes())), "right").is_some());
    let listing = format!("zr-proj-p{}\n", u32::MAX - 1);
    let split = plugin
        .worker_listing_arrived("prod", Some(0), listing.as_bytes(), b"")
        .unwrap();
    assert_eq!(split.worker, format!("zr-proj-p{}", u32::MAX));
}

#[test]
fn splits_outside_workspaces_explain_themselves() {
    let mut plugin = workspace_plugin();
    plugin.split_focus_failed("no focus");
    assert_eq!(plugin.status, "Could not find focused tab: no focus");

    assert!(plugin
        .split_requested(0, false, 1, Err("boom".to_owned()), "right")
        .is_none());
    assert_eq!(plugin.status, "Could not read Zellij sessions: boom");

    let not_current = vec![SessionTabs {
        name: "main".to_owned(),
        is_current: false,
        tabs: vec![(0, 7)],
        panes: vec![pane(0, 1, false, Some(WORKER_COMMAND))],
    }];
    assert!(plugin.split_requested(0, false, 1, Ok(not_current), "right").is_none());
    assert_eq!(plugin.status, "Could not identify the current Zellij session");

    let panes = || {
        vec![
            pane(0, 1, false, Some("bash -l")),
            pane(1, 2, false, Some(WORKER_COMMAND)),
            pane(1, 3, false, None),
            pane(1, 4, false, Some("/opt/bin/connector --host prod --backend tmux --session zr-proj-p0001")),
            pane(1, 5, false, Some("/opt/bin/connector --host prod --backend tmux-worker --session main")),
        ]
    };
    assert!(plugin.split_requested(5, false, 1, Ok(current_session(panes())), "right").is_none());
    assert_eq!(plugin.status, "Could not resolve the focused tab's stable ID");
    for (position, id, is_plugin) in [(0, 1, false), (1, 3, false), (1, 4, false), (1, 5, false), (1, 2, true), (0, 2, false)] {
        assert!(plugin
            .split_requested(position, is_plugin, id, Ok(current_session(panes())), "right")
            .is_none());
        assert_eq!(plugin.status, "The focused pane is not a tmux workspace worker");
    }
    assert!(plugin.pending.is_empty());
    assert_eq!(
        plugin.split_requested(1, false, 2, Ok(current_session(panes())), "down"),
        Some("prod".to_owned())
    );
}

#[test]
fn failures_to_open_tabs_are_errors() {
    let mut plugin = Plugin::default();
    assert_eq!(plugin.workspace_host(), None);
    assert_eq!(plugin.app.error.as_deref(), Some("No SSH host selected"));
    plugin.connect_failed();
    assert_eq!(
        plugin.app.error.as_deref(),
        Some("Zellij did not create the connector tab")
    );
    plugin.workspace_failed();
    assert_eq!(
        plugin.app.error.as_deref(),
        Some("Zellij did not create the workspace tab")
    );
}

#[test]
fn host_screen_lists_matching_hosts_with_a_marker() {
    let mut plugin = Plugin::default();
    plugin.status = "Loaded 3 SSH hosts".to_owned();
    plugin.app.set_hosts(strings(&["alpha", "beta", "gamma"]));
    plugin.app.selected = 1;
    assert_eq!(
        plugin.screen(20, 80),
        vec![
            "SSH Manager",
            "",
            "Host filter: ",
            "",
            "  alpha",
            "> beta",
            "  gamma",
            "",
            "Type to filter | ↑/↓ or Ctrl-p/Ctrl-n | Enter | Esc",
            "Loaded 3 SSH hosts",
        ]
    );
    plugin.app.filter = "zzz".to_owned();
    plugin.app.error = Some("No matching SSH host".to_owned());
    assert_eq!(
        plugin.screen(20, 80),
        vec![
            "SSH Manager",
            "",
            "Host filter: zzz",
            "",
            "  (no matching hosts)",
            "",
            "Type to filter | ↑/↓ or Ctrl-p/Ctrl-n | Enter | Esc",
            "Error: No matching SSH host",
        ]
    );
}

#[test]
fn screen_scrolls_and_is_cut_to_size() {
    let mut plugin = Plugin::default();
    plugin.app.set_hosts(strings(&["h0", "h1", "h2", "h3", "h4"]));
    plugin.app.selected = 4;
    assert_eq!(
        plugin.screen(10, 80),
        vec![
            "SSH Manager",
            "",
            "Host filter: ",
            "",
            "  h3",
            "> h4",
            "",
            "Type to filter | ↑/↓ or Ctrl-p/Ctrl-n | Enter | Esc",
        ]
    );
    assert_eq!(plugin.screen(3, 4), vec!["SSH ", "", "Host"]);
    assert_eq!(
        plugin.screen(5, 80)[4],
        "> h4"
    );
}

#[test]
fn later_screens_show_host_and_backend() {
    let mut plugin = Plugin::default();
    plugin.app.stage = Stage::BackendSelection;
    plugin.app.backend = Backend::Zellij;
    assert_eq!(
        plugin.screen(30, 80),
        vec![
            "SSH Manager",
            "",
            "Host: (none)",
            "Choose backend:",
            "  tmux",
            "  tmux workspace panes",
            "> zellij",
            "  shell (default login shell)",
            "",
            "↑/↓ or t/w/z/s | Enter | Esc back",
        ]
    );
    plugin.app.host = Some("prod".to_owned());
    plugin.app.stage = Stage::Loading;
    assert_eq!(
        plugin.screen(30, 80),
        vec![
            "SSH Manager",
            "",
            "Host: prod  Backend: tmux",
            "",
            "Loading tmux sessions...",
            "",
            "Esc back",
        ]
    );
    plugin.app.stage = Stage::TmuxSessionSelection;
    plugin.app.tmux_sessions = strings(&["main"]);
    plugin.app.selected = 1;
    assert_eq!(
        plugin.screen(30, 80),
        vec![
            "SSH Manager",
            "",
            "Host: prod  Backend: tmux",
            "Choose a tmux session:",
            "  main",
            "> + New session",
            "",
            "↑/↓ or Ctrl-p/Ctrl-n | Enter | Esc back",
        ]
    );
    plugin.app.stage = Stage::SessionInput;
    plugin.app.session = "dev".to_owned();
    assert_eq!(
        plugin.screen(30, 80),
        vec![
            "SSH Manager",
            "",
            "Host: prod  Backend: zellij",
            "Session: dev",
            "",
            "Allowed: A-Z a-z 0-9 _ . -",
            "Enter connect | Esc back",
        ]
    );
    plugin.app.stage = Stage::TmuxSessionSelection;
    plugin.app.backend = Backend::TmuxWorker;
    plugin.app.tmux_sessions = vec![];
    plugin.app.selected = 0;
    assert_eq!(
        plugin.screen(12, 40),
        vec![
            "SSH Manager",
            "",
            "Host: prod  Backend: tmux",
            "Choose a tmux session:",
            "> + New workspace",
            "",
            "↑/↓ or Ctrl-p/Ctrl-n | Enter | Esc back",
        ]
    );
    plugin.app.stage = Stage::WorkspaceInput;
    plugin.app.workspace = "proj".to_owned();
    assert_eq!(
        plugin.screen(30, 80),
        vec![
            "SSH Manager",
            "",
            "Host: prod  Backend: tmux workspace panes",
            "Workspace: proj",
            "",
            "First worker: zr-<workspace>-p0001",
            "Allowed: A-Z a-z 0-9 _ . -",
            "Enter connect | Esc back",
        ]
    );
}

#[test]
fn key_press_actions_follow_the_picker() {
    let mut plugin = Plugin::default();
    plugin.app.set_hosts(strings(&["prod"]));
    assert!(matches!(plugin.key_pressed(Input::Enter), Action::Render));
    assert_eq!(plugin.app.stage, Stage::BackendSelection);
    match plugin.key_pressed(Input::Enter) {
        Action::DiscoverTmuxSessions { host } => assert_eq!(host, "prod"),
        other => panic!("unexpected action {other:?}"),
    }
    assert!(matches!(plugin.key_pressed(Input::Cancel), Action::Close));
}
