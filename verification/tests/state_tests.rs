use zellij_ssh_manager::state::{
    parse_tmux_sessions_result, valid_session, valid_workspace, worker_session_name,
    worker_workspace_root, AppState, Backend, CommandSpec, Effect, Input, Stage,
};

#[test]
fn filtering_is_case_insensitive_and_preserves_order() {
    let mut state = AppState::default();
    state.set_hosts(vec!["Prod-One".into(), "dev".into(), "prod-two".into()]);
    state.handle(Input::Character('P'));
    state.handle(Input::Character('r'));
    state.handle(Input::Character('o'));

    assert_eq!(state.filtered_hosts(), vec!["Prod-One", "prod-two"]);
    state.handle(Input::Down);
    state.handle(Input::Enter);
    assert_eq!(state.host.as_deref(), Some("prod-two"));
    assert_eq!(state.stage, Stage::BackendSelection);
}

#[test]
fn host_selection_wraps_and_escape_closes() {
    let mut state = AppState::default();
    state.set_hosts(vec!["one".into(), "two".into()]);

    state.handle(Input::Up);
    assert_eq!(state.selected, 1);
    assert_eq!(state.handle(Input::Escape), Effect::Close);
}

#[test]
fn escape_moves_back_through_later_stages() {
    let mut state = AppState::default();
    state.set_hosts(vec!["host".into()]);
    state.handle(Input::Enter);
    state.backend = Backend::Zellij;
    state.handle(Input::Enter);
    assert_eq!(state.stage, Stage::SessionInput);

    state.handle(Input::Escape);
    assert_eq!(state.stage, Stage::BackendSelection);
    state.handle(Input::Escape);
    assert_eq!(state.stage, Stage::HostSelection);
}

#[test]
fn backend_can_be_selected_with_keys_and_cycles_in_display_order() {
    let mut state = AppState::default();
    state.stage = Stage::BackendSelection;

    assert_eq!(state.backend, Backend::Tmux);
    state.handle(Input::Down);
    assert_eq!(state.backend, Backend::TmuxWorker);
    state.handle(Input::Down);
    assert_eq!(state.backend, Backend::Zellij);
    state.handle(Input::Down);
    assert_eq!(state.backend, Backend::Shell);
    state.handle(Input::Down);
    assert_eq!(state.backend, Backend::Tmux);
    state.handle(Input::Up);
    assert_eq!(state.backend, Backend::Shell);
    state.handle(Input::Up);
    assert_eq!(state.backend, Backend::Zellij);
    state.handle(Input::Up);
    assert_eq!(state.backend, Backend::TmuxWorker);
    state.handle(Input::Character('s'));
    assert_eq!(state.backend, Backend::Shell);
    state.handle(Input::Character('T'));
    assert_eq!(state.backend, Backend::Tmux);
    state.handle(Input::Character('w'));
    assert_eq!(state.backend, Backend::TmuxWorker);
    state.handle(Input::Character('z'));
    assert_eq!(state.backend, Backend::Zellij);
    state.handle(Input::Character('S'));
    assert_eq!(state.backend, Backend::Shell);
}

#[test]
fn shell_backend_connects_immediately_without_validating_session() {
    let mut state = AppState {
        stage: Stage::BackendSelection,
        host: Some("prod".to_owned()),
        backend: Backend::Shell,
        session: "not a valid session".to_owned(),
        connector: "/opt/bin/connector".to_owned(),
        ..AppState::default()
    };

    assert_eq!(
        state.handle(Input::Enter),
        Effect::Connect(CommandSpec {
            program: "/opt/bin/connector".to_owned(),
            args: vec!["--host", "prod", "--backend", "shell"]
                .into_iter()
                .map(str::to_owned)
                .collect(),
            tab_name: "prod/shell".to_owned(),
        })
    );
    assert_eq!(state.stage, Stage::BackendSelection);
}

#[test]
fn tmux_backend_starts_session_discovery() {
    let mut state = AppState {
        stage: Stage::BackendSelection,
        host: Some("prod".to_owned()),
        ..AppState::default()
    };

    assert_eq!(
        state.handle(Input::Enter),
        Effect::DiscoverTmuxSessions {
            host: "prod".to_owned()
        }
    );
    assert_eq!(state.stage, Stage::Loading);
}

#[test]
fn discovered_session_can_be_selected_and_connected() {
    let mut state = AppState {
        stage: Stage::Loading,
        host: Some("prod".to_owned()),
        ..AppState::default()
    };

    assert!(state.apply_tmux_sessions_result(
        "prod",
        Some(0),
        b" zeta\nalpha\nzeta\nbad name\n",
        b"",
    ));
    assert_eq!(state.tmux_sessions, vec!["alpha", "zeta"]);
    state.handle(Input::Up);
    assert_eq!(state.selected, 2);
    state.handle(Input::Down);
    assert_eq!(state.selected, 0);
    state.handle(Input::Down);
    let effect = state.handle(Input::Enter);
    assert!(matches!(effect, Effect::Connect(_)));
    assert_eq!(state.session, "zeta");
}

#[test]
fn new_session_entry_opens_session_input() {
    let mut state = AppState {
        stage: Stage::Loading,
        host: Some("prod".to_owned()),
        ..AppState::default()
    };
    state.apply_tmux_sessions_result("prod", Some(0), b"existing\n", b"");

    state.handle(Input::Down);
    assert_eq!(state.handle(Input::Enter), Effect::Render);
    assert_eq!(state.stage, Stage::SessionInput);
    assert_eq!(state.session, "work");
}

#[test]
fn empty_discovery_result_still_offers_new_session() {
    let mut state = AppState {
        stage: Stage::Loading,
        host: Some("prod".to_owned()),
        ..AppState::default()
    };

    state.apply_tmux_sessions_result("prod", Some(0), b"", b"");
    assert!(state.tmux_sessions.is_empty());
    assert_eq!(state.handle(Input::Enter), Effect::Render);
    assert_eq!(state.stage, Stage::SessionInput);
}

#[test]
fn discovery_error_still_allows_a_new_session() {
    let mut state = AppState {
        stage: Stage::Loading,
        host: Some("prod".to_owned()),
        ..AppState::default()
    };

    assert!(state.apply_tmux_sessions_result(
        "prod",
        Some(255),
        b"",
        b"ssh: connect timed out\n",
    ));
    assert_eq!(state.stage, Stage::TmuxSessionSelection);
    assert!(state.error.is_some());
    assert_eq!(state.handle(Input::Enter), Effect::Render);
    assert_eq!(state.stage, Stage::SessionInput);
}

#[test]
fn escape_cancels_loading_and_session_selection() {
    let mut state = AppState {
        stage: Stage::Loading,
        host: Some("prod".to_owned()),
        ..AppState::default()
    };

    state.handle(Input::Escape);
    assert_eq!(state.stage, Stage::BackendSelection);
    assert!(!state.apply_tmux_sessions_result("prod", Some(0), b"old\n", b""));
    assert!(state.tmux_sessions.is_empty());

    state.stage = Stage::TmuxSessionSelection;
    state.handle(Input::Escape);
    assert_eq!(state.stage, Stage::BackendSelection);
}

#[test]
fn stale_host_is_ignored_and_tmux_output_is_normalized() {
    let mut state = AppState {
        stage: Stage::Loading,
        host: Some("new-host".to_owned()),
        ..AppState::default()
    };
    assert!(!state.apply_tmux_sessions_result("old-host", Some(0), b"old\n", b""));
    assert_eq!(state.stage, Stage::Loading);

    let (sessions, error) = parse_tmux_sessions_result(Some(0), b" b\na\nb\nbad/name\n\n", b"");
    assert_eq!(sessions, vec!["a", "b"]);
    assert_eq!(error, None);

    let (sessions, error) = parse_tmux_sessions_result(
        Some(1),
        b"",
        b"no server running on /tmp/tmux-1000/default\n",
    );
    assert!(sessions.is_empty());
    assert_eq!(error, None);

    let (_, error) = parse_tmux_sessions_result(Some(255), b"", b"ssh: timed out\n");
    assert_eq!(
        error.as_deref(),
        Some("Could not list tmux sessions: ssh: timed out")
    );
}

#[test]
fn session_validation_rejects_empty_and_disallowed_characters() {
    assert!(valid_session("work.2-prod_test"));
    assert!(!valid_session(""));
    assert!(!valid_session("two words"));
    assert!(!valid_session("shell;rm"));

    let mut state = AppState::default();
    state.stage = Stage::SessionInput;
    state.session.clear();
    state.handle(Input::Character('/'));
    assert!(state.session.is_empty());
    assert!(state.error.is_some());
}

#[test]
fn command_spec_has_separate_arguments_and_tab_name() {
    let state = AppState {
        host: Some("prod".to_owned()),
        backend: Backend::Zellij,
        session: "work-2".to_owned(),
        connector: "/opt/bin/connector".to_owned(),
        ..AppState::default()
    };

    assert_eq!(
        state.command_spec().unwrap(),
        CommandSpec {
            program: "/opt/bin/connector".to_owned(),
            args: vec![
                "--host",
                "prod",
                "--backend",
                "zellij",
                "--session",
                "work-2"
            ]
            .into_iter()
            .map(str::to_owned)
            .collect(),
            tab_name: "prod/work-2".to_owned(),
        }
    );
}

#[test]
fn workspace_validation_and_worker_names_are_safe_and_deterministic() {
    assert!(valid_workspace("project.2-prod_test"));
    assert!(!valid_workspace(""));
    assert!(!valid_workspace("project/work"));
    assert_eq!(worker_session_name("project", 1), "zr-project-p0001");
    assert_eq!(worker_session_name("project", 42), "zr-project-p0042");
}

#[test]
fn tmux_worker_discovers_and_connects_to_existing_workspace_root() {
    let mut state = AppState {
        stage: Stage::BackendSelection,
        host: Some("prod".to_owned()),
        backend: Backend::TmuxWorker,
        connector: "/opt/bin/connector".to_owned(),
        ..AppState::default()
    };
    assert_eq!(
        state.handle(Input::Enter),
        Effect::DiscoverTmuxSessions {
            host: "prod".to_owned()
        }
    );
    state.apply_tmux_sessions_result(
        "prod",
        Some(0),
        b"zr-project-p0001\nzr-project-p0002\nzr-other-p0001\nordinary\n",
        b"",
    );
    assert_eq!(
        state.tmux_sessions,
        vec!["zr-other-p0001", "zr-project-p0001"]
    );
    assert_eq!(
        state.handle(Input::Enter),
        Effect::Connect(CommandSpec {
            program: "/opt/bin/connector".to_owned(),
            args: [
                "--host",
                "prod",
                "--backend",
                "tmux-worker",
                "--session",
                "zr-other-p0001",
            ]
            .into_iter()
            .map(str::to_owned)
            .collect(),
            tab_name: "prod/zr-other-p0001".to_owned(),
        })
    );
}

#[test]
fn tmux_worker_selector_offers_new_workspace_and_root_parser_is_strict() {
    assert_eq!(worker_workspace_root("zr-project-p0001"), Some("project"));
    assert_eq!(worker_workspace_root("zr-project-p001"), None);
    assert_eq!(worker_workspace_root("zr-project-p0002"), None);
    assert_eq!(worker_workspace_root("project"), None);

    let mut state = AppState {
        stage: Stage::Loading,
        host: Some("prod".to_owned()),
        backend: Backend::TmuxWorker,
        ..AppState::default()
    };
    state.apply_tmux_sessions_result("prod", Some(0), b"zr-project-p0002\n", b"");
    assert!(state.tmux_sessions.is_empty());
    assert_eq!(state.handle(Input::Enter), Effect::Render);
    assert_eq!(state.stage, Stage::WorkspaceInput);
    assert_eq!(state.workspace, "work");

    let mut failed_discovery = AppState {
        stage: Stage::Loading,
        host: Some("prod".to_owned()),
        backend: Backend::TmuxWorker,
        ..AppState::default()
    };
    failed_discovery.apply_tmux_sessions_result("prod", Some(255), b"", b"ssh: timed out\n");
    assert_eq!(failed_discovery.stage, Stage::TmuxSessionSelection);
    assert!(failed_discovery.error.is_some());
    assert_eq!(failed_discovery.handle(Input::Enter), Effect::Render);
    assert_eq!(failed_discovery.stage, Stage::WorkspaceInput);
}

#[test]
fn tmux_worker_workspace_connects_with_first_worker() {
    let mut state = AppState {
        stage: Stage::WorkspaceInput,
        host: Some("prod".to_owned()),
        backend: Backend::TmuxWorker,
        connector: "/opt/bin/connector".to_owned(),
        workspace: "project".to_owned(),
        ..AppState::default()
    };
    assert_eq!(
        state.handle(Input::Enter),
        Effect::ConnectWorkspace(CommandSpec {
            program: "/opt/bin/connector".to_owned(),
            args: [
                "--host",
                "prod",
                "--backend",
                "tmux-worker",
                "--session",
                "zr-project-p0001",
            ]
            .into_iter()
            .map(str::to_owned)
            .collect(),
            tab_name: "prod/project".to_owned(),
        })
    );
}

#[test]
fn shell_command_spec_omits_session_and_uses_backend_tab_name() {
    let state = AppState {
        host: Some("prod".to_owned()),
        backend: Backend::Shell,
        session: "not a valid session".to_owned(),
        connector: "/opt/bin/connector".to_owned(),
        ..AppState::default()
    };

    assert_eq!(
        state.command_spec().unwrap(),
        CommandSpec {
            program: "/opt/bin/connector".to_owned(),
            args: vec!["--host", "prod", "--backend", "shell"]
                .into_iter()
                .map(str::to_owned)
                .collect(),
            tab_name: "prod/shell".to_owned(),
        }
    );
}

#[test]
fn typed_names_keep_to_allowed_characters() {
    let mut state = AppState::default();
    state.stage = Stage::WorkspaceInput;
    state.workspace = "ab".to_owned();
    for c in ['c', ' ', ';', '.', 'é', '-'] {
        state.handle(Input::Character(c));
    }
    assert_eq!(state.workspace, "abc.-");
    state.handle(Input::Backspace);
    assert_eq!(state.workspace, "abc.");
    assert!(valid_workspace(&state.workspace));

    state.stage = Stage::SessionInput;
    state.session = String::new();
    for c in ['x', '\t', '9', '_'] {
        state.handle(Input::Character(c));
    }
    assert_eq!(state.session, "x9_");
}

#[test]
fn connect_effects_carry_the_command_of_the_state() {
    let mut state = AppState::default();
    state.set_hosts(vec!["prod".to_owned()]);
    state.handle(Input::Enter);
    state.backend = Backend::Shell;
    match state.handle(Input::Enter) {
        Effect::Connect(spec) => assert_eq!(Ok(spec), state.command_spec()),
        other => panic!("unexpected effect {other:?}"),
    }
    assert_eq!(state.stage, Stage::BackendSelection);
}
