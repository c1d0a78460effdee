use zellij_ssh_manager::order::sorted_unique;
use zellij_ssh_manager::state::{
    parse_tmux_sessions_output, valid_session, worker_session_name, worker_workspace_root,
    AppState, Backend, Effect, Input, Stage,
};
use zellij_ssh_manager::text::{
    chars_of, contains_chars, decimal_chars, signed_decimal_chars, split_lines, trim_chars,
    zero_padded_chars,
};

fn chars(s: &str) -> Vec<char> {
    s.chars().collect()
}

fn text(v: &[char]) -> String {
    v.iter().collect()
}

#[test]
fn lines_split_like_str_lines() {
    let cases = ["", "a", "a\n", "a\nb", "a\r\nb\r\n", "\n\n", "a\r", "x\ny\n\nz"];
    for case in cases {
        let got: Vec<String> = split_lines(&chars(case)).iter().map(|l| text(l)).collect();
        let want: Vec<String> = case.lines().map(str::to_owned).collect();
        assert_eq!(got, want, "{case:?}");
    }
}

#[test]
fn trim_matches_str_trim() {
    for case in ["", "  ", " a ", "\t a b\n", "\u{a0}x\u{2003}", "x"] {
        assert_eq!(text(&trim_chars(&chars(case))), case.trim(), "{case:?}");
    }
}

#[test]
fn numbers_format_in_decimal() {
    assert_eq!(text(&decimal_chars(0)), "0");
    assert_eq!(text(&decimal_chars(1234567890)), "1234567890");
    assert_eq!(text(&signed_decimal_chars(-42)), "-42");
    assert_eq!(text(&signed_decimal_chars(i32::MIN)), i32::MIN.to_string());
    assert_eq!(text(&zero_padded_chars(7, 4)), "0007");
    assert_eq!(text(&zero_padded_chars(123456, 4)), "123456");
}

#[test]
fn substrings_are_found() {
    assert!(contains_chars(&chars("no server running"), &chars("server")));
    assert!(contains_chars(&chars("abc"), &chars("")));
    assert!(!contains_chars(&chars("ab"), &chars("abc")));
    assert!(!contains_chars(&chars("abc"), &chars("ac")));
    assert_eq!(chars_of("héllo"), chars("héllo"));
}

#[test]
fn sorting_sessions_removes_repeats() {
    let items: Vec<String> = ["b", "a", "b", "ab", "B", "é", "a"]
        .iter()
        .map(|s| s.to_string())
        .collect();
    let mut want = items.clone();
    want.sort();
    want.dedup();
    assert_eq!(sorted_unique(items), want);
}

#[test]
fn tmux_failures_are_reported() {
    let (sessions, error) = parse_tmux_sessions_output(None, "", "");
    assert!(sessions.is_empty());
    assert_eq!(
        error.as_deref(),
        Some("Could not list tmux sessions: ssh did not report an exit status")
    );
    let (_, error) = parse_tmux_sessions_output(Some(-3), "", "  \n");
    assert_eq!(
        error.as_deref(),
        Some("Could not list tmux sessions: ssh exited with status -3")
    );
    let (_, error) = parse_tmux_sessions_output(Some(2), "  from stdout  \n", "\n");
    assert_eq!(
        error.as_deref(),
        Some("Could not list tmux sessions: from stdout")
    );
    let long = "x".repeat(150);
    let (_, error) = parse_tmux_sessions_output(Some(2), "", &long);
    assert_eq!(
        error,
        Some(format!("Could not list tmux sessions: {}", "x".repeat(100)))
    );
    let (sessions, error) = parse_tmux_sessions_output(Some(1), "No Server Running here", "");
    assert!(sessions.is_empty());
    assert_eq!(error, None);
    let (_, error) = parse_tmux_sessions_output(Some(2), "", "no server running");
    assert!(error.is_some());
}

#[test]
fn worker_names_round_trip_through_the_root_parser() {
    for workspace in ["a", "proj.2", "x-y_z"] {
        assert_eq!(worker_workspace_root(&worker_session_name(workspace, 1)), Some(workspace));
        for pane in [0, 2, 10, 1000, 10001, u32::MAX] {
            assert_eq!(worker_workspace_root(&worker_session_name(workspace, pane)), None);
        }
        assert!(valid_session(&worker_session_name(workspace, 77)));
    }
    assert_eq!(worker_workspace_root("zr--p0001"), None);
    assert_eq!(worker_workspace_root("zr-a/b-p0001"), None);
}

#[test]
fn cancel_closes_every_screen() {
    for stage in [
        Stage::HostSelection,
        Stage::BackendSelection,
        Stage::Loading,
        Stage::TmuxSessionSelection,
        Stage::SessionInput,
        Stage::WorkspaceInput,
    ] {
        let mut state = AppState::default();
        state.stage = stage;
        assert_eq!(state.handle(Input::Cancel), Effect::Close);
    }
}

#[test]
fn selection_wraps_at_both_ends_and_with_huge_indices() {
    let mut state = AppState::default();
    state.set_hosts(vec!["a".into(), "b".into(), "c".into()]);
    state.selected = 2;
    state.handle(Input::Down);
    assert_eq!(state.selected, 0);
    state.handle(Input::Up);
    assert_eq!(state.selected, 2);
    state.selected = usize::MAX;
    state.handle(Input::Down);
    assert_eq!(state.selected, 0);
    state.selected = 7;
    state.stage = Stage::TmuxSessionSelection;
    state.handle(Input::Down);
    assert_eq!(state.selected, 0);
}

#[test]
fn backspace_and_filtering_reset_the_selection() {
    let mut state = AppState::default();
    state.set_hosts(vec!["web".into(), "db".into()]);
    state.selected = 1;
    state.handle(Input::Character('\u{7}'));
    assert_eq!(state.filter, "");
    assert_eq!(state.selected, 1);
    state.handle(Input::Character('W'));
    assert_eq!(state.selected, 0);
    assert_eq!(state.filtered_hosts(), vec!["web"]);
    state.handle(Input::Backspace);
    state.handle(Input::Backspace);
    assert_eq!(state.filter, "");
    assert_eq!(state.filtered_hosts(), vec!["web", "db"]);
}

#[test]
fn tmux_without_host_is_an_error() {
    let mut state = AppState::default();
    state.stage = Stage::BackendSelection;
    assert_eq!(state.handle(Input::Enter), Effect::Render);
    assert_eq!(state.error.as_deref(), Some("No SSH host selected"));
    state.backend = Backend::Shell;
    assert_eq!(state.handle(Input::Enter), Effect::Render);
    assert_eq!(state.error.as_deref(), Some("No SSH host selected"));
    state.handle(Input::Up);
    assert_eq!(state.error, None);
}

#[test]
fn invalid_names_are_refused_on_enter() {
    let mut state = AppState {
        stage: Stage::SessionInput,
        host: Some("prod".to_owned()),
        session: String::new(),
        ..AppState::default()
    };
    assert_eq!(state.handle(Input::Enter), Effect::Render);
    assert_eq!(
        state.error.as_deref(),
        Some("Session must match [A-Za-z0-9_.-]+")
    );
    state.stage = Stage::WorkspaceInput;
    state.workspace = String::new();
    assert_eq!(state.handle(Input::Enter), Effect::Render);
    assert_eq!(
        state.error.as_deref(),
        Some("Workspace must match [A-Za-z0-9_.-]+")
    );
    state.handle(Input::Character(' '));
    assert_eq!(
        state.error.as_deref(),
        Some("Workspace may only contain A-Z, a-z, 0-9, _, . and -")
    );
    state.handle(Input::Character('w'));
    assert_eq!(state.workspace, "w");
    state.handle(Input::Backspace);
    assert_eq!(state.workspace, "");
}

#[test]
fn tmux_backend_keeps_only_workspace_roots_for_workers() {
    let mut state = AppState {
        stage: Stage::Loading,
        host: Some("prod".to_owned()),
        backend: Backend::TmuxWorker,
        ..AppState::default()
    };
    assert!(state.apply_tmux_sessions_result("prod", Some(0), b"zr-b-p0001\nplain\nzr-a-p0001\n", b""));
    assert_eq!(state.tmux_sessions, vec!["zr-a-p0001", "zr-b-p0001"]);
    assert_eq!(state.selected, 0);
}

#[test]
fn lossy_output_still_parses() {
    let (sessions, error) =
        zellij_ssh_manager::state::parse_tmux_sessions_result(Some(0), b"ok\n\xff\xfe\nfine\n", b"");
    assert_eq!(sessions, vec!["fine", "ok"]);
    assert_eq!(error, None);
}
