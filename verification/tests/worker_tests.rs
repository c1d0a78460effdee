use zellij_ssh_manager::worker::{
    next_worker_index, split_words, worker_command, worker_index, Reservation,
};

fn strings(items: &[&str]) -> Vec<String> {
    items.iter().map(|s| s.to_string()).collect()
}

#[test]
fn words_are_split_on_any_whitespace() {
    assert_eq!(split_words("  a  b\tc\u{3000}d\u{85}e "), vec!["a", "b", "c", "d", "e"]);
    assert_eq!(split_words(""), Vec::<String>::new());
    assert_eq!(split_words(" \t\n"), Vec::<String>::new());
    assert_eq!(split_words("x\u{a0}y"), vec!["x", "y"]);
}

#[test]
fn worker_sessions_give_their_workspace_and_index() {
    assert_eq!(worker_index("zr-proj-p0001"), Some(("proj".to_owned(), 1)));
    assert_eq!(worker_index("zr-proj-p0042"), Some(("proj".to_owned(), 42)));
    assert_eq!(worker_index("zr-a-p1-p12345"), Some(("a-p1".to_owned(), 12345)));
    assert_eq!(
        worker_index("zr-big-p99999999999999999999999"),
        Some(("big".to_owned(), 1 << 32))
    );
    assert_eq!(worker_index("zr-proj-p"), None);
    assert_eq!(worker_index("zr--p0001"), None);
    assert_eq!(worker_index("zr-bad name-p0001"), None);
    assert_eq!(worker_index("xx-proj-p0001"), None);
    assert_eq!(worker_index("zr-proj-q0001"), None);
    assert_eq!(worker_index("main"), None);
}

#[test]
fn worker_commands_name_host_and_workspace() {
    assert_eq!(
        worker_command("/opt/bin/connector --host prod --backend tmux-worker --session zr-proj-p0003"),
        Some(("prod".to_owned(), "proj".to_owned()))
    );
    assert_eq!(
        worker_command("connector --session zr-w-p0001 --backend tmux-worker --host h1"),
        Some(("h1".to_owned(), "w".to_owned()))
    );
    assert_eq!(
        worker_command("connector --host prod --backend tmux --session zr-proj-p0001"),
        None
    );
    assert_eq!(
        worker_command("connector --host prod --backend tmux-worker --session work"),
        None
    );
    assert_eq!(worker_command("connector --host prod --backend tmux-worker"), None);
    assert_eq!(worker_command("connector --backend tmux-worker --session zr-w-p1"), None);
    assert_eq!(worker_command("bash"), None);
}

#[test]
fn next_index_clears_listed_and_reserved_workers() {
    let listed = strings(&["zr-w-p0001", "zr-w-p0007", "zr-x-p0040", "main"]);
    assert_eq!(next_worker_index(&listed, &vec![], "h", "w"), Some(8));
    assert_eq!(next_worker_index(&listed, &vec![], "h", "x"), Some(41));
    assert_eq!(next_worker_index(&listed, &vec![], "h", "new"), Some(1));
    let reserved = vec![
        Reservation { host: "h".to_owned(), workspace: "w".to_owned(), index: 9 },
        Reservation { host: "other".to_owned(), workspace: "w".to_owned(), index: 50 },
        Reservation { host: "h".to_owned(), workspace: "y".to_owned(), index: 60 },
    ];
    assert_eq!(next_worker_index(&listed, &reserved, "h", "w"), Some(10));
    assert_eq!(next_worker_index(&listed, &reserved, "other", "w"), Some(51));
    let full = strings(&["zr-w-p4294967295"]);
    assert_eq!(next_worker_index(&full, &vec![], "h", "w"), None);
    let huge = strings(&["zr-w-p99999999999999"]);
    assert_eq!(next_worker_index(&huge, &vec![], "h", "w"), None);
    let reserved_full = vec![Reservation {
        host: "h".to_owned(),
        workspace: "w".to_owned(),
        index: u32::MAX,
    }];
    assert_eq!(next_worker_index(&vec![], &reserved_full, "h", "w"), None);
}
