//! The picker's state machine: host filtering, backend choice, tmux session
//! discovery and the connector commands it finally asks for.
use vstd::prelude::*;
use crate::laws::{session_chars_only, typed_change};
use crate::order::{sorted_set_of, sorted_unique};
use crate::text::{
    ascii_lower_chars, char_is_control, chars_of, clip, concat, contains_chars, decimal,
    decode_utf8_lossy, is_control, lines, lower, occurs_in, push_chars, push_str, seqs_of,
    signed_decimal, signed_decimal_chars, split_lines, str_equal, str_views, string_of_vec,
    sub_chars, trim, trim_chars, utf8_lossy, views, zero_pad, zero_padded_chars,
};

verus! {

/// How the connector reaches the remote host.
#[derive(Debug, Clone, Copy, PartialEq, Eq, Structural)]
pub enum Backend {
    Tmux,
    TmuxWorker,
    Zellij,
    Shell,
}

/// The name the connector knows a backend by.
pub open spec fn backend_name(b: Backend) -> Seq<char> {
    match b {
        Backend::Tmux => "tmux"@,
        Backend::TmuxWorker => "tmux-worker"@,
        Backend::Zellij => "zellij"@,
        Backend::Shell => "shell"@,
    }
}

/// The backend shown above `b` in the list (the list wraps around).
pub open spec fn previous_backend(b: Backend) -> Backend {
    match b {
        Backend::Tmux => Backend::Shell,
        Backend::TmuxWorker => Backend::Tmux,
        Backend::Zellij => Backend::TmuxWorker,
        Backend::Shell => Backend::Zellij,
    }
}

/// The backend shown below `b` in the list (the list wraps around).
pub open spec fn next_backend(b: Backend) -> Backend {
    match b {
        Backend::Tmux => Backend::TmuxWorker,
        Backend::TmuxWorker => Backend::Zellij,
        Backend::Zellij => Backend::Shell,
        Backend::Shell => Backend::Tmux,
    }
}

impl Backend {
    /// The name the connector knows this backend by.
    pub fn as_str(self) -> (r: &'static str)
        ensures
            r@ == backend_name(self),
    {
        match self {
            Backend::Tmux => "tmux",
            Backend::TmuxWorker => "tmux-worker",
            Backend::Zellij => "zellij",
            Backend::Shell => "shell",
        }
    }

    fn previous(self) -> (r: Backend)
        ensures
            r == previous_backend(self),
    {
        match self {
            Backend::Tmux => Backend::Shell,
            Backend::TmuxWorker => Backend::Tmux,
            Backend::Zellij => Backend::TmuxWorker,
            Backend::Shell => Backend::Zellij,
        }
    }

    fn next(self) -> (r: Backend)
        ensures
            r == next_backend(self),
    {
        match self {
            Backend::Tmux => Backend::TmuxWorker,
            Backend::TmuxWorker => Backend::Zellij,
            Backend::Zellij => Backend::Shell,
            Backend::Shell => Backend::Tmux,
        }
    }
}

/// The screen the picker shows.
#[derive(Debug, Clone, Copy, PartialEq, Eq, Structural)]
pub enum Stage {
    HostSelection,
    BackendSelection,
    Loading,
    TmuxSessionSelection,
    SessionInput,
    WorkspaceInput,
}

/// A key press, as the picker understands it.
#[derive(Debug, Clone, Copy, PartialEq, Eq)]
pub enum Input {
    Character(char),
    Backspace,
    Up,
    Down,
    Enter,
    Escape,
    Cancel,
}

/// A command for the connector: program, separate arguments, and the name of
/// the tab it runs in.
#[derive(Debug, Clone, PartialEq, Eq)]
pub struct CommandSpec {
    pub program: String,
    pub args: Vec<String>,
    pub tab_name: String,
}

/// The meaning of a [`CommandSpec`].
pub struct CommandView {
    pub program: Seq<char>,
    pub args: Seq<Seq<char>>,
    pub tab_name: Seq<char>,
}

impl View for CommandSpec {
    type V = CommandView;

    open spec fn view(&self) -> CommandView {
        CommandView { program: self.program@, args: views(self.args@), tab_name: self.tab_name@ }
    }
}

/// What the surrounding plugin has to do after an input.
#[derive(Debug, Clone, PartialEq, Eq)]
pub enum Effect {
    Render,
    Close,
    DiscoverTmuxSessions { host: String },
    Connect(CommandSpec),
    ConnectWorkspace(CommandSpec),
}

/// The meaning of an [`Effect`].
pub enum EffectView {
    Render,
    Close,
    DiscoverTmuxSessions(Seq<char>),
    Connect(CommandView),
    ConnectWorkspace(CommandView),
}

impl View for Effect {
    type V = EffectView;

    open spec fn view(&self) -> EffectView {
        match self {
            Effect::Render => EffectView::Render,
            Effect::Close => EffectView::Close,
            Effect::DiscoverTmuxSessions { host } => EffectView::DiscoverTmuxSessions(host@),
            Effect::Connect(spec) => EffectView::Connect(spec@),
            Effect::ConnectWorkspace(spec) => EffectView::ConnectWorkspace(spec@),
        }
    }
}

/// A character allowed in a session or workspace name: `[A-Za-z0-9_.-]`.
pub open spec fn session_char(c: char) -> bool {
    ('A' <= c && c <= 'Z') || ('a' <= c && c <= 'z') || ('0' <= c && c <= '9') || c == '_' || c
        == '.' || c == '-'
}

/// A safe session or workspace name: `[A-Za-z0-9_.-]+`.
pub open spec fn valid_name(s: Seq<char>) -> bool {
    s.len() > 0 && forall|i: int| 0 <= i < s.len() ==> session_char(#[trigger] s[i])
}

fn is_session_character(character: char) -> (r: bool)
    ensures
        r == session_char(character),
{
    ('A' <= character && character <= 'Z') || ('a' <= character && character <= 'z') || ('0'
        <= character && character <= '9') || character == '_' || character == '.' || character
        == '-'
}

pub(crate) fn valid_name_chars(s: &[char]) -> (r: bool)
    ensures
        r == valid_name(s@),
{
    let n = s.len();
    if n == 0 {
        return false;
    }
    let mut i: usize = 0;
    while i < n
        invariant
            n == s@.len(),
            0 <= i <= n,
            forall|k: int| 0 <= k < i ==> session_char(#[trigger] s@[k]),
        decreases n - i,
    {
        if !is_session_character(s[i]) {
            return false;
        }
        i = i + 1;
    }
    true
}

/// Whether `session` is a safe session name: `[A-Za-z0-9_.-]+`.
pub fn valid_session(session: &str) -> (r: bool)
    ensures
        r == valid_name(session@),
{
    let chars = chars_of(session);
    valid_name_chars(chars.as_slice())
}

/// Whether `workspace` is a safe workspace name; the rule is that of sessions.
pub fn valid_workspace(workspace: &str) -> (r: bool)
    ensures
        r == valid_name(workspace@),
{
    valid_session(workspace)
}

/// The tmux session of pane `pane` of a workspace: `zr-<workspace>-p<pane>`,
/// the pane number padded with zeros to four digits.
pub open spec fn worker_name(workspace: Seq<char>, pane: nat) -> Seq<char> {
    "zr-"@ + workspace + "-p"@ + zero_pad(decimal(pane), 4)
}

/// `format!("zr-{workspace}-p{pane_id:04}")`.
pub fn worker_session_name(workspace: &str, pane_id: u32) -> (r: String)
    ensures
        r@ == worker_name(workspace@, pane_id as nat),
{
    let mut r = concat("zr-", workspace);
    push_str(&mut r, "-p");
    let digits = zero_padded_chars(pane_id as u64, 4);
    push_chars(&mut r, digits.as_slice());
    r
}

/// The workspace whose first worker session is `session`, if `session` is one.
pub open spec fn worker_root(session: Seq<char>) -> Option<Seq<char>> {
    let p = "zr-"@;
    let q = "-p0001"@;
    if session.len() >= p.len() + q.len() && session.take(p.len() as int) == p && session.skip(
        session.len() - q.len(),
    ) == q && valid_name(session.subrange(p.len() as int, session.len() - q.len())) {
        Some(session.subrange(p.len() as int, session.len() - q.len()))
    } else {
        None
    }
}

pub(crate) fn has_prefix(s: &[char], p: &[char]) -> (r: bool)
    ensures
        r == (p@.len() <= s@.len() && s@.take(p@.len() as int) == p@),
{
    let n = p.len();
    if n > s.len() {
        return false;
    }
    let mut i: usize = 0;
    while i < n
        invariant
            n == p@.len(),
            n <= s@.len(),
            0 <= i <= n,
            forall|k: int| 0 <= k < i ==> s@[k] == p@[k],
        decreases n - i,
    {
        if s[i] != p[i] {
            assert(s@.take(n as int)[i as int] != p@[i as int]);
            return false;
        }
        i = i + 1;
    }
    assert(s@.take(n as int) =~= p@);
    true
}

fn has_suffix(s: &[char], q: &[char]) -> (r: bool)
    ensures
        r == (q@.len() <= s@.len() && s@.skip(s@.len() - q@.len()) == q@),
{
    let n = q.len();
    let m = s.len();
    if n > m {
        return false;
    }
    let mut i: usize = 0;
    while i < n
        invariant
            n == q@.len(),
            m == s@.len(),
            n <= m,
            0 <= i <= n,
            forall|k: int| 0 <= k < i ==> s@[m - n + k] == q@[k],
        decreases n - i,
    {
        if s[m - n + i] != q[i] {
            assert(s@.skip(m - n)[i as int] != q@[i as int]);
            return false;
        }
        i = i + 1;
    }
    assert(s@.skip(m - n) =~= q@);
    true
}

/// The workspace of a first worker session `zr-<workspace>-p0001`, or `None`
/// when `session` is not one (or the workspace name is not safe).
pub fn worker_workspace_root(session: &str) -> (r: Option<&str>)
    ensures
        match r {
            Some(w) => worker_root(session@) == Some(w@),
            None => worker_root(session@) is None,
        },
{
    let chars = chars_of(session);
    let p = chars_of("zr-");
    let q = chars_of("-p0001");
    if !has_prefix(chars.as_slice(), p.as_slice()) {
        return None;
    }
    if chars.len() - p.len() < q.len() {
        return None;
    }
    if !has_suffix(chars.as_slice(), q.as_slice()) {
        return None;
    }
    let end = chars.len() - q.len();
    let name = sub_chars(chars.as_slice(), p.len(), end);
    if !valid_name_chars(name.as_slice()) {
        return None;
    }
    let w = session.substring_char(p.len(), end);
    Some(w)
}


/// The picker's state.
#[derive(Debug)]
pub struct AppState {
    pub stage: Stage,
    pub hosts: Vec<String>,
    pub filter: String,
    pub selected: usize,
    pub host: Option<String>,
    pub backend: Backend,
    pub session: String,
    pub workspace: String,
    pub tmux_sessions: Vec<String>,
    pub connector: String,
    pub error: Option<String>,
}

/// The meaning of an [`AppState`]: its strings as character sequences.
#[verifier::ext_equal]
pub struct AppView {
    pub stage: Stage,
    pub hosts: Seq<Seq<char>>,
    pub filter: Seq<char>,
    pub selected: usize,
    pub host: Option<Seq<char>>,
    pub backend: Backend,
    pub session: Seq<char>,
    pub workspace: Seq<char>,
    pub tmux_sessions: Seq<Seq<char>>,
    pub connector: Seq<char>,
    pub error: Option<Seq<char>>,
}

/// The view of an optional string.
pub open spec fn opt_view(o: Option<String>) -> Option<Seq<char>> {
    match o {
        Some(s) => Some(s@),
        None => None,
    }
}

impl View for AppState {
    type V = AppView;

    open spec fn view(&self) -> AppView {
        AppView {
            stage: self.stage,
            hosts: views(self.hosts@),
            filter: self.filter@,
            selected: self.selected,
            host: opt_view(self.host),
            backend: self.backend,
            session: self.session@,
            workspace: self.workspace@,
            tmux_sessions: views(self.tmux_sessions@),
            connector: self.connector@,
            error: opt_view(self.error),
        }
    }
}

/// The state a picker starts in.
pub open spec fn initial_view() -> AppView {
    AppView {
        stage: Stage::HostSelection,
        hosts: seq![],
        filter: seq![],
        selected: 0,
        host: None,
        backend: Backend::Tmux,
        session: "work"@,
        workspace: "work"@,
        tmux_sessions: seq![],
        connector: "zellij-ssh-connector"@,
        error: None,
    }
}

impl Default for AppState {
    fn default() -> (r: Self)
        ensures
            r@ == initial_view(),
    {
        AppState {
            stage: Stage::HostSelection,
            hosts: Vec::new(),
            filter: String::new(),
            selected: 0,
            host: None,
            backend: Backend::Tmux,
            session: "work".to_owned(),
            workspace: "work".to_owned(),
            tmux_sessions: Vec::new(),
            connector: "zellij-ssh-connector".to_owned(),
            error: None,
        }
    }
}

/// The view of a command, or of the message that refuses it.
pub open spec fn command_result_view(r: Result<CommandSpec, String>) -> Result<CommandView, Seq<char>> {
    match r {
        Ok(c) => Ok(c@),
        Err(e) => Err(e@),
    }
}

/// The connector command for the chosen host, backend and session.
/// The shell backend takes no session; the others need a safe one.
pub open spec fn command_of(s: AppView) -> Result<CommandView, Seq<char>> {
    match s.host {
        None => Err("No SSH host selected"@),
        Some(h) => if s.backend == Backend::Shell {
            Ok(
                CommandView {
                    program: s.connector,
                    args: seq!["--host"@, h, "--backend"@, backend_name(s.backend)],
                    tab_name: h + "/shell"@,
                },
            )
        } else if !valid_name(s.session) {
            Err("Session must match [A-Za-z0-9_.-]+"@)
        } else {
            Ok(
                CommandView {
                    program: s.connector,
                    args: seq![
                        "--host"@,
                        h,
                        "--backend"@,
                        backend_name(s.backend),
                        "--session"@,
                        s.session,
                    ],
                    tab_name: h + "/"@ + s.session,
                },
            )
        },
    }
}

/// The connector command that opens the first worker of the chosen workspace.
pub open spec fn workspace_command_of(s: AppView) -> Result<CommandView, Seq<char>> {
    match s.host {
        None => Err("No SSH host selected"@),
        Some(h) => if !valid_name(s.workspace) {
            Err("Workspace must match [A-Za-z0-9_.-]+"@)
        } else {
            Ok(
                CommandView {
                    program: s.connector,
                    args: seq![
                        "--host"@,
                        h,
                        "--backend"@,
                        backend_name(Backend::TmuxWorker),
                        "--session"@,
                        worker_name(s.workspace, 1),
                    ],
                    tab_name: h + "/"@ + s.workspace,
                },
            )
        },
    }
}

/// A host matches the filter when the filter occurs in it, ignoring ASCII case.
pub open spec fn host_matches(filter: Seq<char>) -> spec_fn(Seq<char>) -> bool {
    |h: Seq<char>| occurs_in(lower(h), lower(filter))
}

/// The hosts that match the filter, in their order.
pub open spec fn filtered(hosts: Seq<Seq<char>>, filter: Seq<char>) -> Seq<Seq<char>> {
    hosts.filter(host_matches(filter))
}

impl AppState {
    /// Replaces the host list and selects its first entry.
    pub fn set_hosts(&mut self, hosts: Vec<String>)
        ensures
            final(self)@ == (AppView { hosts: views(hosts@), selected: 0, ..old(self)@ }),
    {
        self.hosts = hosts;
        self.selected = 0;
    }

    /// The hosts that contain the filter, ignoring ASCII case, in their order.
    pub fn filtered_hosts(&self) -> (r: Vec<&str>)
        ensures
            str_views(r@) == filtered(self@.hosts, self@.filter),
    {
        let fc = chars_of(self.filter.as_str());
        let filter = ascii_lower_chars(fc.as_slice());
        let ghost hv = views(self.hosts@);
        let ghost pred = host_matches(self@.filter);
        let n = self.hosts.len();
        let mut r: Vec<&str> = Vec::new();
        let mut i: usize = 0;
        while i < n
            invariant
                n == self.hosts@.len(),
                hv == views(self.hosts@),
                pred == host_matches(self@.filter),
                filter@ == lower(self@.filter),
                0 <= i <= n,
                str_views(r@) == hv.take(i as int).filter(pred),
            decreases n - i,
        {
            let host = self.hosts[i].as_str();
            let hc = chars_of(host);
            let lowered = ascii_lower_chars(hc.as_slice());
            let keep = contains_chars(lowered.as_slice(), filter.as_slice());
            assert(hv.take(i + 1) =~= hv.take(i as int).push(hv[i as int]));
            proof {
                hv.take(i as int).lemma_filter_push(hv[i as int], pred);
            }
            let ghost old_r = r@;
            if keep {
                r.push(host);
                assert(str_views(r@) =~= str_views(old_r).push(host@));
            }
            i = i + 1;
        }
        assert(hv.take(n as int) =~= hv);
        r
    }

    /// The connector command for the chosen host, backend and session, or the
    /// message that says why there is none.
    pub fn command_spec(&self) -> (r: Result<CommandSpec, String>)
        ensures
            command_result_view(r) == command_of(self@),
    {
        let host = match &self.host {
            Some(h) => h,
            None => {
                return Err("No SSH host selected".to_owned());
            },
        };
        if self.backend == Backend::Shell {
            let mut args: Vec<String> = Vec::new();
            args.push("--host".to_owned());
            args.push(host.clone());
            args.push("--backend".to_owned());
            args.push(self.backend.as_str().to_owned());
            let spec = CommandSpec {
                program: self.connector.clone(),
                args,
                tab_name: concat(host.as_str(), "/shell"),
            };
            assert(views(spec.args@) =~= seq!["--host"@, host@, "--backend"@, backend_name(self.backend)]);
            return Ok(spec);
        }
        if !valid_session(self.session.as_str()) {
            return Err("Session must match [A-Za-z0-9_.-]+".to_owned());
        }
        let mut args: Vec<String> = Vec::new();
        args.push("--host".to_owned());
        args.push(host.clone());
        args.push("--backend".to_owned());
        args.push(self.backend.as_str().to_owned());
        args.push("--session".to_owned());
        args.push(self.session.clone());
        let mut tab_name = concat(host.as_str(), "/");
        push_str(&mut tab_name, self.session.as_str());
        let spec = CommandSpec { program: self.connector.clone(), args, tab_name };
        assert(views(spec.args@) =~= seq![
            "--host"@,
            host@,
            "--backend"@,
            backend_name(self.backend),
            "--session"@,
            self.session@,
        ]);
        Ok(spec)
    }

    /// The connector command that opens the first worker (`p0001`) of the
    /// chosen workspace, or the message that says why there is none.
    pub fn workspace_command_spec(&self) -> (r: Result<CommandSpec, String>)
        ensures
            command_result_view(r) == workspace_command_of(self@),
    {
        let host = match &self.host {
            Some(h) => h,
            None => {
                return Err("No SSH host selected".to_owned());
            },
        };
        if !valid_workspace(self.workspace.as_str()) {
            return Err("Workspace must match [A-Za-z0-9_.-]+".to_owned());
        }
        let worker = worker_session_name(self.workspace.as_str(), 1);
        let mut args: Vec<String> = Vec::new();
        args.push("--host".to_owned());
        args.push(host.clone());
        args.push("--backend".to_owned());
        args.push(Backend::TmuxWorker.as_str().to_owned());
        args.push("--session".to_owned());
        let ghost w = worker@;
        args.push(worker);
        let mut tab_name = concat(host.as_str(), "/");
        push_str(&mut tab_name, self.workspace.as_str());
        let spec = CommandSpec { program: self.connector.clone(), args, tab_name };
        assert(views(spec.args@) =~= seq![
            "--host"@,
            host@,
            "--backend"@,
            backend_name(Backend::TmuxWorker),
            "--session"@,
            w,
        ]);
        Ok(spec)
    }
}


/// `selected as isize`: the index read as a two's-complement signed number.
pub open spec fn wrapped_index(selected: usize) -> int {
    if selected <= isize::MAX {
        selected as int
    } else {
        selected as int - usize::MAX - 1
    }
}

/// `selected as isize + amount` stays within `isize`.
pub open spec fn step_in_range(selected: usize, amount: int) -> bool {
    isize::MIN <= wrapped_index(selected) + amount <= isize::MAX
}

/// `(selected as isize + amount).rem_euclid(count as isize) as usize`:
/// the selection moved by `amount`, wrapping around a list of `count` rows.
pub open spec fn stepped(selected: usize, amount: int, count: nat) -> usize {
    ((wrapped_index(selected) + amount) % (count as int)) as usize
}

/// How far an arrow key moves the selection.
pub open spec fn input_delta(input: Input) -> int {
    match input {
        Input::Up => -1,
        Input::Down => 1,
        _ => 0,
    }
}

/// The state with an error message set.
pub open spec fn with_error(s: AppView, e: Seq<char>) -> AppView {
    AppView { error: Some(e), ..s }
}

/// `s` with its last character removed, if it has one (`String::pop`).
pub open spec fn popped(s: Seq<char>) -> Seq<char> {
    if s.len() > 0 {
        s.drop_last()
    } else {
        s
    }
}

/// An input on the host list.
pub open spec fn host_step(s: AppView, input: Input) -> (AppView, EffectView) {
    match input {
        Input::Character(c) => if !char_is_control(c) {
            (AppView { filter: s.filter.push(c), selected: 0, ..s }, EffectView::Render)
        } else {
            (s, EffectView::Render)
        },
        Input::Backspace => (
            AppView { filter: popped(s.filter), selected: 0, ..s },
            EffectView::Render,
        ),
        Input::Up | Input::Down => {
            let count = filtered(s.hosts, s.filter).len();
            let selected = if count == 0 {
                0
            } else {
                stepped(s.selected, input_delta(input), count)
            };
            (AppView { selected, ..s }, EffectView::Render)
        },
        Input::Enter => {
            let f = filtered(s.hosts, s.filter);
            if s.selected < f.len() {
                (
                    AppView { host: Some(f[s.selected as int]), stage: Stage::BackendSelection, ..s },
                    EffectView::Render,
                )
            } else {
                (with_error(s, "No matching SSH host"@), EffectView::Render)
            }
        },
        Input::Escape | Input::Cancel => (s, EffectView::Close),
    }
}

/// The backend chosen by a letter key, if the letter names one.
pub open spec fn backend_for_key(c: char) -> Option<Backend> {
    if c == 's' || c == 'S' {
        Some(Backend::Shell)
    } else if c == 't' || c == 'T' {
        Some(Backend::Tmux)
    } else if c == 'w' || c == 'W' {
        Some(Backend::TmuxWorker)
    } else if c == 'z' || c == 'Z' {
        Some(Backend::Zellij)
    } else {
        None
    }
}

/// An input on the backend list.
pub open spec fn backend_step(s: AppView, input: Input) -> (AppView, EffectView) {
    match input {
        Input::Up => (AppView { backend: previous_backend(s.backend), ..s }, EffectView::Render),
        Input::Down => (AppView { backend: next_backend(s.backend), ..s }, EffectView::Render),
        Input::Character(c) => match backend_for_key(c) {
            Some(b) => (AppView { backend: b, ..s }, EffectView::Render),
            None => (s, EffectView::Render),
        },
        Input::Enter => if s.backend == Backend::Shell {
            match command_of(s) {
                Ok(c) => (s, EffectView::Connect(c)),
                Err(e) => (with_error(s, e), EffectView::Render),
            }
        } else if s.backend == Backend::Tmux || s.backend == Backend::TmuxWorker {
            match s.host {
                Some(h) => (
                    AppView { tmux_sessions: seq![], selected: 0, stage: Stage::Loading, ..s },
                    EffectView::DiscoverTmuxSessions(h),
                ),
                None => (with_error(s, "No SSH host selected"@), EffectView::Render),
            }
        } else {
            (AppView { stage: Stage::SessionInput, ..s }, EffectView::Render)
        },
        Input::Escape => (AppView { stage: Stage::HostSelection, ..s }, EffectView::Render),
        Input::Cancel => (s, EffectView::Close),
        Input::Backspace => (s, EffectView::Render),
    }
}

/// An input while tmux sessions are being listed.
pub open spec fn loading_step(s: AppView, input: Input) -> (AppView, EffectView) {
    match input {
        Input::Escape => (AppView { stage: Stage::BackendSelection, ..s }, EffectView::Render),
        Input::Cancel => (s, EffectView::Close),
        _ => (s, EffectView::Render),
    }
}

/// An input on the list of tmux sessions, whose last row offers a new session.
pub open spec fn tmux_step(s: AppView, input: Input) -> (AppView, EffectView) {
    match input {
        Input::Up | Input::Down => (
            AppView {
                selected: stepped(s.selected, input_delta(input), s.tmux_sessions.len() + 1),
                ..s
            },
            EffectView::Render,
        ),
        Input::Enter => if s.selected < s.tmux_sessions.len() {
            let s2 = AppView { session: s.tmux_sessions[s.selected as int], ..s };
            match command_of(s2) {
                Ok(c) => (s2, EffectView::Connect(c)),
                Err(e) => (with_error(s2, e), EffectView::Render),
            }
        } else if s.backend == Backend::TmuxWorker {
            (AppView { workspace: "work"@, stage: Stage::WorkspaceInput, ..s }, EffectView::Render)
        } else {
            (AppView { session: "work"@, stage: Stage::SessionInput, ..s }, EffectView::Render)
        },
        Input::Escape => (AppView { stage: Stage::BackendSelection, ..s }, EffectView::Render),
        Input::Cancel => (s, EffectView::Close),
        _ => (s, EffectView::Render),
    }
}

/// An input while a session name is typed.
pub open spec fn session_step(s: AppView, input: Input) -> (AppView, EffectView) {
    match input {
        Input::Character(c) => if session_char(c) {
            (AppView { session: s.session.push(c), ..s }, EffectView::Render)
        } else {
            (
                with_error(s, "Session may only contain A-Z, a-z, 0-9, _, . and -"@),
                EffectView::Render,
            )
        },
        Input::Backspace => (AppView { session: popped(s.session), ..s }, EffectView::Render),
        Input::Enter => match command_of(s) {
            Ok(c) => (s, EffectView::Connect(c)),
            Err(e) => (with_error(s, e), EffectView::Render),
        },
        Input::Escape => (AppView { stage: Stage::BackendSelection, ..s }, EffectView::Render),
        Input::Cancel => (s, EffectView::Close),
        _ => (s, EffectView::Render),
    }
}

/// An input while a workspace name is typed.
pub open spec fn workspace_step(s: AppView, input: Input) -> (AppView, EffectView) {
    match input {
        Input::Character(c) => if session_char(c) {
            (AppView { workspace: s.workspace.push(c), ..s }, EffectView::Render)
        } else {
            (
                with_error(s, "Workspace may only contain A-Z, a-z, 0-9, _, . and -"@),
                EffectView::Render,
            )
        },
        Input::Backspace => (AppView { workspace: popped(s.workspace), ..s }, EffectView::Render),
        Input::Enter => match workspace_command_of(s) {
            Ok(c) => (s, EffectView::ConnectWorkspace(c)),
            Err(e) => (with_error(s, e), EffectView::Render),
        },
        Input::Escape => (AppView { stage: Stage::BackendSelection, ..s }, EffectView::Render),
        Input::Cancel => (s, EffectView::Close),
        _ => (s, EffectView::Render),
    }
}

/// One input: the error of the previous input is cleared, then the current
/// stage decides.
pub open spec fn handle_step(s0: AppView, input: Input) -> (AppView, EffectView) {
    let s = AppView { error: None, ..s0 };
    match s.stage {
        Stage::HostSelection => host_step(s, input),
        Stage::BackendSelection => backend_step(s, input),
        Stage::Loading => loading_step(s, input),
        Stage::TmuxSessionSelection => tmux_step(s, input),
        Stage::SessionInput => session_step(s, input),
        Stage::WorkspaceInput => workspace_step(s, input),
    }
}

/// The inputs the picker handles without overflowing: list lengths fit in
/// `isize`, and an arrow key does not push `selected as isize` past its range.
pub open spec fn handle_defined(s: AppView, input: Input) -> bool {
    &&& s.hosts.len() < isize::MAX
    &&& s.tmux_sessions.len() < isize::MAX
    &&& (s.stage == Stage::HostSelection && filtered(s.hosts, s.filter).len() > 0 && (
    input is Up || input is Down)) ==> step_in_range(s.selected, input_delta(input))
    &&& (s.stage == Stage::TmuxSessionSelection && (input is Up || input is Down))
        ==> step_in_range(s.selected, input_delta(input))
}

/// Whether the picker takes `input` without overflowing its selection
/// arithmetic (see [`handle_defined`]).
pub fn handles_input(state: &AppState, input: Input) -> (r: bool)
    ensures
        r == handle_defined(state@, input),
{
    if state.hosts.len() >= isize::MAX as usize || state.tmux_sessions.len() >= isize::MAX as usize {
        return false;
    }
    let arrow = match input {
        Input::Up | Input::Down => true,
        _ => false,
    };
    if !arrow {
        return true;
    }
    let amount: i128 = match input {
        Input::Up => -1,
        _ => 1,
    };
    let in_range = {
        let w: i128 = if state.selected <= isize::MAX as usize {
            state.selected as i128
        } else {
            state.selected as i128 - usize::MAX as i128 - 1
        };
        let sum = w + amount;
        isize::MIN as i128 <= sum && sum <= isize::MAX as i128
    };
    if state.stage == Stage::HostSelection {
        let count = state.filtered_hosts().len();
        count == 0 || in_range
    } else if state.stage == Stage::TmuxSessionSelection {
        in_range
    } else {
        true
    }
}

/// `(selected as isize + amount).rem_euclid(count as isize) as usize`.
fn step_index(selected: usize, amount: isize, count: usize) -> (r: usize)
    requires
        0 < count <= isize::MAX,
        step_in_range(selected, amount as int),
    ensures
        r == stepped(selected, amount as int, count as nat),
        r < count,
{
    let w: i128 = if selected <= isize::MAX as usize {
        selected as i128
    } else {
        selected as i128 - usize::MAX as i128 - 1
    };
    let sum: i128 = w + amount as i128;
    let c: i128 = count as i128;
    if sum >= 0 {
        let r: i128 = sum % c;
        r as usize
    } else {
        let x: i128 = 0 - sum;
        let m: i128 = x % c;
        let r: i128 = if m == 0 {
            0
        } else {
            c - m
        };
        proof {
            let q = x as int / c as int;
            vstd::arithmetic::div_mod::lemma_fundamental_div_mod(x as int, c as int);
            assert(x as int == c * q + m);
            if m == 0 {
                assert(sum as int == (-q) * c + 0) by (nonlinear_arith)
                    requires
                        x as int == c * q + m,
                        m == 0,
                        sum == -x,
                ;
                vstd::arithmetic::div_mod::lemma_fundamental_div_mod_converse(
                    sum as int,
                    c as int,
                    -q,
                    0,
                );
            } else {
                assert(sum as int == (-q - 1) * c + (c - m)) by (nonlinear_arith)
                    requires
                        x as int == c * q + m,
                        sum == -x,
                ;
                vstd::arithmetic::div_mod::lemma_fundamental_div_mod_converse(
                    sum as int,
                    c as int,
                    -q - 1,
                    c - m,
                );
            }
        }
        r as usize
    }
}

impl AppState {
    /// Handles one input and says what the plugin has to do next.
    pub fn handle(&mut self, input: Input) -> (effect: Effect)
        requires
            handle_defined(old(self)@, input),
        ensures
            final(self)@ == handle_step(old(self)@, input).0,
            effect@ == handle_step(old(self)@, input).1,
            effect@ matches EffectView::Connect(c) ==> command_of(final(self)@) == Ok::<
                CommandView,
                Seq<char>,
            >(c) && final(self)@.stage == old(self)@.stage && (old(self)@.stage
                == Stage::SessionInput || old(self)@.stage == Stage::TmuxSessionSelection || (old(
                self,
            )@.stage == Stage::BackendSelection && final(self)@.backend == Backend::Shell)),
            effect@ matches EffectView::ConnectWorkspace(c) ==> workspace_command_of(final(self)@)
                == Ok::<CommandView, Seq<char>>(c) && old(self)@.stage == Stage::WorkspaceInput
                && final(self)@.stage == Stage::WorkspaceInput,
            old(self)@.stage == Stage::SessionInput && session_chars_only(old(self)@.session)
                ==> session_chars_only(final(self)@.session) && typed_change(
                old(self)@.session,
                final(self)@.session,
                input,
            ),
            old(self)@.stage == Stage::WorkspaceInput && session_chars_only(old(self)@.workspace)
                ==> session_chars_only(final(self)@.workspace) && typed_change(
                old(self)@.workspace,
                final(self)@.workspace,
                input,
            ),
    {
        proof {
            crate::laws::connects_carry_the_state_command(old(self)@, input);
            crate::laws::typed_names_stay_safe(old(self)@, input);
        }
        self.error = None;
        match self.stage {
            Stage::HostSelection => self.handle_host_input(input),
            Stage::BackendSelection => self.handle_backend_input(input),
            Stage::Loading => self.handle_loading_input(input),
            Stage::TmuxSessionSelection => self.handle_tmux_session_input(input),
            Stage::SessionInput => self.handle_session_input(input),
            Stage::WorkspaceInput => self.handle_workspace_input(input),
        }
    }

    fn handle_host_input(&mut self, input: Input) -> (effect: Effect)
        requires
            handle_defined(old(self)@, input),
            old(self).stage == Stage::HostSelection,
        ensures
            final(self)@ == host_step(old(self)@, input).0,
            effect@ == host_step(old(self)@, input).1,
    {
        match input {
            Input::Character(character) => {
                if !is_control(character) {
                    self.filter.push(character);
                    self.selected = 0;
                }
            },
            Input::Backspace => {
                self.filter.pop();
                self.selected = 0;
            },
            Input::Up => self.move_selection(-1),
            Input::Down => self.move_selection(1),
            Input::Enter => {
                let hosts = self.filtered_hosts();
                if self.selected < hosts.len() {
                    let host = hosts[self.selected].to_owned();
                    self.host = Some(host);
                    self.stage = Stage::BackendSelection;
                } else {
                    self.error = Some("No matching SSH host".to_owned());
                }
            },
            Input::Escape | Input::Cancel => {
                return Effect::Close;
            },
        }
        Effect::Render
    }

    fn handle_backend_input(&mut self, input: Input) -> (effect: Effect)
        requires
            old(self).stage == Stage::BackendSelection,
        ensures
            final(self)@ == backend_step(old(self)@, input).0,
            effect@ == backend_step(old(self)@, input).1,
    {
        match input {
            Input::Up => self.backend = self.backend.previous(),
            Input::Down => self.backend = self.backend.next(),
            Input::Character(c) => {
                if c == 's' || c == 'S' {
                    self.backend = Backend::Shell;
                } else if c == 't' || c == 'T' {
                    self.backend = Backend::Tmux;
                } else if c == 'w' || c == 'W' {
                    self.backend = Backend::TmuxWorker;
                } else if c == 'z' || c == 'Z' {
                    self.backend = Backend::Zellij;
                }
            },
            Input::Enter => {
                if self.backend == Backend::Shell {
                    match self.command_spec() {
                        Ok(spec) => {
                            return Effect::Connect(spec);
                        },
                        Err(error) => self.error = Some(error),
                    }
                } else if self.backend == Backend::Tmux || self.backend == Backend::TmuxWorker {
                    match self.host.clone() {
                        Some(host) => {
                            self.tmux_sessions.clear();
                            self.selected = 0;
                            self.stage = Stage::Loading;
                            assert(views(self.tmux_sessions@) =~= seq![]);
                            return Effect::DiscoverTmuxSessions { host };
                        },
                        None => {
                            self.error = Some("No SSH host selected".to_owned());
                        },
                    }
                } else {
                    self.stage = Stage::SessionInput;
                }
            },
            Input::Escape => self.stage = Stage::HostSelection,
            Input::Cancel => {
                return Effect::Close;
            },
            Input::Backspace => {},
        }
        Effect::Render
    }

    fn handle_loading_input(&mut self, input: Input) -> (effect: Effect)
        requires
            old(self).stage == Stage::Loading,
        ensures
            final(self)@ == loading_step(old(self)@, input).0,
            effect@ == loading_step(old(self)@, input).1,
    {
        match input {
            Input::Escape => self.stage = Stage::BackendSelection,
            Input::Cancel => {
                return Effect::Close;
            },
            _ => {},
        }
        Effect::Render
    }

    fn handle_tmux_session_input(&mut self, input: Input) -> (effect: Effect)
        requires
            handle_defined(old(self)@, input),
            old(self).stage == Stage::TmuxSessionSelection,
        ensures
            final(self)@ == tmux_step(old(self)@, input).0,
            effect@ == tmux_step(old(self)@, input).1,
    {
        match input {
            Input::Up => self.move_tmux_selection(-1),
            Input::Down => self.move_tmux_selection(1),
            Input::Enter => {
                if self.selected < self.tmux_sessions.len() {
                    let session = self.tmux_sessions[self.selected].clone();
                    self.session = session;
                    return match self.command_spec() {
                        Ok(spec) => Effect::Connect(spec),
                        Err(error) => {
                            self.error = Some(error);
                            Effect::Render
                        },
                    };
                }
                if self.backend == Backend::TmuxWorker {
                    self.workspace = "work".to_owned();
                    self.stage = Stage::WorkspaceInput;
                } else {
                    self.session = "work".to_owned();
                    self.stage = Stage::SessionInput;
                }
            },
            Input::Escape => self.stage = Stage::BackendSelection,
            Input::Cancel => {
                return Effect::Close;
            },
            _ => {},
        }
        Effect::Render
    }

    fn handle_session_input(&mut self, input: Input) -> (effect: Effect)
        requires
            old(self).stage == Stage::SessionInput,
        ensures
            final(self)@ == session_step(old(self)@, input).0,
            effect@ == session_step(old(self)@, input).1,
    {
        match input {
            Input::Character(character) => {
                if is_session_character(character) {
                    self.session.push(character);
                } else {
                    self.error = Some(
                        "Session may only contain A-Z, a-z, 0-9, _, . and -".to_owned(),
                    );
                }
            },
            Input::Backspace => {
                self.session.pop();
            },
            Input::Enter => match self.command_spec() {
                Ok(spec) => {
                    return Effect::Connect(spec);
                },
                Err(error) => self.error = Some(error),
            },
            Input::Escape => self.stage = Stage::BackendSelection,
            Input::Cancel => {
                return Effect::Close;
            },
            _ => {},
        }
        Effect::Render
    }

    fn handle_workspace_input(&mut self, input: Input) -> (effect: Effect)
        requires
            old(self).stage == Stage::WorkspaceInput,
        ensures
            final(self)@ == workspace_step(old(self)@, input).0,
            effect@ == workspace_step(old(self)@, input).1,
    {
        match input {
            Input::Character(character) => {
                if is_session_character(character) {
                    self.workspace.push(character);
                } else {
                    self.error = Some(
                        "Workspace may only contain A-Z, a-z, 0-9, _, . and -".to_owned(),
                    );
                }
            },
            Input::Backspace => {
                self.workspace.pop();
            },
            Input::Enter => match self.workspace_command_spec() {
                Ok(spec) => {
                    return Effect::ConnectWorkspace(spec);
                },
                Err(error) => self.error = Some(error),
            },
            Input::Escape => self.stage = Stage::BackendSelection,
            Input::Cancel => {
                return Effect::Close;
            },
            _ => {},
        }
        Effect::Render
    }

    fn move_selection(&mut self, amount: isize)
        requires
            old(self)@.hosts.len() < isize::MAX,
            filtered(old(self)@.hosts, old(self)@.filter).len() > 0 ==> step_in_range(
                old(self).selected,
                amount as int,
            ),
        ensures
            final(self)@ == (AppView {
                selected: if filtered(old(self)@.hosts, old(self)@.filter).len() == 0 {
                    0
                } else {
                    stepped(
                        old(self).selected,
                        amount as int,
                        filtered(old(self)@.hosts, old(self)@.filter).len(),
                    )
                },
                ..old(self)@
            }),
    {
        let count = self.filtered_hosts().len();
        proof {
            self@.hosts.lemma_filter_len(host_matches(self@.filter));
        }
        if count == 0 {
            self.selected = 0;
        } else {
            self.selected = step_index(self.selected, amount, count);
        }
    }

    fn move_tmux_selection(&mut self, amount: isize)
        requires
            old(self)@.tmux_sessions.len() < isize::MAX,
            step_in_range(old(self).selected, amount as int),
        ensures
            final(self)@ == (AppView {
                selected: stepped(
                    old(self).selected,
                    amount as int,
                    old(self)@.tmux_sessions.len() + 1,
                ),
                ..old(self)@
            }),
    {
        let count = self.tmux_sessions.len() + 1;
        self.selected = step_index(self.selected, amount, count);
    }
}


/// Trimming each line.
pub open spec fn trim_each() -> spec_fn(Seq<char>) -> Seq<char> {
    |l: Seq<char>| trim(l)
}

/// Safe session names.
pub open spec fn is_valid_name() -> spec_fn(Seq<char>) -> bool {
    |l: Seq<char>| valid_name(l)
}

/// Sessions that are the first worker of some workspace.
pub open spec fn is_worker_root() -> spec_fn(Seq<char>) -> bool {
    |l: Seq<char>| worker_root(l) is Some
}

/// The trimmed lines of a listing that are safe session names, in order.
pub open spec fn session_candidates(lines_of_output: Seq<Seq<char>>) -> Seq<Seq<char>> {
    lines_of_output.map_values(trim_each()).filter(is_valid_name())
}

/// The first non-empty line, if any.
pub open spec fn first_nonempty(ls: Seq<Seq<char>>) -> Option<Seq<char>>
    decreases ls.len(),
{
    if ls.len() == 0 {
        None
    } else if ls[0].len() > 0 {
        Some(ls[0])
    } else {
        first_nonempty(ls.drop_first())
    }
}

/// Why listing failed: the first non-empty trimmed line of stderr, then of
/// stdout, cut to 100 characters; else the exit status.
pub open spec fn failure_detail(exit_code: Option<i32>, out: Seq<char>, err: Seq<char>) -> Seq<char> {
    match first_nonempty((lines(err) + lines(out)).map_values(trim_each())) {
        Some(l) => clip(l, 100),
        None => match exit_code {
            Some(code) => "ssh exited with status "@ + signed_decimal(code as int),
            None => "ssh did not report an exit status"@,
        },
    }
}

/// What a `tmux list-sessions` run over ssh means: on success the safe session
/// names it printed, sorted and without repeats; "no server running" (exit
/// status 1) means no sessions; anything else is an error message.
pub open spec fn tmux_listing(exit_code: Option<i32>, out: Seq<char>, err: Seq<char>) -> (
    Seq<Seq<char>>,
    Option<Seq<char>>,
) {
    if exit_code == Some(0i32) {
        (sorted_set_of(session_candidates(lines(out))), None)
    } else if exit_code == Some(1i32) && occurs_in(lower(out + "\n"@ + err), "no server running"@) {
        (seq![], None)
    } else {
        (seq![], Some("Could not list tmux sessions: "@ + failure_detail(exit_code, out, err)))
    }
}

proof fn lemma_first_nonempty(ls: Seq<Seq<char>>, i: int)
    requires
        0 <= i <= ls.len(),
        forall|k: int| 0 <= k < i ==> ls[k].len() == 0,
    ensures
        first_nonempty(ls) == first_nonempty(ls.skip(i)),
    decreases i,
{
    if i > 0 {
        lemma_first_nonempty(ls.drop_first(), i - 1);
        assert(ls.drop_first().skip(i - 1) =~= ls.skip(i));
    } else {
        assert(ls.skip(0) =~= ls);
    }
}

/// The first non-empty trimmed line of `a` then `b`.
fn first_nonempty_trimmed(a: &Vec<Vec<char>>, b: &Vec<Vec<char>>) -> (r: Option<Vec<char>>)
    ensures
        match r {
            Some(l) => first_nonempty((seqs_of(a@) + seqs_of(b@)).map_values(trim_each()))
                == Some(l@),
            None => first_nonempty((seqs_of(a@) + seqs_of(b@)).map_values(trim_each())) is None,
        },
{
    let ghost all = (seqs_of(a@) + seqs_of(b@)).map_values(trim_each());
    let na = a.len();
    let nb = b.len();
    let mut i: usize = 0;
    while i < na
        invariant
            na == a@.len(),
            nb == b@.len(),
            all == (seqs_of(a@) + seqs_of(b@)).map_values(trim_each()),
            all.len() == na + nb,
            0 <= i <= na,
            forall|k: int| 0 <= k < i ==> all[k].len() == 0,
        decreases na - i,
    {
        let t = trim_chars(a[i].as_slice());
        assert(t@ == all[i as int]);
        if t.len() > 0 {
            proof {
                lemma_first_nonempty(all, i as int);
            }
            return Some(t);
        }
        i = i + 1;
    }
    let mut j: usize = 0;
    while j < nb
        invariant
            na == a@.len(),
            nb == b@.len(),
            all == (seqs_of(a@) + seqs_of(b@)).map_values(trim_each()),
            all.len() == na + nb,
            0 <= j <= nb,
            forall|k: int| 0 <= k < na + j ==> all[k].len() == 0,
        decreases nb - j,
    {
        let t = trim_chars(b[j].as_slice());
        assert(t@ == all[na + j]);
        if t.len() > 0 {
            proof {
                lemma_first_nonempty(all, na + j);
            }
            return Some(t);
        }
        j = j + 1;
    }
    proof {
        lemma_first_nonempty(all, na + nb);
        assert(all.skip(na + nb).len() == 0);
    }
    None
}

/// Makes sense of the output of `tmux list-sessions` run over ssh, already
/// decoded as text.
pub fn parse_tmux_sessions_output(exit_code: Option<i32>, stdout: &str, stderr: &str) -> (r: (
    Vec<String>,
    Option<String>,
))
    ensures
        views(r.0@) == tmux_listing(exit_code, stdout@, stderr@).0,
        opt_view(r.1) == tmux_listing(exit_code, stdout@, stderr@).1,
{
    let out = chars_of(stdout);
    let out_lines = split_lines(out.as_slice());
    if exit_code == Some(0i32) {
        let ghost ls = seqs_of(out_lines@);
        let n = out_lines.len();
        let mut candidates: Vec<String> = Vec::new();
        let mut i: usize = 0;
        while i < n
            invariant
                n == out_lines@.len(),
                ls == seqs_of(out_lines@),
                0 <= i <= n,
                views(candidates@) == session_candidates(ls.take(i as int)),
            decreases n - i,
        {
            let t = trim_chars(out_lines[i].as_slice());
            let keep = valid_name_chars(t.as_slice());
            let ghost tl = trim(ls[i as int]);
            assert(ls.take(i + 1).map_values(trim_each()) =~= ls.take(i as int).map_values(
                trim_each(),
            ).push(tl));
            proof {
                ls.take(i as int).map_values(trim_each()).lemma_filter_push(tl, is_valid_name());
            }
            if keep {
                let ghost old_c = candidates@;
                candidates.push(string_of_vec(t));
                assert(views(candidates@) =~= views(old_c).push(tl));
            }
            i = i + 1;
        }
        assert(ls.take(n as int) =~= ls);
        let sessions = sorted_unique(candidates);
        return (sessions, None);
    }
    let mut output = concat(stdout, "\n");
    push_str(&mut output, stderr);
    let oc = chars_of(output.as_str());
    let lowered = ascii_lower_chars(oc.as_slice());
    let needle = chars_of("no server running");
    if exit_code == Some(1i32) && contains_chars(lowered.as_slice(), needle.as_slice()) {
        let empty: Vec<String> = Vec::new();
        assert(views(empty@) =~= seq![]);
        return (empty, None);
    }
    let err = chars_of(stderr);
    let err_lines = split_lines(err.as_slice());
    let detail = match first_nonempty_trimmed(&err_lines, &out_lines) {
        Some(line) => {
            let end = if line.len() <= 100 {
                line.len()
            } else {
                100
            };
            let clipped = sub_chars(line.as_slice(), 0, end);
            assert(clipped@ =~= clip(line@, 100));
            string_of_vec(clipped)
        },
        None => match exit_code {
            Some(code) => {
                let mut d = "ssh exited with status ".to_owned();
                let digits = signed_decimal_chars(code);
                push_chars(&mut d, digits.as_slice());
                d
            },
            None => "ssh did not report an exit status".to_owned(),
        },
    };
    let message = concat("Could not list tmux sessions: ", detail.as_str());
    let empty: Vec<String> = Vec::new();
    assert(views(empty@) =~= seq![]);
    (empty, Some(message))
}

/// Makes sense of the output of `tmux list-sessions` run over ssh: the
/// session names, sorted and without repeats, and an error message when the
/// listing failed.
pub fn parse_tmux_sessions_result(exit_code: Option<i32>, stdout: &[u8], stderr: &[u8]) -> (r: (
    Vec<String>,
    Option<String>,
))
    ensures
        views(r.0@) == tmux_listing(exit_code, utf8_lossy(stdout@), utf8_lossy(stderr@)).0,
        opt_view(r.1) == tmux_listing(exit_code, utf8_lossy(stdout@), utf8_lossy(stderr@)).1,
{
    let out = decode_utf8_lossy(stdout);
    let err = decode_utf8_lossy(stderr);
    parse_tmux_sessions_output(exit_code, out.as_str(), err.as_str())
}

/// The state once a listing arrives: a tmux-worker picker keeps only the
/// first workers of workspaces; the selection returns to the first row.
pub open spec fn with_listing(s: AppView, listing: (Seq<Seq<char>>, Option<Seq<char>>)) -> AppView {
    let sessions = if s.backend == Backend::TmuxWorker {
        listing.0.filter(is_worker_root())
    } else {
        listing.0
    };
    AppView {
        tmux_sessions: sessions,
        selected: 0,
        error: listing.1,
        stage: Stage::TmuxSessionSelection,
        ..s
    }
}

/// The listing is the one the picker waits for: it is loading, for this host.
pub open spec fn awaits_listing(s: AppView, host: Seq<char>) -> bool {
    s.stage == Stage::Loading && s.host == Some(host)
}

fn worker_roots_only(sessions: Vec<String>) -> (r: Vec<String>)
    ensures
        views(r@) == views(sessions@).filter(is_worker_root()),
{
    let ghost sv = views(sessions@);
    let n = sessions.len();
    let mut r: Vec<String> = Vec::new();
    let mut i: usize = 0;
    while i < n
        invariant
            n == sessions@.len(),
            sv == views(sessions@),
            0 <= i <= n,
            views(r@) == sv.take(i as int).filter(is_worker_root()),
        decreases n - i,
    {
        let keep = worker_workspace_root(sessions[i].as_str()).is_some();
        assert(sv.take(i + 1) =~= sv.take(i as int).push(sv[i as int]));
        proof {
            sv.take(i as int).lemma_filter_push(sv[i as int], is_worker_root());
        }
        if keep {
            let ghost old_r = r@;
            r.push(sessions[i].clone());
            assert(views(r@) =~= views(old_r).push(sv[i as int]));
        }
        i = i + 1;
    }
    assert(sv.take(n as int) =~= sv);
    r
}

impl AppState {
    /// Takes in the outcome of listing the tmux sessions of `host`. A listing
    /// that the picker no longer waits for (it left the loading screen, or
    /// chose another host since) is ignored and `false` returned.
    pub fn apply_tmux_sessions_result(
        &mut self,
        host: &str,
        exit_code: Option<i32>,
        stdout: &[u8],
        stderr: &[u8],
    ) -> (applied: bool)
        ensures
            applied == awaits_listing(old(self)@, host@),
            !applied ==> final(self)@ == old(self)@,
            applied ==> final(self)@ == with_listing(
                old(self)@,
                tmux_listing(exit_code, utf8_lossy(stdout@), utf8_lossy(stderr@)),
            ),
    {
        if self.stage != Stage::Loading {
            return false;
        }
        let same_host = match &self.host {
            Some(h) => str_equal(h.as_str(), host),
            None => false,
        };
        if !same_host {
            return false;
        }
        let (sessions, error) = parse_tmux_sessions_result(exit_code, stdout, stderr);
        let sessions = if self.backend == Backend::TmuxWorker {
            worker_roots_only(sessions)
        } else {
            sessions
        };
        self.tmux_sessions = sessions;
        self.selected = 0;
        self.error = error;
        self.stage = Stage::TmuxSessionSelection;
        true
    }
}

} // verus!
