//! The plugin around the picker: its configuration, the status line,
//! splitting workspace tabs into further worker panes, and the screen it
//! draws.
//!
//! The plugin host's calls are left to the caller; these functions decide
//! what they mean and what to do next.
use vstd::prelude::*;
use crate::parser::ParseResult;
use crate::state::{
    awaits_listing, backend_name, filtered, handle_defined, handle_step, opt_view,
    parse_tmux_sessions_result, tmux_listing, with_listing, worker_name, worker_session_name,
    AppState, AppView, Backend, CommandSpec, CommandView, Effect, Input, Stage,
};
use crate::text::{
    chars_of, clip, concat, decimal, decimal_chars, decode_utf8_lossy, lines, push_chars, push_str,
    seqs_of, split_lines, str_equal, string_of, sub_chars, trim, trim_chars, utf8_lossy, views,
};
use crate::worker::{
    next_index, next_worker_index, reservation_views, worker_command, worker_of_command,
    Reservation,
};

verus! {

/// A split asked for in a workspace tab, waiting for the listing of its
/// host's tmux sessions: the worker's host and workspace, the plugin host's
/// session and tab to open the pane in, and the direction.
pub struct PendingSplit {
    pub host: String,
    pub workspace: String,
    pub session: String,
    pub tab_id: usize,
    pub direction: String,
}

/// The meaning of a [`PendingSplit`].
pub struct PendingView {
    pub host: Seq<char>,
    pub workspace: Seq<char>,
    pub session: Seq<char>,
    pub tab_id: nat,
    pub direction: Seq<char>,
}

impl View for PendingSplit {
    type V = PendingView;

    open spec fn view(&self) -> PendingView {
        PendingView {
            host: self.host@,
            workspace: self.workspace@,
            session: self.session@,
            tab_id: self.tab_id as nat,
            direction: self.direction@,
        }
    }
}

/// The views of pending splits.
pub open spec fn pending_views(v: Seq<PendingSplit>) -> Seq<PendingView> {
    v.map_values(|q: PendingSplit| q@)
}

/// The plugin's state.
pub struct Plugin {
    pub app: AppState,
    pub status: String,
    pub home_ready: bool,
    pub zellij_cli: String,
    pub pending: Vec<PendingSplit>,
    pub reserved: Vec<Reservation>,
}

/// The meaning of a [`Plugin`].
#[verifier::ext_equal]
pub struct PluginView {
    pub app: AppView,
    pub status: Seq<char>,
    pub home_ready: bool,
    pub zellij_cli: Seq<char>,
    pub pending: Seq<PendingView>,
    pub reserved: Seq<(Seq<char>, Seq<char>, nat)>,
}

impl View for Plugin {
    type V = PluginView;

    open spec fn view(&self) -> PluginView {
        PluginView {
            app: self.app@,
            status: self.status@,
            home_ready: self.home_ready,
            zellij_cli: self.zellij_cli@,
            pending: pending_views(self.pending@),
            reserved: reservation_views(self.reserved@),
        }
    }
}

/// The plugin before it is loaded.
pub open spec fn plugin_start() -> PluginView {
    PluginView {
        app: crate::state::initial_view(),
        status: seq![],
        home_ready: false,
        zellij_cli: "zellij"@,
        pending: seq![],
        reserved: seq![],
    }
}

impl Default for Plugin {
    fn default() -> (r: Self)
        ensures
            r@ == plugin_start(),
    {
        let r = Plugin {
            app: AppState::default(),
            status: String::new(),
            home_ready: false,
            zellij_cli: "zellij".to_owned(),
            pending: Vec::new(),
            reserved: Vec::new(),
        };
        assert(r@.pending =~= seq![]);
        assert(r@.reserved =~= seq![]);
        r
    }
}

/// The backend a `default_backend` setting names; anything unknown is tmux.
pub open spec fn backend_setting(name: Seq<char>) -> Backend {
    if name == "shell"@ {
        Backend::Shell
    } else if name == "tmux-worker"@ {
        Backend::TmuxWorker
    } else if name == "zellij"@ {
        Backend::Zellij
    } else {
        Backend::Tmux
    }
}

/// A setting that is present and not empty.
pub open spec fn given(setting: Option<Seq<char>>) -> bool {
    setting matches Some(v) && v.len() > 0
}

/// The plugin once loaded with its settings: a non-empty `connector` or
/// `zellij_cli` replaces the default, `default_backend` picks the backend,
/// and the status says that permissions are awaited.
pub open spec fn configured(
    p: PluginView,
    connector: Option<Seq<char>>,
    zellij_cli: Option<Seq<char>>,
    default_backend: Option<Seq<char>>,
) -> PluginView {
    let app1 = if given(connector) {
        AppView { connector: connector->0, ..p.app }
    } else {
        p.app
    };
    let app2 = match default_backend {
        Some(b) => AppView { backend: backend_setting(b), ..app1 },
        None => app1,
    };
    PluginView {
        app: app2,
        zellij_cli: if given(zellij_cli) {
            zellij_cli->0
        } else {
            p.zellij_cli
        },
        status: "Waiting for permissions..."@,
        ..p
    }
}

/// The view of an optional string slice.
pub open spec fn opt_str_view(o: Option<&str>) -> Option<Seq<char>> {
    match o {
        Some(s) => Some(s@),
        None => None,
    }
}

/// What the status line says once the configuration is read.
pub open spec fn loaded_status(hosts: nat, warnings: Seq<Seq<char>>) -> Seq<char> {
    if hosts == 0 {
        if warnings.len() > 0 {
            warnings[0]
        } else {
            "No concrete Host aliases found"@
        }
    } else if warnings.len() == 0 {
        "Loaded "@ + decimal(hosts) + " SSH hosts"@
    } else {
        "Loaded "@ + decimal(hosts) + " SSH hosts ("@ + decimal(warnings.len()) + " warning"@ + (
        if warnings.len() == 1 {
            seq![]
        } else {
            "s"@
        }) + ")"@
    }
}

/// The key the plugin host reports, reduced to what the picker tells apart.
#[derive(Debug, Clone, Copy, PartialEq, Eq)]
pub enum Key {
    Char(char),
    Backspace,
    Up,
    Down,
    Enter,
    Esc,
    Other,
}

/// The input a key press stands for: Ctrl-c cancels, Ctrl-p and Ctrl-n move
/// up and down, other keys count only without modifiers.
pub open spec fn input_of_key(key: Key, ctrl: bool, no_modifiers: bool) -> Option<Input> {
    if key == Key::Char('c') && ctrl {
        Some(Input::Cancel)
    } else if key == Key::Char('p') && ctrl {
        Some(Input::Up)
    } else if key == Key::Char('n') && ctrl {
        Some(Input::Down)
    } else if !no_modifiers {
        None
    } else {
        match key {
            Key::Char(c) => Some(Input::Character(c)),
            Key::Backspace => Some(Input::Backspace),
            Key::Up => Some(Input::Up),
            Key::Down => Some(Input::Down),
            Key::Enter => Some(Input::Enter),
            Key::Esc => Some(Input::Escape),
            Key::Other => None,
        }
    }
}

/// The input a key press stands for; `ctrl` says that Ctrl is among the
/// modifiers held, `no_modifiers` that none is.
pub fn map_key(key: Key, ctrl: bool, no_modifiers: bool) -> (r: Option<Input>)
    ensures
        r == input_of_key(key, ctrl, no_modifiers),
{
    let is_char = |k: Key, c: char| -> (b: bool)
        ensures
            b == (k == Key::Char(c)),
        {
            match k {
                Key::Char(x) => x == c,
                _ => false,
            }
        };
    if is_char(key, 'c') && ctrl {
        return Some(Input::Cancel);
    }
    if is_char(key, 'p') && ctrl {
        return Some(Input::Up);
    }
    if is_char(key, 'n') && ctrl {
        return Some(Input::Down);
    }
    if !no_modifiers {
        return None;
    }
    match key {
        Key::Char(c) => Some(Input::Character(c)),
        Key::Backspace => Some(Input::Backspace),
        Key::Up => Some(Input::Up),
        Key::Down => Some(Input::Down),
        Key::Enter => Some(Input::Enter),
        Key::Esc => Some(Input::Escape),
        Key::Other => None,
    }
}

/// The split a pipe message asks for: `split-right` and `split-down`.
pub open spec fn split_direction_of(name: Seq<char>) -> Option<Seq<char>> {
    if name == "split-right"@ {
        Some("right"@)
    } else if name == "split-down"@ {
        Some("down"@)
    } else {
        None
    }
}

/// The direction a pipe message asks to split in, if it asks for a split.
pub fn split_direction(name: &str) -> (r: Option<&'static str>)
    ensures
        opt_str_view(r) == split_direction_of(name@),
{
    if str_equal(name, "split-right") {
        Some("right")
    } else if str_equal(name, "split-down") {
        Some("down")
    } else {
        None
    }
}

/// The command that lists the tmux sessions of `host` over ssh, without
/// prompting and with a short connection timeout.
pub open spec fn list_sessions_args(host: Seq<char>) -> Seq<Seq<char>> {
    seq![
        "ssh"@,
        "-o"@,
        "BatchMode=yes"@,
        "-o"@,
        "ConnectTimeout=5"@,
        "--"@,
        host,
        "tmux list-sessions -F '#{session_name}'"@,
    ]
}

/// The command that lists the tmux sessions of `host`.
pub fn list_sessions_command(host: &str) -> (r: Vec<String>)
    ensures
        views(r@) == list_sessions_args(host@),
{
    let mut r: Vec<String> = Vec::new();
    r.push("ssh".to_owned());
    r.push("-o".to_owned());
    r.push("BatchMode=yes".to_owned());
    r.push("-o".to_owned());
    r.push("ConnectTimeout=5".to_owned());
    r.push("--".to_owned());
    r.push(host.to_owned());
    r.push("tmux list-sessions -F '#{session_name}'".to_owned());
    assert(views(r@) =~= list_sessions_args(host@));
    r
}

impl Plugin {
    /// Applies the plugin settings (each one given or not).
    pub fn configure(
        &mut self,
        connector: Option<&str>,
        zellij_cli: Option<&str>,
        default_backend: Option<&str>,
    )
        ensures
            final(self)@ == configured(
                old(self)@,
                opt_str_view(connector),
                opt_str_view(zellij_cli),
                opt_str_view(default_backend),
            ),
    {
        if let Some(c) = connector {
            if !c.is_empty() {
                self.app.connector = c.to_owned();
            }
        }
        if let Some(z) = zellij_cli {
            if !z.is_empty() {
                self.zellij_cli = z.to_owned();
            }
        }
        if let Some(b) = default_backend {
            self.app.backend = if str_equal(b, "shell") {
                Backend::Shell
            } else if str_equal(b, "tmux-worker") {
                Backend::TmuxWorker
            } else if str_equal(b, "zellij") {
                Backend::Zellij
            } else {
                Backend::Tmux
            };
        }
        self.status = "Waiting for permissions...".to_owned();
    }

    /// The permissions were granted; `home` is the session's `HOME`, if set.
    /// Answers the folder to mount as the host folder, if there is one.
    pub fn permissions_granted(&mut self, home: Option<&str>) -> (r: Option<String>)
        ensures
            given(opt_str_view(home)) ==> opt_view(r) == opt_str_view(home) && final(self)@ == (
            PluginView {
                status: "Loading ~/.ssh/config..."@,
                home_ready: true,
                ..old(self)@
            }),
            !given(opt_str_view(home)) ==> r is None && final(self)@ == (PluginView {
                status: "HOME is not available in the Zellij session"@,
                ..old(self)@
            }),
    {
        match home {
            Some(h) => {
                if !h.is_empty() {
                    self.status = "Loading ~/.ssh/config...".to_owned();
                    self.home_ready = true;
                    return Some(h.to_owned());
                }
            },
            None => {},
        }
        self.status = "HOME is not available in the Zellij session".to_owned();
        None
    }

    /// The permissions were denied.
    pub fn permissions_denied(&mut self)
        ensures
            final(self)@ == (PluginView {
                status: "Required permissions were denied"@,
                ..old(self)@
            }),
    {
        self.status = "Required permissions were denied".to_owned();
    }

    /// The host folder could not be changed; `error` says why, if known.
    pub fn host_folder_failed(&mut self, error: Option<String>)
        ensures
            final(self)@ == (PluginView {
                status: match opt_view(error) {
                    Some(e) => e,
                    None => "Failed to access HOME"@,
                },
                ..old(self)@
            }),
    {
        self.status = match error {
            Some(e) => e,
            None => "Failed to access HOME".to_owned(),
        };
    }

    /// Takes in the hosts read from the SSH configuration, and says in the
    /// status line how many there are and how many warnings came with them.
    pub fn hosts_loaded(&mut self, parsed: ParseResult)
        ensures
            final(self)@ == (PluginView {
                app: AppView { hosts: views(parsed.hosts@), selected: 0, ..old(self)@.app },
                status: loaded_status(parsed.hosts@.len(), views(parsed.warnings@)),
                ..old(self)@
            }),
    {
        let n = parsed.hosts.len();
        let warnings = parsed.warnings;
        self.app.set_hosts(parsed.hosts);
        let w = warnings.len();
        if n == 0 {
            if w > 0 {
                self.status = warnings[0].clone();
            } else {
                self.status = "No concrete Host aliases found".to_owned();
            }
        } else if w == 0 {
            let mut st = "Loaded ".to_owned();
            push_chars(&mut st, decimal_chars(n as u64).as_slice());
            push_str(&mut st, " SSH hosts");
            self.status = st;
        } else {
            let mut st = "Loaded ".to_owned();
            push_chars(&mut st, decimal_chars(n as u64).as_slice());
            push_str(&mut st, " SSH hosts (");
            push_chars(&mut st, decimal_chars(w as u64).as_slice());
            push_str(&mut st, " warning");
            if w != 1 {
                push_str(&mut st, "s");
            }
            push_str(&mut st, ")");
            proof {
                if w == 1 {
                    assert(st@ =~= loaded_status(n as nat, views(warnings@)));
                }
            }
            self.status = st;
        }
    }
}

/// The first line with more than whitespace in it, as it stands.
pub open spec fn first_text_line(ls: Seq<Seq<char>>) -> Option<Seq<char>>
    decreases ls.len(),
{
    if ls.len() == 0 {
        None
    } else if trim(ls[0]).len() > 0 {
        Some(ls[0])
    } else {
        first_text_line(ls.drop_first())
    }
}

proof fn lemma_first_text_line(ls: Seq<Seq<char>>, i: int)
    requires
        0 <= i <= ls.len(),
        forall|k: int| 0 <= k < i ==> trim(#[trigger] ls[k]).len() == 0,
    ensures
        first_text_line(ls) == first_text_line(ls.skip(i)),
    decreases i,
{
    if i > 0 {
        lemma_first_text_line(ls.drop_first(), i - 1);
        assert(ls.drop_first().skip(i - 1) =~= ls.skip(i));
    } else {
        assert(ls.skip(0) =~= ls);
    }
}

/// The status after a split command finished: success, or the first line
/// of its error output (then of its output) that says something.
pub open spec fn split_status(worker: Seq<char>, exit_code: Option<i32>, out: Seq<char>, err: Seq<char>) -> Seq<char> {
    if exit_code == Some(0i32) {
        "Opened workspace worker "@ + worker
    } else {
        "Could not open "@ + worker + ": "@ + match first_text_line(lines(err) + lines(out)) {
            Some(l) => l,
            None => "zellij new-pane failed"@,
        }
    }
}

fn first_text_line_of(a: &Vec<Vec<char>>, b: &Vec<Vec<char>>) -> (r: Option<Vec<char>>)
    ensures
        match r {
            Some(l) => first_text_line(seqs_of(a@) + seqs_of(b@)) == Some(l@),
            None => first_text_line(seqs_of(a@) + seqs_of(b@)) is None,
        },
{
    let ghost all = seqs_of(a@) + seqs_of(b@);
    let na = a.len();
    let nb = b.len();
    let mut i: usize = 0;
    while i < na
        invariant
            na == a@.len(),
            nb == b@.len(),
            all == seqs_of(a@) + seqs_of(b@),
            0 <= i <= na,
            forall|k: int| 0 <= k < i ==> trim(#[trigger] all[k]).len() == 0,
        decreases na - i,
    {
        let t = trim_chars(a[i].as_slice());
        assert(all[i as int] == a@[i as int]@);
        if t.len() > 0 {
            proof {
                lemma_first_text_line(all, i as int);
            }
            return Some(a[i].clone());
        }
        i = i + 1;
    }
    let mut j: usize = 0;
    while j < nb
        invariant
            na == a@.len(),
            nb == b@.len(),
            all == seqs_of(a@) + seqs_of(b@),
            0 <= j <= nb,
            forall|k: int| 0 <= k < na + j ==> trim(#[trigger] all[k]).len() == 0,
        decreases nb - j,
    {
        let t = trim_chars(b[j].as_slice());
        assert(all[na + j] == b@[j as int]@);
        if t.len() > 0 {
            proof {
                lemma_first_text_line(all, na + j);
            }
            return Some(b[j].clone());
        }
        j = j + 1;
    }
    proof {
        lemma_first_text_line(all, na + nb);
        assert(all.skip(na + nb).len() == 0);
    }
    None
}

/// What the plugin has to do after a key press.
#[derive(Debug)]
pub enum Action {
    Render,
    Close,
    DiscoverTmuxSessions { host: String },
    Connect(CommandSpec),
    ConnectWorkspace(CommandSpec),
}

/// The meaning of an [`Action`].
pub enum ActionView {
    Render,
    Close,
    DiscoverTmuxSessions(Seq<char>),
    Connect(CommandView),
    ConnectWorkspace(CommandView),
}

impl View for Action {
    type V = ActionView;

    open spec fn view(&self) -> ActionView {
        match self {
            Action::Render => ActionView::Render,
            Action::Close => ActionView::Close,
            Action::DiscoverTmuxSessions { host } => ActionView::DiscoverTmuxSessions(host@),
            Action::Connect(spec) => ActionView::Connect(spec@),
            Action::ConnectWorkspace(spec) => ActionView::ConnectWorkspace(spec@),
        }
    }
}

/// The action for the picker's effect.
pub open spec fn action_of(effect: crate::state::EffectView) -> ActionView {
    match effect {
        crate::state::EffectView::Render => ActionView::Render,
        crate::state::EffectView::Close => ActionView::Close,
        crate::state::EffectView::DiscoverTmuxSessions(h) => ActionView::DiscoverTmuxSessions(h),
        crate::state::EffectView::Connect(c) => ActionView::Connect(c),
        crate::state::EffectView::ConnectWorkspace(c) => ActionView::ConnectWorkspace(c),
    }
}

/// What the plugin does once a command it ran has finished.
#[derive(Debug)]
pub enum Followup {
    /// Nothing; the screen stays as it is.
    Ignore,
    /// Draw the screen again.
    Redraw,
    /// Show the plugin's pane, whose status says what went wrong.
    ShowPicker,
    /// Run this command, which opens a worker pane.
    Split(SplitCommand),
}

/// The meaning of a [`Followup`].
pub enum FollowupView {
    Ignore,
    Redraw,
    ShowPicker,
    Split((Seq<Seq<char>>, Seq<char>, nat)),
}

impl View for Followup {
    type V = FollowupView;

    open spec fn view(&self) -> FollowupView {
        match self {
            Followup::Ignore => FollowupView::Ignore,
            Followup::Redraw => FollowupView::Redraw,
            Followup::ShowPicker => FollowupView::ShowPicker,
            Followup::Split(c) => FollowupView::Split((views(c.command@), c.worker@, c.tab_id as nat)),
        }
    }
}

/// A command the plugin ran finished; `kind`, `host` and `worker` come from
/// the context it was started with, `out` and `err` are its output.
/// - `tmux_sessions`: a listing for the picker, taken in if it waits for it;
/// - `workspace_split`: a worker pane was (or was not) opened;
/// - `worker_listing`: a listing a split waits for.
pub open spec fn finished_step(
    p: PluginView,
    kind: Option<Seq<char>>,
    host: Option<Seq<char>>,
    worker: Option<Seq<char>>,
    exit_code: Option<i32>,
    out: Seq<char>,
    err: Seq<char>,
) -> (PluginView, FollowupView) {
    if kind == Some("tmux_sessions"@) {
        match host {
            Some(h) => if awaits_listing(p.app, h) {
                (
                    PluginView { app: with_listing(p.app, tmux_listing(exit_code, out, err)), ..p },
                    FollowupView::Redraw,
                )
            } else {
                (p, FollowupView::Ignore)
            },
            None => (p, FollowupView::Ignore),
        }
    } else if kind == Some("workspace_split"@) {
        (
            PluginView {
                status: split_status(
                    match worker {
                        Some(w) => w,
                        None => "worker"@,
                    },
                    exit_code,
                    out,
                    err,
                ),
                ..p
            },
            FollowupView::Redraw,
        )
    } else if kind == Some("worker_listing"@) {
        match host {
            Some(h) => {
                let r = listing_step(p, h, exit_code, out, err);
                (
                    r.0,
                    match r.1 {
                        Some(c) => FollowupView::Split(c),
                        None => if first_pending(p.pending, h) is Some {
                            FollowupView::ShowPicker
                        } else {
                            FollowupView::Ignore
                        },
                    },
                )
            },
            None => (p, FollowupView::Ignore),
        }
    } else {
        (p, FollowupView::Ignore)
    }
}

impl Plugin {
    /// A command the plugin ran finished. `kind`, `host` and `worker` come
    /// from the context the command was started with. Answers what to do
    /// next.
    pub fn command_finished(
        &mut self,
        kind: Option<&str>,
        host: Option<&str>,
        worker: Option<&str>,
        exit_code: Option<i32>,
        stdout: &[u8],
        stderr: &[u8],
    ) -> (r: Followup)
        ensures
            (final(self)@, r@) == finished_step(
                old(self)@,
                opt_str_view(kind),
                opt_str_view(host),
                opt_str_view(worker),
                exit_code,
                utf8_lossy(stdout@),
                utf8_lossy(stderr@),
            ),
    {
        proof {
            reveal_strlit("tmux_sessions");
            reveal_strlit("workspace_split");
            reveal_strlit("worker_listing");
            assert("tmux_sessions"@.len() != "workspace_split"@.len());
            assert("tmux_sessions"@.len() != "worker_listing"@.len());
            assert("worker_listing"@.len() != "workspace_split"@.len());
        }
        let k = match kind {
            Some(k) => k,
            None => {
                return Followup::Ignore;
            },
        };
        if str_equal(k, "tmux_sessions") {
            return match host {
                Some(h) => if self.app.apply_tmux_sessions_result(h, exit_code, stdout, stderr) {
                    Followup::Redraw
                } else {
                    Followup::Ignore
                },
                None => Followup::Ignore,
            };
        }
        if str_equal(k, "worker_listing") {
            let h = match host {
                Some(h) => h,
                None => {
                    return Followup::Ignore;
                },
            };
            let waiting = find_pending(&self.pending, h).is_some();
            return match self.worker_listing_arrived(h, exit_code, stdout, stderr) {
                Some(c) => Followup::Split(c),
                None => if waiting {
                    Followup::ShowPicker
                } else {
                    Followup::Ignore
                },
            };
        }
        if !str_equal(k, "workspace_split") {
            return Followup::Ignore;
        }
        let worker = match worker {
            Some(w) => w,
            None => "worker",
        };
        if exit_code == Some(0i32) {
            self.status = concat("Opened workspace worker ", worker);
            return Followup::Redraw;
        }
        let err = decode_utf8_lossy(stderr);
        let out = decode_utf8_lossy(stdout);
        let err_lines = split_lines(chars_of(err.as_str()).as_slice());
        let out_lines = split_lines(chars_of(out.as_str()).as_slice());
        let detail = match first_text_line_of(&err_lines, &out_lines) {
            Some(line) => string_of(line.as_slice()),
            None => "zellij new-pane failed".to_owned(),
        };
        let mut st = concat("Could not open ", worker);
        push_str(&mut st, ": ");
        push_str(&mut st, detail.as_str());
        self.status = st;
        Followup::Redraw
    }

    /// Whether the picker takes this input without overflowing its
    /// selection arithmetic.
    pub fn handles(&self, input: Input) -> (r: bool)
        ensures
            r == handle_defined(self@.app, input),
    {
        crate::state::handles_input(&self.app, input)
    }

    /// A key press: the picker handles it and the plugin learns what to do.
    pub fn key_pressed(&mut self, input: Input) -> (action: Action)
        requires
            handle_defined(old(self)@.app, input),
        ensures
            final(self)@ == (PluginView { app: handle_step(old(self)@.app, input).0, ..old(self)@ }),
            action@ == action_of(handle_step(old(self)@.app, input).1),
    {
        match self.app.handle(input) {
            Effect::Render => Action::Render,
            Effect::Close => Action::Close,
            Effect::DiscoverTmuxSessions { host } => Action::DiscoverTmuxSessions { host },
            Effect::Connect(spec) => Action::Connect(spec),
            Effect::ConnectWorkspace(spec) => Action::ConnectWorkspace(spec),
        }
    }

    /// The connector tab could not be opened.
    pub fn connect_failed(&mut self)
        ensures
            final(self)@ == (PluginView {
                app: AppView { error: Some("Zellij did not create the connector tab"@), ..old(self)@.app },
                ..old(self)@
            }),
    {
        self.app.error = Some("Zellij did not create the connector tab".to_owned());
    }

    /// The host a workspace tab is opened for; without one the picker shows
    /// an error instead.
    pub fn workspace_host(&mut self) -> (r: Option<String>)
        ensures
            opt_view(r) == old(self)@.app.host,
            r is Some ==> final(self)@ == old(self)@,
            r is None ==> final(self)@ == (PluginView {
                app: AppView { error: Some("No SSH host selected"@), ..old(self)@.app },
                ..old(self)@
            }),
    {
        match &self.app.host {
            Some(h) => Some(h.clone()),
            None => {
                self.app.error = Some("No SSH host selected".to_owned());
                None
            },
        }
    }

    /// A workspace tab was opened; splits in it open further workers.
    pub fn workspace_opened(&mut self)
        ensures
            final(self)@ == (PluginView {
                status: "Workspace connected; use its split bindings for more workers"@,
                ..old(self)@
            }),
    {
        self.status = "Workspace connected; use its split bindings for more workers".to_owned();
    }

    /// The workspace tab could not be opened.
    pub fn workspace_failed(&mut self)
        ensures
            final(self)@ == (PluginView {
                app: AppView { error: Some("Zellij did not create the workspace tab"@), ..old(self)@.app },
                ..old(self)@
            }),
    {
        self.app.error = Some("Zellij did not create the workspace tab".to_owned());
    }
}

/// A pane of the plugin host as the split needs it: the position of its tab,
/// its id, whether it is a plugin pane, and the command it runs, if known.
pub struct PaneCommand {
    pub tab_position: usize,
    pub id: u32,
    pub is_plugin: bool,
    pub command: Option<String>,
}

/// The meaning of a [`PaneCommand`].
pub struct PaneView {
    pub tab_position: usize,
    pub id: u32,
    pub is_plugin: bool,
    pub command: Option<Seq<char>>,
}

impl View for PaneCommand {
    type V = PaneView;

    open spec fn view(&self) -> PaneView {
        PaneView {
            tab_position: self.tab_position,
            id: self.id,
            is_plugin: self.is_plugin,
            command: opt_view(self.command),
        }
    }
}

/// A session of the plugin host as the split needs it: its name, whether it
/// is the current one, each tab's position with its stable id, and its panes.
pub struct SessionTabs {
    pub name: String,
    pub is_current: bool,
    pub tabs: Vec<(usize, usize)>,
    pub panes: Vec<PaneCommand>,
}

/// The meaning of [`SessionTabs`].
pub struct SessionTabsView {
    pub name: Seq<char>,
    pub is_current: bool,
    pub tabs: Seq<(usize, usize)>,
    pub panes: Seq<PaneView>,
}

impl View for SessionTabs {
    type V = SessionTabsView;

    open spec fn view(&self) -> SessionTabsView {
        SessionTabsView {
            name: self.name@,
            is_current: self.is_current,
            tabs: self.tabs@,
            panes: self.panes@.map_values(|q: PaneCommand| q@),
        }
    }
}

/// The views of sessions, or the reason they could not be listed.
pub open spec fn sessions_view(r: Result<Vec<SessionTabs>, String>) -> Result<Seq<SessionTabsView>, Seq<char>> {
    match r {
        Ok(v) => Ok(v@.map_values(|s: SessionTabs| s@)),
        Err(e) => Err(e@),
    }
}

/// The command that opens a further worker pane in a workspace tab, the
/// worker's session name, and the tab's id.
#[derive(Debug)]
pub struct SplitCommand {
    pub command: Vec<String>,
    pub worker: String,
    pub tab_id: usize,
}

/// The position of the first current session.
pub open spec fn first_current(ss: Seq<SessionTabsView>) -> Option<int>
    decreases ss.len(),
{
    if ss.len() == 0 {
        None
    } else if ss[0].is_current {
        Some(0)
    } else {
        match first_current(ss.drop_first()) {
            Some(i) => Some(i + 1),
            None => None,
        }
    }
}

/// The id of the first tab at this position.
pub open spec fn tab_at(tabs: Seq<(usize, usize)>, position: usize) -> Option<usize>
    decreases tabs.len(),
{
    if tabs.len() == 0 {
        None
    } else if tabs[0].0 == position {
        Some(tabs[0].1)
    } else {
        tab_at(tabs.drop_first(), position)
    }
}

/// The command of the focused pane: the first pane in the tab at `position`
/// with this id and kind, if it has a command.
pub open spec fn focused_command(panes: Seq<PaneView>, position: usize, is_plugin: bool, id: u32) -> Option<Seq<char>>
    decreases panes.len(),
{
    if panes.len() == 0 {
        None
    } else if panes[0].tab_position == position && panes[0].is_plugin == is_plugin && panes[0].id
        == id {
        panes[0].command
    } else {
        focused_command(panes.drop_first(), position, is_plugin, id)
    }
}

/// The plugin host command that opens worker `worker` of a workspace in a
/// new pane of tab `tab_id`, split in `direction`.
pub open spec fn split_args(
    zellij_cli: Seq<char>,
    session: Seq<char>,
    tab_id: nat,
    direction: Seq<char>,
    connector: Seq<char>,
    host: Seq<char>,
    worker: Seq<char>,
) -> Seq<Seq<char>> {
    seq![
        zellij_cli,
        "--session"@,
        session,
        "action"@,
        "new-pane"@,
        "--tab-id"@,
        decimal(tab_id),
        "--direction"@,
        direction,
        "--"@,
        connector,
        "--host"@,
        host,
        "--backend"@,
        "tmux-worker"@,
        "--session"@,
        worker,
    ]
}

/// A split asked for in the focused tab (at `position`) of the current
/// session, whose focused pane is `(is_plugin, id)`. The focused pane's
/// connector command names the worker's host and workspace; the split then
/// waits for the listing of the host's tmux sessions, and the host is the
/// one to list. Otherwise the status says what is missing.
pub open spec fn split_request_step(
    p: PluginView,
    position: usize,
    is_plugin: bool,
    id: u32,
    sessions: Result<Seq<SessionTabsView>, Seq<char>>,
    direction: Seq<char>,
) -> (PluginView, Option<Seq<char>>) {
    match sessions {
        Err(e) => (PluginView { status: "Could not read Zellij sessions: "@ + e, ..p }, None),
        Ok(ss) => match first_current(ss) {
            None => (PluginView { status: "Could not identify the current Zellij session"@, ..p }, None),
            Some(si) => match tab_at(ss[si].tabs, position) {
                None => (PluginView { status: "Could not resolve the focused tab's stable ID"@, ..p }, None),
                Some(tab_id) => match focused_command(ss[si].panes, position, is_plugin, id) {
                    None => (PluginView { status: "The focused pane is not a tmux workspace worker"@, ..p }, None),
                    Some(c) => match worker_of_command(c) {
                        None => (PluginView { status: "The focused pane is not a tmux workspace worker"@, ..p }, None),
                        Some((h, w)) => (
                            PluginView {
                                pending: p.pending.push(
                                    PendingView {
                                        host: h,
                                        workspace: w,
                                        session: ss[si].name,
                                        tab_id: tab_id as nat,
                                        direction,
                                    },
                                ),
                                status: "Looking for the next worker of "@ + w + " on "@ + h + "..."@,
                                ..p
                            },
                            Some(h),
                        ),
                    },
                },
            },
        },
    }
}

/// The first split that waits for the listing of `host`.
pub open spec fn first_pending(ps: Seq<PendingView>, host: Seq<char>) -> Option<int>
    decreases ps.len(),
{
    if ps.len() == 0 {
        None
    } else if ps[0].host == host {
        Some(0)
    } else {
        match first_pending(ps.drop_first(), host) {
            Some(i) => Some(i + 1),
            None => None,
        }
    }
}

/// The listing of `host`'s tmux sessions arrived: the first split waiting
/// for it stops waiting. Its worker gets the next free index of its
/// workspace (one above every listed worker and every reserved name), which
/// is reserved, and the command that opens the pane is answered. A failed
/// listing, or an index too large for a worker name, sets the status instead.
pub open spec fn listing_step(
    p: PluginView,
    host: Seq<char>,
    exit_code: Option<i32>,
    out: Seq<char>,
    err: Seq<char>,
) -> (PluginView, Option<(Seq<Seq<char>>, Seq<char>, nat)>) {
    match first_pending(p.pending, host) {
        None => (p, None),
        Some(i) => {
            let q = p.pending[i];
            let p1 = PluginView { pending: p.pending.remove(i), ..p };
            let listing = tmux_listing(exit_code, out, err);
            match listing.1 {
                Some(e) => (PluginView { status: e, ..p1 }, None),
                None => {
                    let m = next_index(listing.0, p.reserved, q.host, q.workspace);
                    if m > u32::MAX {
                        (PluginView { status: "No worker index is left for workspace "@ + q.workspace, ..p1 }, None)
                    } else {
                        let worker = worker_name(q.workspace, m);
                        (
                            PluginView {
                                reserved: p.reserved.push((q.host, q.workspace, m)),
                                status: "Opening workspace pane to the "@ + q.direction + "..."@,
                                ..p1
                            },
                            Some(
                                (
                                    split_args(
                                        p.zellij_cli,
                                        q.session,
                                        q.tab_id,
                                        q.direction,
                                        p.app.connector,
                                        q.host,
                                        worker,
                                    ),
                                    worker,
                                    q.tab_id,
                                ),
                            ),
                        )
                    }
                },
            }
        },
    }
}

/// The view of a split command.
pub open spec fn split_command_view(r: Option<SplitCommand>) -> Option<(Seq<Seq<char>>, Seq<char>, nat)> {
    match r {
        Some(c) => Some((views(c.command@), c.worker@, c.tab_id as nat)),
        None => None,
    }
}

fn find_current(ss: &Vec<SessionTabs>) -> (r: Option<usize>)
    ensures
        match r {
            Some(i) => first_current(ss@.map_values(|s: SessionTabs| s@)) == Some(i as int) && i < ss@.len(),
            None => first_current(ss@.map_values(|s: SessionTabs| s@)) is None,
        },
{
    let ghost v = ss@.map_values(|s: SessionTabs| s@);
    let n = ss.len();
    let mut i: usize = 0;
    assert(v.skip(0) =~= v);
    while i < n
        invariant
            n == ss@.len(),
            v == ss@.map_values(|s: SessionTabs| s@),
            0 <= i <= n,
            first_current(v) == match first_current(v.skip(i as int)) {
                Some(k) => Some(k + i),
                None => None,
            },
        decreases n - i,
    {
        assert(v.skip(i as int)[0] == v[i as int]);
        if ss[i].is_current {
            return Some(i);
        }
        assert(v.skip(i as int).drop_first() =~= v.skip(i + 1));
        i = i + 1;
    }
    assert(v.skip(n as int).len() == 0);
    None
}

fn find_tab_at(tabs: &Vec<(usize, usize)>, position: usize) -> (r: Option<usize>)
    ensures
        r == tab_at(tabs@, position),
{
    let n = tabs.len();
    let mut i: usize = 0;
    assert(tabs@.skip(0) =~= tabs@);
    while i < n
        invariant
            n == tabs@.len(),
            0 <= i <= n,
            tab_at(tabs@, position) == tab_at(tabs@.skip(i as int), position),
        decreases n - i,
    {
        assert(tabs@.skip(i as int)[0] == tabs@[i as int]);
        if tabs[i].0 == position {
            return Some(tabs[i].1);
        }
        assert(tabs@.skip(i as int).drop_first() =~= tabs@.skip(i + 1));
        i = i + 1;
    }
    None
}

fn find_focused_command(panes: &Vec<PaneCommand>, position: usize, is_plugin: bool, id: u32) -> (r: Option<String>)
    ensures
        opt_view(r) == focused_command(panes@.map_values(|q: PaneCommand| q@), position, is_plugin, id),
{
    let ghost v = panes@.map_values(|q: PaneCommand| q@);
    let n = panes.len();
    let mut i: usize = 0;
    assert(v.skip(0) =~= v);
    while i < n
        invariant
            n == panes@.len(),
            v == panes@.map_values(|q: PaneCommand| q@),
            0 <= i <= n,
            focused_command(v, position, is_plugin, id) == focused_command(v.skip(i as int), position, is_plugin, id),
        decreases n - i,
    {
        assert(v.skip(i as int)[0] == v[i as int]);
        let q = &panes[i];
        if q.tab_position == position && q.is_plugin == is_plugin && q.id == id {
            return q.command.clone();
        }
        assert(v.skip(i as int).drop_first() =~= v.skip(i + 1));
        i = i + 1;
    }
    None
}

fn find_pending(ps: &Vec<PendingSplit>, host: &str) -> (r: Option<usize>)
    ensures
        match r {
            Some(i) => first_pending(pending_views(ps@), host@) == Some(i as int) && i < ps@.len(),
            None => first_pending(pending_views(ps@), host@) is None,
        },
{
    let ghost v = pending_views(ps@);
    let n = ps.len();
    let mut i: usize = 0;
    assert(v.skip(0) =~= v);
    while i < n
        invariant
            n == ps@.len(),
            v == pending_views(ps@),
            0 <= i <= n,
            first_pending(v, host@) == match first_pending(v.skip(i as int), host@) {
                Some(k) => Some(k + i),
                None => None,
            },
        decreases n - i,
    {
        assert(v.skip(i as int)[0] == v[i as int]);
        if str_equal(ps[i].host.as_str(), host) {
            return Some(i);
        }
        assert(v.skip(i as int).drop_first() =~= v.skip(i + 1));
        i = i + 1;
    }
    assert(v.skip(n as int).len() == 0);
    None
}

fn split_command(
    zellij_cli: &str,
    session: &str,
    tab_id: usize,
    direction: &str,
    connector: &str,
    host: &str,
    worker: &str,
) -> (r: Vec<String>)
    ensures
        views(r@) == split_args(zellij_cli@, session@, tab_id as nat, direction@, connector@, host@, worker@),
{
    let mut command: Vec<String> = Vec::new();
    command.push(zellij_cli.to_owned());
    command.push("--session".to_owned());
    command.push(session.to_owned());
    command.push("action".to_owned());
    command.push("new-pane".to_owned());
    command.push("--tab-id".to_owned());
    command.push(string_of(decimal_chars(tab_id as u64).as_slice()));
    command.push("--direction".to_owned());
    command.push(direction.to_owned());
    command.push("--".to_owned());
    command.push(connector.to_owned());
    command.push("--host".to_owned());
    command.push(host.to_owned());
    command.push("--backend".to_owned());
    command.push("tmux-worker".to_owned());
    command.push("--session".to_owned());
    command.push(worker.to_owned());
    assert(views(command@) =~= split_args(
        zellij_cli@,
        session@,
        tab_id as nat,
        direction@,
        connector@,
        host@,
        worker@,
    ));
    command
}

impl Plugin {
    /// The focused tab could not be found for a split.
    pub fn split_focus_failed(&mut self, error: &str)
        ensures
            final(self)@ == (PluginView {
                status: "Could not find focused tab: "@ + error@,
                ..old(self)@
            }),
    {
        self.status = concat("Could not find focused tab: ", error);
    }

    /// A split of the focused tab at `position`, whose focused pane is the
    /// plugin or terminal pane `id`, given the sessions of the plugin host
    /// (or why they could not be listed). Answers the host whose tmux
    /// sessions are to be listed next, or `None` when the status says why
    /// there is no split.
    pub fn split_requested(
        &mut self,
        position: usize,
        is_plugin: bool,
        id: u32,
        sessions: Result<Vec<SessionTabs>, String>,
        direction: &str,
    ) -> (r: Option<String>)
        ensures
            final(self)@ == split_request_step(
                old(self)@,
                position,
                is_plugin,
                id,
                sessions_view(sessions),
                direction@,
            ).0,
            opt_view(r) == split_request_step(
                old(self)@,
                position,
                is_plugin,
                id,
                sessions_view(sessions),
                direction@,
            ).1,
    {
        let ss = match sessions {
            Err(e) => {
                self.status = concat("Could not read Zellij sessions: ", e.as_str());
                return None;
            },
            Ok(ss) => ss,
        };
        let si = match find_current(&ss) {
            None => {
                self.status = "Could not identify the current Zellij session".to_owned();
                return None;
            },
            Some(si) => si,
        };
        let tab_id = match find_tab_at(&ss[si].tabs, position) {
            None => {
                self.status = "Could not resolve the focused tab's stable ID".to_owned();
                return None;
            },
            Some(t) => t,
        };
        let found = match find_focused_command(&ss[si].panes, position, is_plugin, id) {
            None => None,
            Some(c) => worker_command(c.as_str()),
        };
        let (host, workspace) = match found {
            None => {
                self.status = "The focused pane is not a tmux workspace worker".to_owned();
                return None;
            },
            Some(hw) => hw,
        };
        let mut st = concat("Looking for the next worker of ", workspace.as_str());
        push_str(&mut st, " on ");
        push_str(&mut st, host.as_str());
        push_str(&mut st, "...");
        self.status = st;
        let q = PendingSplit {
            host: host.clone(),
            workspace,
            session: ss[si].name.clone(),
            tab_id,
            direction: direction.to_owned(),
        };
        let ghost before = pending_views(self.pending@);
        let ghost qv = q@;
        self.pending.push(q);
        assert(pending_views(self.pending@) =~= before.push(qv));
        Some(host)
    }

    /// The listing of `host`'s tmux sessions, asked for by a split, arrived.
    /// Answers the command that opens the split's worker pane, or `None`
    /// when no split waited for it or the status says why there is none.
    pub fn worker_listing_arrived(
        &mut self,
        host: &str,
        exit_code: Option<i32>,
        stdout: &[u8],
        stderr: &[u8],
    ) -> (r: Option<SplitCommand>)
        ensures
            final(self)@ == listing_step(
                old(self)@,
                host@,
                exit_code,
                utf8_lossy(stdout@),
                utf8_lossy(stderr@),
            ).0,
            split_command_view(r) == listing_step(
                old(self)@,
                host@,
                exit_code,
                utf8_lossy(stdout@),
                utf8_lossy(stderr@),
            ).1,
    {
        let i = match find_pending(&self.pending, host) {
            None => {
                return None;
            },
            Some(i) => i,
        };
        let ghost before = pending_views(self.pending@);
        let q = self.pending.remove(i);
        assert(pending_views(self.pending@) =~= before.remove(i as int));
        let (sessions, error) = parse_tmux_sessions_result(exit_code, stdout, stderr);
        match error {
            Some(e) => {
                self.status = e;
                return None;
            },
            None => {},
        }
        let m = match next_worker_index(&sessions, &self.reserved, q.host.as_str(), q.workspace.as_str()) {
            None => {
                self.status = concat("No worker index is left for workspace ", q.workspace.as_str());
                return None;
            },
            Some(m) => m,
        };
        let worker = worker_session_name(q.workspace.as_str(), m);
        let command = split_command(
            self.zellij_cli.as_str(),
            q.session.as_str(),
            q.tab_id,
            q.direction.as_str(),
            self.app.connector.as_str(),
            q.host.as_str(),
            worker.as_str(),
        );
        let ghost rbefore = reservation_views(self.reserved@);
        let res = Reservation { host: q.host.clone(), workspace: q.workspace.clone(), index: m };
        let ghost rv = res@;
        self.reserved.push(res);
        assert(reservation_views(self.reserved@) =~= rbefore.push(rv));
        let mut st = concat("Opening workspace pane to the ", q.direction.as_str());
        push_str(&mut st, "...");
        self.status = st;
        Some(SplitCommand { command, worker, tab_id: q.tab_id })
    }
}

/// The name of the host, or `(none)`.
pub open spec fn host_label(s: AppView) -> Seq<char> {
    match s.host {
        Some(h) => h,
        None => "(none)"@,
    }
}

/// The mark in front of the selected row.
pub open spec fn marker(selected: bool) -> Seq<char> {
    if selected {
        ">"@
    } else {
        " "@
    }
}

/// How many list rows fit on a screen of `rows` rows (at least one).
pub open spec fn visible_rows(rows: nat) -> nat {
    let a: nat = if rows >= 8 {
        (rows - 8) as nat
    } else {
        0
    };
    if a >= 1 {
        a
    } else {
        1
    }
}

/// The first list row shown, so that the selected row is the last one shown
/// when it would not fit otherwise.
pub open spec fn first_visible(selected: nat, available: nat) -> nat {
    if selected >= available - 1 {
        (selected - (available - 1)) as nat
    } else {
        0
    }
}

/// The part of a list that fits, each row marked when selected.
pub open spec fn window(items: Seq<Seq<char>>, selected: nat, rows: nat) -> Seq<Seq<char>> {
    let available = visible_rows(rows);
    let start = first_visible(selected, available);
    let count: nat = if start >= items.len() {
        0
    } else if items.len() - start < available {
        (items.len() - start) as nat
    } else {
        available
    };
    Seq::new(count, |k: int| marker(start + k == selected) + " "@ + items[start + k])
}

/// How the backend list names a backend.
pub open spec fn backend_label(b: Backend) -> Seq<char> {
    match b {
        Backend::Tmux => "tmux"@,
        Backend::TmuxWorker => "tmux workspace panes"@,
        Backend::Zellij => "zellij"@,
        Backend::Shell => "shell (default login shell)"@,
    }
}

/// The last entry of the session list: a new workspace for the tmux
/// workspace backend, a new session otherwise.
pub open spec fn new_entry(b: Backend) -> Seq<char> {
    if b == Backend::TmuxWorker {
        "+ New workspace"@
    } else {
        "+ New session"@
    }
}

/// The lines a screen shows for the picker's stage.
pub open spec fn stage_lines(s: AppView, rows: nat) -> Seq<Seq<char>> {
    match s.stage {
        Stage::HostSelection => {
            let hosts = filtered(s.hosts, s.filter);
            seq!["Host filter: "@ + s.filter, seq![]] + (if hosts.len() == 0 {
                seq!["  (no matching hosts)"@]
            } else {
                window(hosts, s.selected as nat, rows)
            }) + seq![seq![], "Type to filter | ↑/↓ or Ctrl-p/Ctrl-n | Enter | Esc"@]
        },
        Stage::BackendSelection => seq!["Host: "@ + host_label(s), "Choose backend:"@] + seq![
            marker(s.backend == Backend::Tmux) + " "@ + backend_label(Backend::Tmux),
            marker(s.backend == Backend::TmuxWorker) + " "@ + backend_label(Backend::TmuxWorker),
            marker(s.backend == Backend::Zellij) + " "@ + backend_label(Backend::Zellij),
            marker(s.backend == Backend::Shell) + " "@ + backend_label(Backend::Shell),
        ] + seq![seq![], "↑/↓ or t/w/z/s | Enter | Esc back"@],
        Stage::Loading => seq![
            "Host: "@ + host_label(s) + "  Backend: tmux"@,
            seq![],
            "Loading tmux sessions..."@,
            seq![],
            "Esc back"@,
        ],
        Stage::TmuxSessionSelection => seq![
            "Host: "@ + host_label(s) + "  Backend: tmux"@,
            "Choose a tmux session:"@,
        ] + window(s.tmux_sessions.push(new_entry(s.backend)), s.selected as nat, rows) + seq![
            seq![],
            "↑/↓ or Ctrl-p/Ctrl-n | Enter | Esc back"@,
        ],
        Stage::SessionInput => seq![
            "Host: "@ + host_label(s) + "  Backend: "@ + backend_name(s.backend),
            "Session: "@ + s.session,
            seq![],
            "Allowed: A-Z a-z 0-9 _ . -"@,
            "Enter connect | Esc back"@,
        ],
        Stage::WorkspaceInput => seq![
            "Host: "@ + host_label(s) + "  Backend: tmux workspace panes"@,
            "Workspace: "@ + s.workspace,
            seq![],
            "First worker: zr-<workspace>-p0001"@,
            "Allowed: A-Z a-z 0-9 _ . -"@,
            "Enter connect | Esc back"@,
        ],
    }
}

/// The last line: the picker's error, else the status, if any.
pub open spec fn footer(p: PluginView) -> Seq<Seq<char>> {
    match p.app.error {
        Some(e) => seq!["Error: "@ + e],
        None => if p.status.len() > 0 {
            seq![p.status]
        } else {
            seq![]
        },
    }
}

/// All the lines of the screen, before it is cut to size.
pub open spec fn screen_lines(p: PluginView, rows: nat) -> Seq<Seq<char>> {
    seq!["SSH Manager"@, seq![]] + stage_lines(p.app, rows) + footer(p)
}

/// The screen: at most `rows` lines of at most `cols` characters each.
pub open spec fn screen_of(p: PluginView, rows: nat, cols: nat) -> Seq<Seq<char>> {
    let l = screen_lines(p, rows);
    let n: nat = if l.len() < rows {
        l.len()
    } else {
        rows
    };
    Seq::new(n, |i: int| clip(l[i], cols))
}

fn push_line(lines: &mut Vec<String>, line: String)
    ensures
        views(final(lines)@) == views(old(lines)@).push(line@),
{
    let ghost before = lines@;
    lines.push(line);
    assert(views(lines@) =~= views(before).push(line@));
}

fn push_window(lines: &mut Vec<String>, items: &Vec<String>, selected: usize, rows: usize)
    ensures
        views(final(lines)@) == views(old(lines)@) + window(views(items@), selected as nat, rows as nat),
{
    let ghost before = views(lines@);
    let ghost iv = views(items@);
    let available = if rows >= 8 && rows - 8 >= 1 {
        rows - 8
    } else {
        1
    };
    let start = if selected >= available - 1 {
        selected - (available - 1)
    } else {
        0
    };
    let n = items.len();
    let count = if start >= n {
        0
    } else if n - start < available {
        n - start
    } else {
        available
    };
    assert(available == visible_rows(rows as nat));
    assert(start == first_visible(selected as nat, available as nat));
    let ghost w = window(iv, selected as nat, rows as nat);
    assert(w.len() == count);
    let mut k: usize = 0;
    while k < count
        invariant
            0 <= k <= count,
            count == w.len(),
            count > 0 ==> start + count <= items@.len(),
            iv == views(items@),
            w == window(iv, selected as nat, rows as nat),
            start == first_visible(selected as nat, visible_rows(rows as nat)),
            views(lines@) == before + w.take(k as int),
        decreases count - k,
    {
        let index = start + k;
        let mut line = if index == selected {
            ">".to_owned()
        } else {
            " ".to_owned()
        };
        push_str(&mut line, " ");
        push_str(&mut line, items[index].as_str());
        assert(line@ == w[k as int]);
        push_line(lines, line);
        assert(w.take(k + 1) =~= w.take(k as int).push(w[k as int]));
        k = k + 1;
    }
    assert(w.take(count as int) =~= w);
}

fn marked(on: bool, label: &str) -> (r: String)
    ensures
        r@ == marker(on) + " "@ + label@,
{
    let mut l = if on {
        ">".to_owned()
    } else {
        " ".to_owned()
    };
    push_str(&mut l, " ");
    push_str(&mut l, label);
    l
}

fn host_stage_lines(app: &AppState, rows: usize) -> (r: Vec<String>)
    requires
        app.stage == Stage::HostSelection,
    ensures
        views(r@) == stage_lines(app@, rows as nat),
{
    let mut lines: Vec<String> = Vec::new();
    push_line(&mut lines, concat("Host filter: ", app.filter.as_str()));
    push_line(&mut lines, String::new());
    let hosts = app.filtered_hosts();
    if hosts.len() == 0 {
        push_line(&mut lines, "  (no matching hosts)".to_owned());
    } else {
        let mut owned: Vec<String> = Vec::new();
        let mut i: usize = 0;
        while i < hosts.len()
            invariant
                0 <= i <= hosts@.len(),
                views(owned@) == crate::text::str_views(hosts@).take(i as int),
            decreases hosts@.len() - i,
        {
            let ghost before = owned@;
            owned.push(hosts[i].to_owned());
            assert(views(owned@) =~= views(before).push(hosts@[i as int]@));
            assert(crate::text::str_views(hosts@).take(i + 1) =~= crate::text::str_views(
                hosts@,
            ).take(i as int).push(hosts@[i as int]@));
            i = i + 1;
        }
        assert(crate::text::str_views(hosts@).take(i as int) =~= crate::text::str_views(hosts@));
        push_window(&mut lines, &owned, app.selected, rows);
    }
    push_line(&mut lines, String::new());
    push_line(&mut lines, "Type to filter | ↑/↓ or Ctrl-p/Ctrl-n | Enter | Esc".to_owned());
    assert(views(lines@) =~= stage_lines(app@, rows as nat));
    lines
}

fn backend_stage_lines(app: &AppState, host: &str) -> (r: Vec<String>)
    requires
        app.stage == Stage::BackendSelection,
        host@ == host_label(app@),
    ensures
        forall|rows: nat| views(r@) == #[trigger] stage_lines(app@, rows),
{
    let mut lines: Vec<String> = Vec::new();
    push_line(&mut lines, concat("Host: ", host));
    push_line(&mut lines, "Choose backend:".to_owned());
    push_line(&mut lines, marked(app.backend == Backend::Tmux, "tmux"));
    push_line(&mut lines, marked(app.backend == Backend::TmuxWorker, "tmux workspace panes"));
    push_line(&mut lines, marked(app.backend == Backend::Zellij, "zellij"));
    push_line(&mut lines, marked(app.backend == Backend::Shell, "shell (default login shell)"));
    push_line(&mut lines, String::new());
    push_line(&mut lines, "↑/↓ or t/w/z/s | Enter | Esc back".to_owned());
    assert forall|rows: nat| views(lines@) == #[trigger] stage_lines(app@, rows) by {
        assert(views(lines@) =~= stage_lines(app@, rows));
    }
    lines
}

fn tmux_stage_lines(app: &AppState, host: &str, rows: usize) -> (r: Vec<String>)
    requires
        app.stage == Stage::TmuxSessionSelection,
        host@ == host_label(app@),
    ensures
        views(r@) == stage_lines(app@, rows as nat),
{
    let mut lines: Vec<String> = Vec::new();
    let mut l = concat("Host: ", host);
    push_str(&mut l, "  Backend: tmux");
    push_line(&mut lines, l);
    push_line(&mut lines, "Choose a tmux session:".to_owned());
    let mut items = app.tmux_sessions.clone();
    let ghost sv = views(items@);
    let entry = if app.backend == Backend::TmuxWorker {
        "+ New workspace".to_owned()
    } else {
        "+ New session".to_owned()
    };
    let ghost ev = entry@;
    items.push(entry);
    assert(views(items@) =~= sv.push(ev));
    push_window(&mut lines, &items, app.selected, rows);
    push_line(&mut lines, String::new());
    push_line(&mut lines, "↑/↓ or Ctrl-p/Ctrl-n | Enter | Esc back".to_owned());
    assert(views(lines@) =~= stage_lines(app@, rows as nat));
    lines
}

fn input_stage_lines(app: &AppState, host: &str) -> (r: Vec<String>)
    requires
        app.stage == Stage::Loading || app.stage == Stage::SessionInput || app.stage
            == Stage::WorkspaceInput,
        host@ == host_label(app@),
    ensures
        forall|rows: nat| views(r@) == #[trigger] stage_lines(app@, rows),
{
    let mut lines: Vec<String> = Vec::new();
    if app.stage == Stage::Loading {
        let mut l = concat("Host: ", host);
        push_str(&mut l, "  Backend: tmux");
        push_line(&mut lines, l);
        push_line(&mut lines, String::new());
        push_line(&mut lines, "Loading tmux sessions...".to_owned());
        push_line(&mut lines, String::new());
        push_line(&mut lines, "Esc back".to_owned());
    } else if app.stage == Stage::SessionInput {
        let mut l = concat("Host: ", host);
        push_str(&mut l, "  Backend: ");
        push_str(&mut l, app.backend.as_str());
        push_line(&mut lines, l);
        push_line(&mut lines, concat("Session: ", app.session.as_str()));
        push_line(&mut lines, String::new());
        push_line(&mut lines, "Allowed: A-Z a-z 0-9 _ . -".to_owned());
        push_line(&mut lines, "Enter connect | Esc back".to_owned());
    } else {
        let mut l = concat("Host: ", host);
        push_str(&mut l, "  Backend: tmux workspace panes");
        push_line(&mut lines, l);
        push_line(&mut lines, concat("Workspace: ", app.workspace.as_str()));
        push_line(&mut lines, String::new());
        push_line(&mut lines, "First worker: zr-<workspace>-p0001".to_owned());
        push_line(&mut lines, "Allowed: A-Z a-z 0-9 _ . -".to_owned());
        push_line(&mut lines, "Enter connect | Esc back".to_owned());
    }
    assert forall|rows: nat| views(lines@) == #[trigger] stage_lines(app@, rows) by {
        assert(views(lines@) =~= stage_lines(app@, rows));
    }
    lines
}

fn clip_lines(lines: &Vec<String>, rows: usize, cols: usize) -> (r: Vec<String>)
    ensures
        views(r@) == ({
            let l = views(lines@);
            let n: nat = if l.len() < rows {
                l.len()
            } else {
                rows as nat
            };
            Seq::new(n, |i: int| clip(l[i], cols as nat))
        }),
{
    let ghost all = views(lines@);
    let n = if lines.len() < rows {
        lines.len()
    } else {
        rows
    };
    let mut out: Vec<String> = Vec::new();
    let mut i: usize = 0;
    while i < n
        invariant
            0 <= i <= n,
            n <= lines@.len(),
            all == views(lines@),
            views(out@) == Seq::new(i as nat, |k: int| clip(all[k], cols as nat)),
        decreases n - i,
    {
        let chars = chars_of(lines[i].as_str());
        let end = if chars.len() < cols {
            chars.len()
        } else {
            cols
        };
        let clipped = sub_chars(chars.as_slice(), 0, end);
        assert(clipped@ =~= clip(all[i as int], cols as nat));
        let line = string_of(clipped.as_slice());
        push_line(&mut out, line);
        assert(views(out@) =~= Seq::new((i + 1) as nat, |k: int| clip(all[k], cols as nat)));
        i = i + 1;
    }
    out
}

impl Plugin {
    /// The lines to draw on a screen of `rows` rows and `cols` columns.
    pub fn screen(&self, rows: usize, cols: usize) -> (r: Vec<String>)
        ensures
            views(r@) == screen_of(self@, rows as nat, cols as nat),
    {
        let app = &self.app;
        let host = match &app.host {
            Some(h) => h.clone(),
            None => "(none)".to_owned(),
        };
        let body = match app.stage {
            Stage::HostSelection => host_stage_lines(app, rows),
            Stage::BackendSelection => backend_stage_lines(app, host.as_str()),
            Stage::TmuxSessionSelection => tmux_stage_lines(app, host.as_str(), rows),
            _ => input_stage_lines(app, host.as_str()),
        };
        assert(views(body@) == stage_lines(app@, rows as nat));
        let mut lines: Vec<String> = Vec::new();
        push_line(&mut lines, "SSH Manager".to_owned());
        push_line(&mut lines, String::new());
        let mut i: usize = 0;
        let ghost head = views(lines@);
        while i < body.len()
            invariant
                0 <= i <= body@.len(),
                views(lines@) == head + views(body@).take(i as int),
            decreases body@.len() - i,
        {
            push_line(&mut lines, body[i].clone());
            assert(views(body@).take(i + 1) =~= views(body@).take(i as int).push(views(body@)[i as int]));
            i = i + 1;
        }
        assert(views(body@).take(i as int) =~= views(body@));
        match &app.error {
            Some(e) => push_line(&mut lines, concat("Error: ", e.as_str())),
            None => {
                if !self.status.as_str().is_empty() {
                    push_line(&mut lines, self.status.clone());
                }
            },
        }
        assert(views(lines@) =~= screen_lines(self@, rows as nat));
        clip_lines(&lines, rows, cols)
    }
}

} // verus!
