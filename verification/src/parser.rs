//! Reading `Host` aliases out of an OpenSSH client configuration.
//!
//! The reading itself (files, canonical paths, globbing) is left to the caller:
//! [`ConfigParser`] tells it what to fetch next and decides what the answers mean.
use vstd::prelude::*;
use crate::path::{
    expand_include, include_path, normalize_path, normalized, path_parent, sort_paths,
    sorted_paths, std_parent,
};
use crate::text::{
    char_is_whitespace, chars_of, concat, decimal, decimal_chars, eq_ignore_ascii_case, find_char,
    index_of, is_whitespace, lines, lower, push_chars, push_str, seqs_of, split_lines, str_equal,
    string_of, sub_chars, views,
};

verus! {

/// How deeply `Include` directives may nest.
pub const MAX_INCLUDE_DEPTH: usize = 16;

/// The lexer's state after some prefix of a line.
#[verifier::ext_equal]
pub struct LexState {
    pub tokens: Seq<Seq<char>>,
    pub current: Seq<char>,
    pub quote: Option<char>,
    pub escaped: bool,
    pub stopped: bool,
}

/// The lexer's state before the first character.
pub open spec fn lex_start() -> LexState {
    LexState { tokens: seq![], current: seq![], quote: None, escaped: false, stopped: false }
}

/// One character of a configuration line: a backslash escapes the next
/// character, single or double quotes group a token, `#` outside quotes starts
/// a comment, and whitespace outside quotes ends a token.
pub open spec fn lex_char(st: LexState, c: char) -> LexState {
    if st.stopped {
        st
    } else if st.escaped {
        LexState { current: st.current.push(c), escaped: false, ..st }
    } else if c == '\\' {
        LexState { escaped: true, ..st }
    } else if st.quote is Some {
        if c == st.quote->0 {
            LexState { quote: None, ..st }
        } else {
            LexState { current: st.current.push(c), ..st }
        }
    } else if c == '\'' || c == '"' {
        LexState { quote: Some(c), ..st }
    } else if c == '#' {
        LexState { stopped: true, ..st }
    } else if char_is_whitespace(c) {
        if st.current.len() > 0 {
            LexState { tokens: st.tokens.push(st.current), current: seq![], ..st }
        } else {
            st
        }
    } else {
        LexState { current: st.current.push(c), ..st }
    }
}

/// The lexer's state after all of `s`.
pub open spec fn lex(s: Seq<char>) -> LexState
    decreases s.len(),
{
    if s.len() == 0 {
        lex_start()
    } else {
        lex_char(lex(s.drop_last()), s.last())
    }
}

/// The tokens of a configuration line, or `None` when a quote is left open.
/// A trailing lone backslash stands for itself.
pub open spec fn tokens_of(s: Seq<char>) -> Option<Seq<Seq<char>>> {
    let st = lex(s);
    let last = if st.escaped {
        st.current.push('\\')
    } else {
        st.current
    };
    if st.quote is Some {
        None
    } else if last.len() > 0 {
        Some(st.tokens.push(last))
    } else {
        Some(st.tokens)
    }
}

proof fn lemma_lex_stopped(s: Seq<char>, k: int)
    requires
        0 <= k <= s.len(),
        lex(s.take(k)).stopped,
    ensures
        lex(s) == lex(s.take(k)),
    decreases s.len() - k,
{
    if k < s.len() {
        assert(s.take(k + 1).drop_last() =~= s.take(k));
        lemma_lex_stopped(s, k + 1);
    } else {
        assert(s.take(k) =~= s);
    }
}

/// Splits a configuration line into tokens; fails on an unterminated quote.
pub fn tokenize(line: &str) -> (r: Result<Vec<String>, &'static str>)
    ensures
        match r {
            Ok(tokens) => tokens_of(line@) == Some(views(tokens@)),
            Err(message) => tokens_of(line@) is None && message@ == "unterminated quote"@,
        },
{
    let chars = chars_of(line);
    let n = chars.len();
    let mut tokens: Vec<String> = Vec::new();
    let mut current: Vec<char> = Vec::new();
    let mut quote: Option<char> = None;
    let mut escaped = false;
    let mut i: usize = 0;
    let ghost s = line@;
    assert(s.take(0) =~= seq![]);
    assert(s.take(n as int) =~= s);
    assert(views(tokens@) =~= seq![]);
    assert(current@ =~= seq![]);
    while i < n
        invariant
            n == s.len(),
            s.take(n as int) == s,
            chars@ == s,
            0 <= i <= n,
            lex(s.take(i as int)) == (LexState {
                tokens: views(tokens@),
                current: current@,
                quote,
                escaped,
                stopped: false,
            }),
        ensures
            lex(s) == (LexState {
                tokens: views(tokens@),
                current: current@,
                quote,
                escaped,
                stopped: lex(s).stopped,
            }),
        decreases n - i,
    {
        let character = chars[i];
        assert(s.take(i + 1).drop_last() =~= s.take(i as int));
        assert(s.take(i + 1).last() == character);
        if escaped {
            current.push(character);
            escaped = false;
        } else if character == '\\' {
            escaped = true;
        } else if quote.is_some() {
            if character == quote.unwrap() {
                quote = None;
            } else {
                current.push(character);
            }
        } else if character == '\'' || character == '"' {
            quote = Some(character);
        } else if character == '#' {
            proof {
                lemma_lex_stopped(s, i + 1);
            }
            break;
        } else if is_whitespace(character) {
            if current.len() > 0 {
                let ghost old_tokens = tokens@;
                let token = string_of(current.as_slice());
                tokens.push(token);
                current = Vec::new();
                assert(views(tokens@) =~= views(old_tokens).push(token@));
                assert(current@ =~= seq![]);
            }
        } else {
            current.push(character);
        }
        i = i + 1;
    }
    if escaped {
        current.push('\\');
    }
    if quote.is_some() {
        return Err("unterminated quote");
    }
    if current.len() > 0 {
        let ghost old_tokens = tokens@;
        let token = string_of(current.as_slice());
        tokens.push(token);
        assert(views(tokens@) =~= views(old_tokens).push(token@));
    }
    Ok(tokens)
}

/// A `Host` pattern that names one host: not empty, and without the
/// wildcards `*`, `?` or the negation `!`.
pub open spec fn concrete_alias(alias: Seq<char>) -> bool {
    alias.len() > 0 && forall|i: int|
        0 <= i < alias.len() ==> {
            let c = #[trigger] alias[i];
            c != '*' && c != '?' && c != '!'
        }
}

/// Whether an alias names one concrete host.
pub fn is_concrete_alias(alias: &str) -> (r: bool)
    ensures
        r == concrete_alias(alias@),
{
    let chars = chars_of(alias);
    let n = chars.len();
    if n == 0 {
        return false;
    }
    let mut i: usize = 0;
    while i < n
        invariant
            n == alias@.len(),
            chars@ == alias@,
            0 <= i <= n,
            forall|k: int|
                0 <= k < i ==> {
                    let c = #[trigger] alias@[k];
                    c != '*' && c != '?' && c != '!'
                },
        decreases n - i,
    {
        let c = chars[i];
        if c == '*' || c == '?' || c == '!' {
            return false;
        }
        i = i + 1;
    }
    true
}


/// The keyword of a directive and its arguments: `Keyword=value` counts as
/// `Keyword value`, and an empty value after `=` is dropped.
pub open spec fn directive(tokens: Seq<Seq<char>>) -> (Seq<char>, Seq<Seq<char>>) {
    let t = tokens[0];
    let k = index_of(t, '=');
    if k < t.len() {
        let v = t.skip(k + 1 as int);
        (t.take(k as int), if v.len() > 0 {
            seq![v] + tokens.skip(1)
        } else {
            tokens.skip(1)
        })
    } else {
        (t, tokens.skip(1))
    }
}

/// The host list after a `Host` line: each concrete alias not yet listed is
/// appended, in order.
pub open spec fn add_aliases(hosts: Seq<Seq<char>>, aliases: Seq<Seq<char>>) -> Seq<Seq<char>>
    decreases aliases.len(),
{
    if aliases.len() == 0 {
        hosts
    } else {
        let h = add_aliases(hosts, aliases.drop_last());
        let a = aliases.last();
        if concrete_alias(a) && !h.contains(a) {
            h.push(a)
        } else {
            h
        }
    }
}

/// The host list names each host once, and only concrete aliases.
pub open spec fn hosts_ok(hosts: Seq<Seq<char>>) -> bool {
    hosts.no_duplicates() && forall|i: int| 0 <= i < hosts.len() ==> concrete_alias(#[trigger] hosts[i])
}

pub proof fn lemma_add_aliases(hosts: Seq<Seq<char>>, aliases: Seq<Seq<char>>)
    requires
        hosts_ok(hosts),
    ensures
        hosts_ok(add_aliases(hosts, aliases)),
        hosts.is_prefix_of(add_aliases(hosts, aliases)),
    decreases aliases.len(),
{
    if aliases.len() > 0 {
        lemma_add_aliases(hosts, aliases.drop_last());
        let h = add_aliases(hosts, aliases.drop_last());
        let a = aliases.last();
        if concrete_alias(a) && !h.contains(a) {
            let h2 = h.push(a);
            assert forall|i: int, j: int| 0 <= i < h2.len() && 0 <= j < h2.len() && i != j implies h2[i]
                != h2[j] by {
                if i == h.len() {
                    assert(h2[j] == h[j]);
                    if h[j] == a {
                        assert(h.contains(a));
                    }
                } else if j == h.len() {
                    assert(h2[i] == h[i]);
                    if h[i] == a {
                        assert(h.contains(a));
                    }
                }
            }
            assert(hosts =~= h2.subrange(0, hosts.len() as int));
        }
    } else {
        assert(hosts =~= hosts.subrange(0, hosts.len() as int));
    }
}

fn split_directive(tokens: &Vec<String>) -> (r: (String, Vec<String>))
    requires
        tokens@.len() > 0,
    ensures
        (r.0@, views(r.1@)) == directive(views(tokens@)),
{
    let first = chars_of(tokens[0].as_str());
    let k = find_char(first.as_slice(), '=');
    let ghost tv = views(tokens@);
    let mut args: Vec<String> = Vec::new();
    let keyword;
    if k < first.len() {
        keyword = string_of(sub_chars(first.as_slice(), 0, k).as_slice());
        let value = sub_chars(first.as_slice(), k + 1, first.len());
        assert(value@ =~= tv[0].skip(k + 1));
        assert(keyword@ =~= tv[0].take(k as int));
        if value.len() > 0 {
            args.push(string_of(value.as_slice()));
        }
    } else {
        keyword = tokens[0].clone();
    }
    let ghost start = views(args@);
    let mut i: usize = 1;
    while i < tokens.len()
        invariant
            tv == views(tokens@),
            1 <= i <= tokens@.len(),
            views(args@) == start + tv.subrange(1, i as int),
        decreases tokens@.len() - i,
    {
        let ghost before = args@;
        args.push(tokens[i].clone());
        assert(views(args@) =~= views(before).push(tv[i as int]));
        assert(tv.subrange(1, i + 1) =~= tv.subrange(1, i as int).push(tv[i as int]));
        i = i + 1;
    }
    assert(tv.subrange(1, tokens@.len() as int) =~= tv.skip(1));
    proof {
        if k < first@.len() {
            if start.len() > 0 {
                assert(views(args@) =~= seq![tv[0].skip(k + 1)] + tv.skip(1));
            } else {
                assert(views(args@) =~= tv.skip(1));
            }
        } else {
            assert(views(args@) =~= tv.skip(1));
        }
    }
    (keyword, args)
}

fn contains_string(v: &Vec<String>, s: &str) -> (r: bool)
    ensures
        r == views(v@).contains(s@),
{
    let n = v.len();
    let mut i: usize = 0;
    while i < n
        invariant
            n == v@.len(),
            0 <= i <= n,
            forall|k: int| 0 <= k < i ==> views(v@)[k] != s@,
        decreases n - i,
    {
        if str_equal(v[i].as_str(), s) {
            assert(views(v@)[i as int] == s@);
            return true;
        }
        i = i + 1;
    }
    false
}

fn add_hosts(hosts: &mut Vec<String>, aliases: &Vec<String>)
    ensures
        views(final(hosts)@) == add_aliases(views(old(hosts)@), views(aliases@)),
{
    let ghost av = views(aliases@);
    let ghost start = views(hosts@);
    let n = aliases.len();
    let mut i: usize = 0;
    assert(av.take(0) =~= seq![]);
    while i < n
        invariant
            n == aliases@.len(),
            av == views(aliases@),
            0 <= i <= n,
            views(hosts@) == add_aliases(start, av.take(i as int)),
        decreases n - i,
    {
        let alias = aliases[i].as_str();
        assert(av.take(i + 1).drop_last() =~= av.take(i as int));
        assert(av.take(i + 1).last() == alias@);
        if is_concrete_alias(alias) && !contains_string(hosts, alias) {
            let ghost before = hosts@;
            hosts.push(alias.to_owned());
            assert(views(hosts@) =~= views(before).push(alias@));
        }
        i = i + 1;
    }
    assert(av.take(n as int) =~= av);
}

/// Hosts and warnings read from a configuration.
#[derive(Debug, PartialEq, Eq)]
pub struct ParseResult {
    pub hosts: Vec<String>,
    pub warnings: Vec<String>,
}

impl Default for ParseResult {
    fn default() -> (r: Self)
        ensures
            r.hosts@.len() == 0,
            r.warnings@.len() == 0,
    {
        ParseResult { hosts: Vec::new(), warnings: Vec::new() }
    }
}


/// What a pending piece of work walks through.
#[derive(Debug, Clone, Copy, PartialEq, Eq, Structural)]
pub enum TaskKind {
    /// The lines of a file that was read.
    Lines,
    /// The patterns of an `Include` line.
    Patterns,
    /// The files an `Include` pattern matched (or the top configuration file).
    Paths,
}

/// Pending work: the items still to walk through, from `next` on.
struct Task {
    kind: TaskKind,
    path: String,
    items: Vec<String>,
    next: usize,
    depth: usize,
}

/// The meaning of pending work.
#[verifier::ext_equal]
pub struct TaskView {
    pub kind: TaskKind,
    pub path: Seq<char>,
    pub items: Seq<Seq<char>>,
    pub next: nat,
    pub depth: nat,
}

impl View for Task {
    type V = TaskView;

    closed spec fn view(&self) -> TaskView {
        TaskView {
            kind: self.kind,
            path: self.path@,
            items: views(self.items@),
            next: self.next as nat,
            depth: self.depth as nat,
        }
    }
}

/// The views of pending work.
spec fn task_views(v: Seq<Task>) -> Seq<TaskView> {
    v.map_values(|t: Task| t@)
}

/// What the parser waits to be told.
enum Waiting {
    Nothing,
    Open { path: String, depth: usize },
    Read { path: String, depth: usize },
    Expand { pattern: String, depth: usize },
}

/// The meaning of what the parser waits for.
pub enum WaitView {
    Nothing,
    Open(Seq<char>, nat),
    Read(Seq<char>, nat),
    Expand(Seq<char>, nat),
}

impl View for Waiting {
    type V = WaitView;

    closed spec fn view(&self) -> WaitView {
        match self {
            Waiting::Nothing => WaitView::Nothing,
            Waiting::Open { path, depth } => WaitView::Open(path@, *depth as nat),
            Waiting::Read { path, depth } => WaitView::Read(path@, *depth as nat),
            Waiting::Expand { pattern, depth } => WaitView::Expand(pattern@, *depth as nat),
        }
    }
}

/// What the caller has to do next for the parser.
#[derive(Debug, PartialEq, Eq)]
pub enum ParseStep {
    /// Resolve this file's canonical path and pass it to [`ConfigParser::open_file`].
    Open { path: String },
    /// Glob this pattern and pass the outcome to [`ConfigParser::expansion_listed`]
    /// or [`ConfigParser::expansion_failed`].
    Expand { pattern: String },
    /// Nothing to fetch; ask for the next step.
    Proceed,
    /// All files are read; take the result with [`ConfigParser::finish`].
    Done,
}

/// The meaning of a [`ParseStep`].
pub enum StepView {
    Open(Seq<char>),
    Expand(Seq<char>),
    Proceed,
    Done,
}

impl View for ParseStep {
    type V = StepView;

    open spec fn view(&self) -> StepView {
        match self {
            ParseStep::Open { path } => StepView::Open(path@),
            ParseStep::Expand { pattern } => StepView::Expand(pattern@),
            ParseStep::Proceed => StepView::Proceed,
            ParseStep::Done => StepView::Done,
        }
    }
}

/// Reads the `Host` aliases of an OpenSSH configuration, following `Include`
/// directives depth first, each file at most once.
pub struct ConfigParser {
    home: String,
    include_base: String,
    hosts: Vec<String>,
    warnings: Vec<String>,
    visited: Vec<String>,
    tasks: Vec<Task>,
    waiting: Waiting,
}

/// The meaning of a [`ConfigParser`].
#[verifier::ext_equal]
pub struct ParserView {
    pub home: Seq<char>,
    pub include_base: Seq<char>,
    pub hosts: Seq<Seq<char>>,
    pub warnings: Seq<Seq<char>>,
    pub visited: Seq<Seq<char>>,
    pub tasks: Seq<TaskView>,
    pub waiting: WaitView,
}

impl View for ConfigParser {
    type V = ParserView;

    closed spec fn view(&self) -> ParserView {
        ParserView {
            home: self.home@,
            include_base: self.include_base@,
            hosts: views(self.hosts@),
            warnings: views(self.warnings@),
            visited: views(self.visited@),
            tasks: task_views(self.tasks@),
            waiting: self.waiting@,
        }
    }
}

/// Include depths stay small: files are read at depth at most
/// [`MAX_INCLUDE_DEPTH`], and what they include one deeper.
pub open spec fn depths_bounded(p: ParserView) -> bool {
    &&& forall|i: int|
        0 <= i < p.tasks.len() ==> #[trigger] p.tasks[i].depth <= MAX_INCLUDE_DEPTH + 1 && (
        p.tasks[i].kind == TaskKind::Lines ==> p.tasks[i].depth <= MAX_INCLUDE_DEPTH)
    &&& match p.waiting {
        WaitView::Nothing => true,
        WaitView::Open(_, d) => d <= MAX_INCLUDE_DEPTH,
        WaitView::Read(_, d) => d <= MAX_INCLUDE_DEPTH,
        WaitView::Expand(_, d) => d <= MAX_INCLUDE_DEPTH + 1,
    }
}

/// The parser for the configuration at `config`, with `~` standing for
/// `home`: relative includes are taken from the directory of `config`
/// (or `.` when it has none).
pub open spec fn initial_parser(config: Seq<char>, home: Seq<char>) -> ParserView {
    ParserView {
        home,
        include_base: match std_parent(config) {
            Some(p) => p,
            None => "."@,
        },
        hosts: seq![],
        warnings: seq![],
        visited: seq![],
        tasks: seq![
            TaskView { kind: TaskKind::Paths, path: seq![], items: seq![config], next: 0, depth: 0 },
        ],
        waiting: WaitView::Nothing,
    }
}

/// The warning for a file nested too deeply.
pub open spec fn depth_warning(path: Seq<char>) -> Seq<char> {
    "maximum Include depth ("@ + decimal(MAX_INCLUDE_DEPTH as nat) + ") exceeded at "@ + path
}

/// The warning for a line that cannot be split into tokens.
pub open spec fn line_warning(path: Seq<char>, number: nat) -> Seq<char> {
    path + ":"@ + decimal(number) + ": "@ + "unterminated quote"@
}

/// The effect of line `number` (counting from 1) of file `path`, read at `depth`.
pub open spec fn read_line(p: ParserView, path: Seq<char>, number: nat, line: Seq<char>, depth: nat) -> ParserView {
    match tokens_of(line) {
        None => ParserView { warnings: p.warnings.push(line_warning(path, number)), ..p },
        Some(tokens) => if tokens.len() == 0 {
            p
        } else {
            let (keyword, args) = directive(tokens);
            if lower(keyword) == lower("host"@) {
                ParserView { hosts: add_aliases(p.hosts, args), ..p }
            } else if lower(keyword) == lower("include"@) {
                ParserView {
                    tasks: p.tasks.push(
                        TaskView {
                            kind: TaskKind::Patterns,
                            path: seq![],
                            items: args,
                            next: 0,
                            depth: depth + 1,
                        },
                    ),
                    ..p
                }
            } else {
                p
            }
        },
    }
}

/// One step of the walk: the next item of the innermost pending work.
/// A file to open or a pattern to glob is handed to the caller; a file
/// nested too deeply gives a warning instead; a line is read in place.
pub open spec fn step(p: ParserView) -> (ParserView, StepView) {
    if !(p.waiting is Nothing) {
        (p, StepView::Proceed)
    } else if p.tasks.len() == 0 {
        (p, StepView::Done)
    } else {
        let t = p.tasks.last();
        if t.next >= t.items.len() {
            (ParserView { tasks: p.tasks.drop_last(), ..p }, StepView::Proceed)
        } else {
            let item = t.items[t.next as int];
            let p1 = ParserView {
                tasks: p.tasks.update(p.tasks.len() - 1, TaskView { next: t.next + 1, ..t }),
                ..p
            };
            match t.kind {
                TaskKind::Paths => if t.depth > MAX_INCLUDE_DEPTH {
                    (ParserView { warnings: p1.warnings.push(depth_warning(item)), ..p1 }, StepView::Proceed)
                } else {
                    (ParserView { waiting: WaitView::Open(item, t.depth), ..p1 }, StepView::Open(item))
                },
                TaskKind::Patterns => {
                    let e = include_path(p.home, p.include_base, item);
                    (ParserView { waiting: WaitView::Expand(e, t.depth), ..p1 }, StepView::Expand(e))
                },
                TaskKind::Lines => (read_line(p1, t.path, t.next + 1, item, t.depth), StepView::Proceed),
            }
        }
    }
}

/// The file the parser waits to open, once its canonical path (if it has
/// one) is known: a file already read is skipped; otherwise it is marked as
/// read and the parser waits for its contents. Files are told apart by their
/// canonical path, or by their normalised path when it has none.
pub open spec fn open_file_step(p: ParserView, canonical: Option<Seq<char>>) -> (ParserView, bool) {
    match p.waiting {
        WaitView::Open(path, depth) => {
            let key = match canonical {
                Some(k) => k,
                None => normalized(path),
            };
            if p.visited.contains(key) {
                (ParserView { waiting: WaitView::Nothing, ..p }, false)
            } else {
                (
                    ParserView {
                        visited: p.visited.push(key),
                        waiting: WaitView::Read(path, depth),
                        ..p
                    },
                    true,
                )
            }
        },
        _ => (p, false),
    }
}

/// The contents of the file the parser waits for, or why it could not be read.
pub open spec fn file_read_step(p: ParserView, contents: Result<Seq<char>, Seq<char>>) -> ParserView {
    match p.waiting {
        WaitView::Read(path, depth) => match contents {
            Ok(text) => ParserView {
                tasks: p.tasks.push(
                    TaskView { kind: TaskKind::Lines, path, items: lines(text), next: 0, depth },
                ),
                waiting: WaitView::Nothing,
                ..p
            },
            Err(e) => ParserView {
                warnings: p.warnings.push(path + ": "@ + e),
                waiting: WaitView::Nothing,
                ..p
            },
        },
        _ => p,
    }
}

/// A pattern the parser waits for could not be globbed.
pub open spec fn expansion_failed_step(p: ParserView, error: Seq<char>) -> ParserView {
    match p.waiting {
        WaitView::Expand(pattern, _) => ParserView {
            warnings: p.warnings.push("invalid Include pattern "@ + pattern + ": "@ + error),
            waiting: WaitView::Nothing,
            ..p
        },
        _ => p,
    }
}

/// The warnings for the entries of a glob that could not be read, in order.
pub open spec fn glob_warnings(entries: Seq<Result<Seq<char>, Seq<char>>>) -> Seq<Seq<char>>
    decreases entries.len(),
{
    if entries.len() == 0 {
        seq![]
    } else {
        glob_warnings(entries.drop_last()) + match entries.last() {
            Ok(_) => seq![],
            Err(e) => seq!["Include glob error: "@ + e],
        }
    }
}

/// The paths a glob matched, in the order it yielded them.
pub open spec fn glob_matches(entries: Seq<Result<Seq<char>, Seq<char>>>) -> Seq<Seq<char>>
    decreases entries.len(),
{
    if entries.len() == 0 {
        seq![]
    } else {
        glob_matches(entries.drop_last()) + match entries.last() {
            Ok(m) => seq![m],
            Err(_) => seq![],
        }
    }
}

/// The entries a glob of the awaited pattern yielded: unreadable entries give
/// warnings, the matches are read in path order, each at the include's depth.
pub open spec fn expansion_listed_step(p: ParserView, entries: Seq<Result<Seq<char>, Seq<char>>>) -> ParserView {
    match p.waiting {
        WaitView::Expand(_, depth) => ParserView {
            warnings: p.warnings + glob_warnings(entries),
            tasks: p.tasks.push(
                TaskView {
                    kind: TaskKind::Paths,
                    path: seq![],
                    items: sorted_paths(glob_matches(entries)),
                    next: 0,
                    depth,
                },
            ),
            waiting: WaitView::Nothing,
            ..p
        },
        _ => p,
    }
}

/// The view of an optional string.
pub open spec fn opt_string_view(o: Option<String>) -> Option<Seq<char>> {
    match o {
        Some(s) => Some(s@),
        None => None,
    }
}

/// The view of a file's contents or of the reason it could not be read.
pub open spec fn outcome_view(r: Result<String, String>) -> Result<Seq<char>, Seq<char>> {
    match r {
        Ok(s) => Ok(s@),
        Err(e) => Err(e@),
    }
}

/// The views of glob entries.
pub open spec fn outcome_views(v: Seq<Result<String, String>>) -> Seq<Result<Seq<char>, Seq<char>>> {
    v.map_values(|r: Result<String, String>| outcome_view(r))
}

impl ConfigParser {
    #[verifier::type_invariant]
    spec fn well_formed(self) -> bool {
        &&& depths_bounded(self@)
        &&& hosts_ok(self@.hosts)
        &&& self@.visited.no_duplicates()
    }

    fn push_warning(&mut self, w: String)
        ensures
            final(self)@ == (ParserView { warnings: old(self)@.warnings.push(w@), ..old(self)@ }),
    {
        proof {
            use_type_invariant(&*self);
        }
        let mut ws: Vec<String> = Vec::new();
        std::mem::swap(&mut ws, &mut self.warnings);
        let ghost before = ws@;
        ws.push(w);
        assert(views(ws@) =~= views(before).push(w@));
        self.warnings = ws;
    }

    fn push_task(&mut self, t: Task)
        requires
            t@.depth <= MAX_INCLUDE_DEPTH + 1,
            t@.kind == TaskKind::Lines ==> t@.depth <= MAX_INCLUDE_DEPTH,
        ensures
            final(self)@ == (ParserView { tasks: old(self)@.tasks.push(t@), ..old(self)@ }),
    {
        proof {
            use_type_invariant(&*self);
        }
        let mut ts: Vec<Task> = Vec::new();
        std::mem::swap(&mut ts, &mut self.tasks);
        let ghost before = ts@;
        let ghost tv = t@;
        ts.push(t);
        assert(task_views(ts@) =~= task_views(before).push(tv));
        self.tasks = ts;
    }

    fn pop_task(&mut self) -> (r: Option<Task>)
        ensures
            old(self)@.tasks.len() == 0 ==> r is None && final(self)@ == old(self)@,
            old(self)@.tasks.len() > 0 ==> (r matches Some(t) && t@ == old(self)@.tasks.last()),
            old(self)@.tasks.len() > 0 ==> final(self)@ == (ParserView {
                tasks: old(self)@.tasks.drop_last(),
                ..old(self)@
            }),
    {
        proof {
            use_type_invariant(&*self);
        }
        let mut ts: Vec<Task> = Vec::new();
        std::mem::swap(&mut ts, &mut self.tasks);
        let ghost before = ts@;
        let r = ts.pop();
        assert(before.len() > 0 ==> task_views(ts@) =~= task_views(before).drop_last());
        assert(before.len() == 0 ==> ts@ =~= before);
        self.tasks = ts;
        r
    }

    fn push_visited(&mut self, key: String)
        requires
            !old(self)@.visited.contains(key@),
        ensures
            final(self)@ == (ParserView { visited: old(self)@.visited.push(key@), ..old(self)@ }),
    {
        proof {
            use_type_invariant(&*self);
        }
        let mut vs: Vec<String> = Vec::new();
        std::mem::swap(&mut vs, &mut self.visited);
        let ghost before = vs@;
        let ghost kv = key@;
        vs.push(key);
        assert(views(vs@) =~= views(before).push(kv));
        self.visited = vs;
    }

    fn add_hosts_from(&mut self, aliases: &Vec<String>)
        ensures
            final(self)@ == (ParserView {
                hosts: add_aliases(old(self)@.hosts, views(aliases@)),
                ..old(self)@
            }),
    {
        proof {
            use_type_invariant(&*self);
        }
        let mut hs: Vec<String> = Vec::new();
        std::mem::swap(&mut hs, &mut self.hosts);
        add_hosts(&mut hs, aliases);
        proof {
            lemma_add_aliases(views(old(self).hosts@), views(aliases@));
        }
        self.hosts = hs;
    }

    /// A parser for the configuration file at `config_path`; `~` in
    /// `Include` patterns stands for `home`.
    pub fn new(config_path: &str, home: &str) -> (r: Self)
        ensures
            r@ == initial_parser(config_path@, home@),
    {
        let include_base = match path_parent(config_path) {
            Some(p) => p,
            None => ".".to_owned(),
        };
        let mut items: Vec<String> = Vec::new();
        items.push(config_path.to_owned());
        assert(views(items@) =~= seq![config_path@]);
        let mut tasks: Vec<Task> = Vec::new();
        tasks.push(Task { kind: TaskKind::Paths, path: String::new(), items, next: 0, depth: 0 });
        let r = ConfigParser {
            home: home.to_owned(),
            include_base,
            hosts: Vec::new(),
            warnings: Vec::new(),
            visited: Vec::new(),
            tasks,
            waiting: Waiting::Nothing,
        };
        assert(r@.tasks =~= initial_parser(config_path@, home@).tasks);
        assert(r@.hosts =~= seq![]);
        assert(r@.warnings =~= seq![]);
        assert(r@.visited =~= seq![]);
        r
    }

    /// Reads one line of `path` at `depth` (its number counting from 1).
    fn read_line(&mut self, path: &str, number: usize, line: &str, depth: usize)
        requires
            depth <= MAX_INCLUDE_DEPTH,
        ensures
            final(self)@ == read_line(old(self)@, path@, number as nat, line@, depth as nat),
    {
        proof {
            use_type_invariant(&*self);
        }
        match tokenize(line) {
            Err(message) => {
                let mut w = concat(path, ":");
                let digits = decimal_chars(number as u64);
                push_chars(&mut w, digits.as_slice());
                push_str(&mut w, ": ");
                push_str(&mut w, message);
                assert(w@ == line_warning(path@, number as nat));
                self.push_warning(w);
            },
            Ok(tokens) => {
                if tokens.len() == 0 {
                    return;
                }
                let (keyword, args) = split_directive(&tokens);
                let kc = chars_of(keyword.as_str());
                let host_word = chars_of("host");
                let include_word = chars_of("include");
                if eq_ignore_ascii_case(kc.as_slice(), host_word.as_slice()) {
                    self.add_hosts_from(&args);
                } else if eq_ignore_ascii_case(kc.as_slice(), include_word.as_slice()) {
                    let task = Task {
                        kind: TaskKind::Patterns,
                        path: String::new(),
                        items: args,
                        next: 0,
                        depth: depth + 1,
                    };
                    self.push_task(task);
                }
            },
        }
    }

    /// Takes the next step of the walk and says what the caller has to fetch.
    pub fn next_step(&mut self) -> (r: ParseStep)
        ensures
            final(self)@ == step(old(self)@).0,
            r@ == step(old(self)@).1,
    {
        proof {
            use_type_invariant(&*self);
        }
        match &self.waiting {
            Waiting::Nothing => {},
            _ => {
                return ParseStep::Proceed;
            },
        }
        if self.tasks.len() == 0 {
            return ParseStep::Done;
        }
        let ghost old_tasks = self@.tasks;
        let mut task = match self.pop_task() {
            Some(t) => t,
            None => {
                return ParseStep::Done;
            },
        };
        if task.next >= task.items.len() {
            return ParseStep::Proceed;
        }
        let item = task.items[task.next].clone();
        let number = task.next + 1;
        task.next = number;
        let kind = task.kind;
        let depth = task.depth;
        let path = task.path.clone();
        let ghost tv = task@;
        proof {
            assert(old_tasks[old_tasks.len() - 1] == old_tasks.last());
        }
        self.push_task(task);
        assert(self@.tasks =~= old_tasks.update(old_tasks.len() - 1, tv));
        match kind {
            TaskKind::Paths => {
                if depth > MAX_INCLUDE_DEPTH {
                    let mut w = "maximum Include depth (".to_owned();
                    let digits = decimal_chars(MAX_INCLUDE_DEPTH as u64);
                    push_chars(&mut w, digits.as_slice());
                    push_str(&mut w, ") exceeded at ");
                    push_str(&mut w, item.as_str());
                    assert(w@ == depth_warning(item@));
                    self.push_warning(w);
                    ParseStep::Proceed
                } else {
                    self.waiting = Waiting::Open { path: item.clone(), depth };
                    ParseStep::Open { path: item }
                }
            },
            TaskKind::Patterns => {
                let pattern = expand_include(
                    self.home.as_str(),
                    self.include_base.as_str(),
                    item.as_str(),
                );
                self.waiting = Waiting::Expand { pattern: pattern.clone(), depth };
                ParseStep::Expand { pattern }
            },
            TaskKind::Lines => {
                self.read_line(path.as_str(), number, item.as_str(), depth);
                ParseStep::Proceed
            },
        }
    }

    /// Tells the parser the canonical path of the file it waits to open
    /// (`None` when it has none) and answers whether the caller should read it.
    pub fn open_file(&mut self, canonical: Option<String>) -> (read: bool)
        ensures
            final(self)@ == open_file_step(old(self)@, opt_string_view(canonical)).0,
            read == open_file_step(old(self)@, opt_string_view(canonical)).1,
    {
        proof {
            use_type_invariant(&*self);
        }
        let (path, depth) = match &self.waiting {
            Waiting::Open { path, depth } => (path.clone(), *depth),
            _ => {
                return false;
            },
        };
        let key = match canonical {
            Some(k) => k,
            None => normalize_path(path.as_str()),
        };
        if contains_string(&self.visited, key.as_str()) {
            self.waiting = Waiting::Nothing;
            return false;
        }
        self.push_visited(key);
        self.waiting = Waiting::Read { path, depth };
        true
    }

    /// Tells the parser the contents of the file it waits for, or why it
    /// could not be read.
    pub fn file_read(&mut self, contents: Result<String, String>)
        ensures
            final(self)@ == file_read_step(old(self)@, outcome_view(contents)),
    {
        proof {
            use_type_invariant(&*self);
        }
        let (path, depth) = match &self.waiting {
            Waiting::Read { path, depth } => (path.clone(), *depth),
            _ => {
                return;
            },
        };
        match contents {
            Ok(text) => {
                let chars = chars_of(text.as_str());
                let split = split_lines(chars.as_slice());
                let mut items: Vec<String> = Vec::new();
                let mut i: usize = 0;
                while i < split.len()
                    invariant
                        0 <= i <= split@.len(),
                        views(items@) == seqs_of(split@).take(i as int),
                    decreases split@.len() - i,
                {
                    let ghost before = items@;
                    items.push(string_of(split[i].as_slice()));
                    assert(views(items@) =~= views(before).push(seqs_of(split@)[i as int]));
                    assert(seqs_of(split@).take(i + 1) =~= seqs_of(split@).take(i as int).push(
                        seqs_of(split@)[i as int],
                    ));
                    i = i + 1;
                }
                assert(seqs_of(split@).take(split@.len() as int) =~= seqs_of(split@));
                let task = Task { kind: TaskKind::Lines, path, items, next: 0, depth };
                self.push_task(task);
            },
            Err(error) => {
                let mut w = concat(path.as_str(), ": ");
                push_str(&mut w, error.as_str());
                self.push_warning(w);
            },
        }
        self.waiting = Waiting::Nothing;
    }

    /// Tells the parser that the pattern it waits for could not be globbed.
    pub fn expansion_failed(&mut self, error: &str)
        ensures
            final(self)@ == expansion_failed_step(old(self)@, error@),
    {
        proof {
            use_type_invariant(&*self);
        }
        let pattern = match &self.waiting {
            Waiting::Expand { pattern, .. } => pattern.clone(),
            _ => {
                return;
            },
        };
        let mut w = concat("invalid Include pattern ", pattern.as_str());
        push_str(&mut w, ": ");
        push_str(&mut w, error);
        self.push_warning(w);
        self.waiting = Waiting::Nothing;
    }

    /// Tells the parser what globbing the pattern it waits for yielded: each
    /// entry a matching path or the reason an entry could not be read.
    pub fn expansion_listed(&mut self, entries: Vec<Result<String, String>>)
        ensures
            final(self)@ == expansion_listed_step(old(self)@, outcome_views(entries@)),
    {
        proof {
            use_type_invariant(&*self);
        }
        let depth = match &self.waiting {
            Waiting::Expand { depth, .. } => *depth,
            _ => {
                return;
            },
        };
        let ghost ev = outcome_views(entries@);
        let mut warnings: Vec<String> = Vec::new();
        let mut matches: Vec<String> = Vec::new();
        let n = entries.len();
        let mut i: usize = 0;
        assert(ev.take(0) =~= seq![]);
        assert(views(warnings@) =~= glob_warnings(ev.take(0)));
        while i < n
            invariant
                n == entries@.len(),
                ev == outcome_views(entries@),
                0 <= i <= n,
                views(warnings@) == glob_warnings(ev.take(i as int)),
                views(matches@) == glob_matches(ev.take(i as int)),
            decreases n - i,
        {
            assert(ev.take(i + 1).drop_last() =~= ev.take(i as int));
            assert(ev.take(i + 1).last() == ev[i as int]);
            match &entries[i] {
                Ok(path) => {
                    let ghost before = matches@;
                    matches.push(path.clone());
                    assert(views(matches@) =~= views(before).push(path@));
                    assert(views(warnings@) =~= glob_warnings(ev.take(i + 1)));
                },
                Err(error) => {
                    let w = concat("Include glob error: ", error.as_str());
                    let ghost before = warnings@;
                    warnings.push(w);
                    assert(views(warnings@) =~= views(before).push(w@));
                    assert(views(warnings@) =~= glob_warnings(ev.take(i + 1)));
                    assert(views(matches@) =~= glob_matches(ev.take(i + 1)));
                },
            }
            i = i + 1;
        }
        assert(ev.take(n as int) =~= ev);
        let mut j: usize = 0;
        let ghost start = self@;
        while j < warnings.len()
            invariant
                0 <= j <= warnings@.len(),
                self@ == (ParserView {
                    warnings: start.warnings + views(warnings@).take(j as int),
                    ..start
                }),
            decreases warnings@.len() - j,
        {
            self.push_warning(warnings[j].clone());
            assert(views(warnings@).take(j + 1) =~= views(warnings@).take(j as int).push(
                views(warnings@)[j as int],
            ));
            assert(start.warnings + views(warnings@).take(j + 1) =~= (start.warnings + views(
                warnings@,
            ).take(j as int)).push(views(warnings@)[j as int]));
            j = j + 1;
        }
        assert(views(warnings@).take(j as int) =~= views(warnings@));
        let sorted = sort_paths(matches);
        let task = Task { kind: TaskKind::Paths, path: String::new(), items: sorted, next: 0, depth };
        self.push_task(task);
        self.waiting = Waiting::Nothing;
    }

    /// The hosts and warnings gathered so far; no host is named twice, and
    /// each is a concrete alias.
    pub fn finish(self) -> (r: ParseResult)
        ensures
            views(r.hosts@) == self@.hosts,
            views(r.warnings@) == self@.warnings,
            hosts_ok(views(r.hosts@)),
    {
        proof {
            use_type_invariant(&self);
        }
        ParseResult { hosts: self.hosts, warnings: self.warnings }
    }
}

} // verus!
