//! Properties of the picker, the configuration reader and workspace splits
//! as a whole.
use vstd::prelude::*;
use crate::order::{
    lemma_lt_irreflexive, lemma_lt_transitive, lemma_sorted_set_of, same_elements, strictly_sorted,
};
use crate::parser::{
    add_aliases, concrete_alias, expansion_failed_step, expansion_listed_step, file_read_step,
    depths_bounded, hosts_ok, initial_parser, lemma_add_aliases, lex, open_file_step, step, tokens_of, LexState,
    ParserView, WaitView, MAX_INCLUDE_DEPTH,
};
use crate::path::{component_lt, components, components_lt, insertion_point, path_lt, sorted_paths};
use crate::plugin::{
    first_pending, listing_step, split_request_step, PendingView, PluginView, SessionTabsView,
};
use crate::progress::{lemma_no_endless_run, moves};
use crate::state::{
    awaits_listing, backend_name, command_of, filtered, handle_step, host_matches, is_valid_name,
    is_worker_root, next_backend, popped, previous_backend, session_candidates, session_char,
    tmux_listing, valid_name, with_listing, worker_name, worker_root, workspace_command_of, AppView,
    Backend, CommandView, EffectView, Input, Stage,
};
use crate::text::{decimal, digit_char, lines, lower, occurs_at, zero_pad};
use crate::worker::{
    digit_value, digits_value, flag_value, is_digit, listed_max, next_index, reserved_max,
    word_scan, words, worker_of_words, worker_parts,
};

verus! {

/// Moving down the backend list and back up returns to the same backend, and
/// the other way round.
pub proof fn backend_moves_are_inverse(b: Backend)
    ensures
        previous_backend(next_backend(b)) == b,
        next_backend(previous_backend(b)) == b,
{
}

/// Four moves down the backend list come back to the start, passing through
/// tmux, tmux workspace panes, zellij and shell in that order.
pub proof fn backend_list_cycles(b: Backend)
    ensures
        next_backend(next_backend(next_backend(next_backend(b)))) == b,
        next_backend(Backend::Tmux) == Backend::TmuxWorker,
        next_backend(Backend::TmuxWorker) == Backend::Zellij,
        next_backend(Backend::Zellij) == Backend::Shell,
        next_backend(Backend::Shell) == Backend::Tmux,
{
}

/// Cancel closes the picker from every screen.
pub proof fn cancel_always_closes(s: AppView)
    ensures
        handle_step(s, Input::Cancel).1 == EffectView::Close,
{
}

/// Escape steps back one screen: from the backend list to the host list,
/// from every later screen to the backend list; on the host list it closes.
pub proof fn escape_steps_back(s: AppView)
    ensures
        s.stage == Stage::HostSelection ==> handle_step(s, Input::Escape).1 == EffectView::Close,
        s.stage == Stage::BackendSelection ==> handle_step(s, Input::Escape).0.stage
            == Stage::HostSelection,
        (s.stage == Stage::Loading || s.stage == Stage::TmuxSessionSelection || s.stage
            == Stage::SessionInput || s.stage == Stage::WorkspaceInput) ==> handle_step(
            s,
            Input::Escape,
        ).0.stage == Stage::BackendSelection,
{
}

/// After an arrow key the selection points at a row that exists: a host that
/// matches the filter, or a tmux session or the "new session" row below them.
pub proof fn selection_stays_on_a_row(s: AppView, input: Input)
    requires
        input is Up || input is Down,
    ensures
        s.stage == Stage::HostSelection && filtered(s.hosts, s.filter).len() > 0
            ==> handle_step(s, input).0.selected < filtered(s.hosts, s.filter).len(),
        s.stage == Stage::TmuxSessionSelection ==> handle_step(s, input).0.selected
            <= s.tmux_sessions.len(),
{
}

/// A name made only of session characters after each other is a safe name.
proof fn lemma_valid_concat(a: Seq<char>, b: Seq<char>)
    requires
        forall|i: int| 0 <= i < a.len() ==> session_char(#[trigger] a[i]),
        forall|i: int| 0 <= i < b.len() ==> session_char(#[trigger] b[i]),
    ensures
        forall|i: int| 0 <= i < (a + b).len() ==> session_char(#[trigger] (a + b)[i]),
{
    assert forall|i: int| 0 <= i < (a + b).len() implies session_char(#[trigger] (a + b)[i]) by {
        if i < a.len() {
            assert((a + b)[i] == a[i]);
        } else {
            assert((a + b)[i] == b[i - a.len()]);
        }
    }
}

proof fn lemma_decimal_digits(n: nat)
    ensures
        decimal(n).len() > 0,
        forall|i: int| 0 <= i < decimal(n).len() ==> '0' <= #[trigger] decimal(n)[i] <= '9',
    decreases n,
{
    if n >= 10 {
        lemma_decimal_digits(n / 10);
    }
}

/// Worker session names are safe session names when their workspace is.
pub proof fn worker_names_are_safe(workspace: Seq<char>, pane: nat)
    requires
        valid_name(workspace),
    ensures
        valid_name(worker_name(workspace, pane)),
{
    reveal_strlit("zr-");
    reveal_strlit("-p");
    lemma_decimal_digits(pane);
    let d = decimal(pane);
    let z = zero_pad(d, 4);
    assert forall|i: int| 0 <= i < z.len() implies session_char(#[trigger] z[i]) by {
        if d.len() < 4 {
            let pad = Seq::new((4 - d.len()) as nat, |k: int| '0');
            assert(z == pad + d);
            if i < pad.len() {
                assert(z[i] == '0');
            } else {
                assert(z[i] == d[i - pad.len()]);
            }
        } else {
            assert(z[i] == d[i]);
        }
    }
    lemma_valid_concat("zr-"@, workspace);
    lemma_valid_concat("zr-"@ + workspace, "-p"@);
    lemma_valid_concat("zr-"@ + workspace + "-p"@, z);
}

/// Every connector command the picker asks for is safe: the shell backend
/// gets host and backend only; every other backend also gets a `--session`
/// whose value is a safe session name.
pub proof fn connect_commands_are_safe(s: AppView, input: Input)
    ensures
        handle_step(s, input).1 matches EffectView::Connect(c) ==> (c.args.len() == 4
            && c.args[3] == backend_name(Backend::Shell)) || (c.args.len() == 6 && c.args[4]
            == "--session"@ && valid_name(c.args[5])),
        handle_step(s, input).1 matches EffectView::ConnectWorkspace(c) ==> c.args.len() == 6
            && c.args[4] == "--session"@ && valid_name(c.args[5]),
{
    let s0 = AppView { error: None, ..s };
    if s0.stage == Stage::WorkspaceInput && input is Enter {
        if s0.host is Some && valid_name(s0.workspace) {
            worker_names_are_safe(s0.workspace, 1);
        }
    }
}

proof fn lemma_decimal_shape(n: nat)
    ensures
        decimal(n).len() > 0,
        n < 10 <==> decimal(n).len() == 1,
        n < 10 ==> decimal(n) == seq![crate::text::digit_char(n as int)],
        decimal(n).len() >= 2 ==> decimal(n)[0] != '0',
    decreases n,
{
    if n >= 10 {
        lemma_decimal_shape(n / 10);
        assert(decimal(n)[0] == decimal(n / 10)[0]);
    }
}

/// The first worker of a workspace leads back to the workspace, and no other
/// worker does.
pub proof fn worker_root_inverts_worker_name(workspace: Seq<char>, pane: nat)
    requires
        valid_name(workspace),
    ensures
        pane == 1 ==> worker_root(worker_name(workspace, pane)) == Some(workspace),
        pane != 1 ==> worker_root(worker_name(workspace, pane)) is None,
{
    reveal_strlit("zr-");
    reveal_strlit("-p");
    reveal_strlit("-p0001");
    lemma_decimal_digits(pane);
    lemma_decimal_shape(pane);
    let d = decimal(pane);
    let z = zero_pad(d, 4);
    let name = worker_name(workspace, pane);
    let p = "zr-"@;
    let q = "-p0001"@;
    assert(name =~= p + workspace + seq!['-', 'p'] + z);
    assert(name.take(3) =~= p);
    if pane == 1 {
        assert(d =~= seq!['1']);
        assert(z =~= seq!['0', '0', '0', '1']);
        assert(name.skip(name.len() - 6) =~= q);
        assert(name.subrange(3, name.len() - 6) =~= workspace);
    } else if name.len() >= 9 && name.skip(name.len() - 6) == q {
        if z.len() == 4 {
            assert(name.skip(name.len() - 6) =~= seq!['-', 'p'] + z);
            assert(z =~= seq!['0', '0', '0', '1']) by {
                assert forall|k: int| 0 <= k < 4 implies z[k] == q[k + 2] by {
                    assert((seq!['-', 'p'] + z)[k + 2] == z[k]);
                }
            }
            if d.len() == 4 {
                assert(z == d);
                assert(d[0] == '0');
            } else {
                let pad = Seq::new((4 - d.len()) as nat, |k: int| '0');
                assert(z == pad + d);
                assert(z[4 - d.len()] == d[0]);
                if d.len() == 1 {
                    assert(d[0] == '1');
                    assert(pane < 10);
                } else {
                    assert(4 - d.len() <= 2);
                    assert(d[0] == '0');
                }
            }
        } else {
            assert(z == d);
            assert(name[name.len() - 5] == z[z.len() - 5]);
            assert(name.skip(name.len() - 6)[1] == name[name.len() - 5]);
            assert('0' <= d[d.len() - 5] <= '9');
            assert(q[1] == 'p');
        }
    }
}

/// A tmux listing names each session once, in increasing order, and only
/// safe session names; a successful one names exactly the safe trimmed lines
/// of the output, a failed one none.
pub proof fn listed_sessions_are_sorted_safe_names(
    exit_code: Option<i32>,
    out: Seq<char>,
    err: Seq<char>,
)
    ensures
        strictly_sorted(tmux_listing(exit_code, out, err).0),
        forall|i: int|
            0 <= i < tmux_listing(exit_code, out, err).0.len() ==> valid_name(
                #[trigger] tmux_listing(exit_code, out, err).0[i],
            ),
        exit_code == Some(0i32) ==> same_elements(
            tmux_listing(exit_code, out, err).0,
            session_candidates(lines(out)),
        ),
        exit_code != Some(0i32) ==> tmux_listing(exit_code, out, err).0.len() == 0,
{
    let c = session_candidates(lines(out));
    lemma_sorted_set_of(c);
    let l = tmux_listing(exit_code, out, err).0;
    if exit_code == Some(0i32) {
        assert forall|i: int| 0 <= i < l.len() implies valid_name(#[trigger] l[i]) by {
            assert(l.contains(l[i]));
            assert(c.contains(l[i]));
            let k = choose|k: int| 0 <= k < c.len() && c[k] == l[i];
            let m = lines(out).map_values(crate::state::trim_each());
            m.lemma_filter_pred(is_valid_name(), k);
        }
    } else {
        let e: Seq<Seq<char>> = seq![];
        assert(l =~= e);
    }
}

/// A workspace picker offers only sessions that are the first worker of
/// some workspace.
pub proof fn workspace_picker_lists_only_roots(
    s: AppView,
    listing: (Seq<Seq<char>>, Option<Seq<char>>),
)
    requires
        s.backend == Backend::TmuxWorker,
    ensures
        forall|i: int|
            0 <= i < with_listing(s, listing).tmux_sessions.len() ==> worker_root(
                #[trigger] with_listing(s, listing).tmux_sessions[i],
            ) is Some,
{
    assert forall|i: int| 0 <= i < with_listing(s, listing).tmux_sessions.len() implies worker_root(
        #[trigger] with_listing(s, listing).tmux_sessions[i],
    ) is Some by {
        listing.0.lemma_filter_pred(is_worker_root(), i);
    }
}

proof fn lemma_filter_all(s: Seq<Seq<char>>, pred: spec_fn(Seq<char>) -> bool)
    requires
        forall|i: int| 0 <= i < s.len() ==> pred(#[trigger] s[i]),
    ensures
        s.filter(pred) == s,
    decreases s.len(),
{
    reveal(Seq::filter);
    if s.len() > 0 {
        lemma_filter_all(s.drop_last(), pred);
        assert(pred(s[s.len() - 1]));
        assert(s.drop_last().push(s.last()) =~= s);
    }
}

/// An empty host filter hides no host.
pub proof fn empty_filter_keeps_every_host(hosts: Seq<Seq<char>>)
    ensures
        filtered(hosts, seq![]) == hosts,
{
    assert forall|i: int| 0 <= i < hosts.len() implies host_matches(seq![])(#[trigger] hosts[i]) by {
        assert(lower(seq![]) =~= Seq::<char>::empty());
        assert(lower(hosts[i]).subrange(0, 0) =~= lower(seq![]));
        assert(occurs_at(lower(hosts[i]), lower(seq![]), 0));
    }
    lemma_filter_all(hosts, host_matches(seq![]));
}

/// Reading the configuration only ever appends hosts, each at its first
/// sighting: whatever the parser is told or does next, the host list keeps
/// its earlier entries in order, names no host twice and holds only
/// concrete aliases.
pub proof fn hosts_are_appended_once_each(
    p: ParserView,
    canonical: Option<Seq<char>>,
    contents: Result<Seq<char>, Seq<char>>,
    error: Seq<char>,
    entries: Seq<Result<Seq<char>, Seq<char>>>,
)
    requires
        hosts_ok(p.hosts),
    ensures
        hosts_ok(step(p).0.hosts) && p.hosts.is_prefix_of(step(p).0.hosts),
        hosts_ok(open_file_step(p, canonical).0.hosts) && p.hosts.is_prefix_of(
            open_file_step(p, canonical).0.hosts,
        ),
        hosts_ok(file_read_step(p, contents).hosts) && p.hosts.is_prefix_of(
            file_read_step(p, contents).hosts,
        ),
        hosts_ok(expansion_failed_step(p, error).hosts) && p.hosts.is_prefix_of(
            expansion_failed_step(p, error).hosts,
        ),
        hosts_ok(expansion_listed_step(p, entries).hosts) && p.hosts.is_prefix_of(
            expansion_listed_step(p, entries).hosts,
        ),
{
    assert(p.hosts =~= p.hosts.subrange(0, p.hosts.len() as int));
    if p.waiting is Nothing && p.tasks.len() > 0 {
        let t = p.tasks.last();
        if t.next < t.items.len() && t.kind == crate::parser::TaskKind::Lines {
            let item = t.items[t.next as int];
            match tokens_of(item) {
                Some(tokens) => if tokens.len() > 0 {
                    let (keyword, args) = crate::parser::directive(tokens);
                    lemma_add_aliases(p.hosts, args);
                },
                None => {},
            }
        }
    }
}

/// The configuration at hand starts with no hosts, and with its include
/// depths bounded.
pub proof fn reading_starts_without_hosts(config: Seq<char>, home: Seq<char>)
    ensures
        initial_parser(config, home).hosts.len() == 0,
        hosts_ok(initial_parser(config, home).hosts),
        depths_bounded(initial_parser(config, home)),
{
}

/// Each file is read at most once: the parser asks for a file's contents
/// only when its key was not seen before, and records the key; and the
/// record of keys only grows.
pub proof fn files_are_read_at_most_once(
    p: ParserView,
    canonical: Option<Seq<char>>,
    contents: Result<Seq<char>, Seq<char>>,
    error: Seq<char>,
    entries: Seq<Result<Seq<char>, Seq<char>>>,
)
    requires
        p.visited.no_duplicates(),
    ensures
        open_file_step(p, canonical).1 ==> {
            let key = match canonical {
                Some(k) => k,
                None => crate::path::normalized(p.waiting->Open_0),
            };
            &&& !p.visited.contains(key)
            &&& open_file_step(p, canonical).0.visited == p.visited.push(key)
        },
        open_file_step(p, canonical).0.visited.no_duplicates(),
        step(p).0.visited == p.visited,
        file_read_step(p, contents).visited == p.visited,
        expansion_failed_step(p, error).visited == p.visited,
        expansion_listed_step(p, entries).visited == p.visited,
{
    if open_file_step(p, canonical).1 {
        let key = match canonical {
            Some(k) => k,
            None => crate::path::normalized(p.waiting->Open_0),
        };
        let v2 = p.visited.push(key);
        assert forall|i: int, j: int| 0 <= i < v2.len() && 0 <= j < v2.len() && i != j implies v2[i]
            != v2[j] by {
            if i == p.visited.len() && v2[j] == key {
                assert(p.visited[j] == key);
            }
            if j == p.visited.len() && v2[i] == key {
                assert(p.visited[i] == key);
            }
        }
    }
}

/// No file deeper than [`MAX_INCLUDE_DEPTH`] is opened: a step that asks
/// for a file waits for it at a depth within the limit.
pub proof fn opened_files_are_within_depth(p: ParserView)
    ensures
        step(p).1 is Open ==> (step(p).0.waiting matches WaitView::Open(_, d)
            && d <= MAX_INCLUDE_DEPTH),
{
}

proof fn lemma_lex_tokens_nonempty(s: Seq<char>)
    ensures
        forall|i: int| 0 <= i < lex(s).tokens.len() ==> (#[trigger] lex(s).tokens[i]).len() > 0,
    decreases s.len(),
{
    if s.len() > 0 {
        lemma_lex_tokens_nonempty(s.drop_last());
    }
}

/// Tokens are never empty: an empty pair of quotes gives no token.
pub proof fn tokens_are_never_empty(line: Seq<char>)
    ensures
        tokens_of(line) matches Some(tokens) ==> forall|i: int|
            0 <= i < tokens.len() ==> (#[trigger] tokens[i]).len() > 0,
{
    lemma_lex_tokens_nonempty(line);
}

proof fn lemma_component_lt_irreflexive(a: (int, Seq<char>))
    ensures
        !component_lt(a, a),
{
    lemma_lt_irreflexive(a.1);
}

proof fn lemma_component_lt_transitive(a: (int, Seq<char>), b: (int, Seq<char>), c: (int, Seq<char>))
    requires
        component_lt(a, b),
        component_lt(b, c),
    ensures
        component_lt(a, c),
{
    if a.0 == b.0 && b.0 == c.0 {
        lemma_lt_transitive(a.1, b.1, c.1);
    }
}

proof fn lemma_components_lt_irreflexive(a: Seq<(int, Seq<char>)>)
    ensures
        !components_lt(a, a),
    decreases a.len(),
{
    if a.len() > 0 {
        lemma_components_lt_irreflexive(a.drop_first());
    }
}

proof fn lemma_components_lt_transitive(
    a: Seq<(int, Seq<char>)>,
    b: Seq<(int, Seq<char>)>,
    c: Seq<(int, Seq<char>)>,
)
    requires
        components_lt(a, b),
        components_lt(b, c),
    ensures
        components_lt(a, c),
    decreases a.len(),
{
    if a.len() > 0 && b.len() > 0 && c.len() > 0 {
        if a[0] == b[0] && b[0] == c[0] {
            lemma_components_lt_transitive(a.drop_first(), b.drop_first(), c.drop_first());
        } else if a[0] == b[0] {
        } else if b[0] == c[0] {
        } else {
            lemma_component_lt_transitive(a[0], b[0], c[0]);
            if a[0] == c[0] {
                lemma_component_lt_irreflexive(a[0]);
                lemma_component_lt_transitive(a[0], b[0], a[0]);
            }
        }
    }
}

/// No path sorts before itself, and the order is transitive.
pub proof fn path_order_is_strict(a: Seq<char>, b: Seq<char>, c: Seq<char>)
    ensures
        !path_lt(a, a),
        path_lt(a, b) && path_lt(b, c) ==> path_lt(a, c),
{
    lemma_components_lt_irreflexive(components(a));
    if path_lt(a, b) && path_lt(b, c) {
        lemma_components_lt_transitive(components(a), components(b), components(c));
    }
}

/// Paths sorted in front of an insertion point do not come after the new
/// path; the one at the point comes after it.
proof fn lemma_insertion_point_bounds(r: Seq<Seq<char>>, x: Seq<char>)
    ensures
        insertion_point(r, x) <= r.len(),
        forall|k: int| 0 <= k < insertion_point(r, x) ==> !path_lt(x, #[trigger] r[k]),
        insertion_point(r, x) < r.len() ==> path_lt(x, r[insertion_point(r, x) as int]),
    decreases r.len(),
{
    if r.len() > 0 && !path_lt(x, r[0]) {
        lemma_insertion_point_bounds(r.drop_first(), x);
        assert forall|k: int| 0 <= k < insertion_point(r, x) implies !path_lt(x, #[trigger] r[k]) by {
            if k > 0 {
                assert(r[k] == r.drop_first()[k - 1]);
            }
        }
    }
}

/// Included files are read in path order: no file is read before one that
/// sorts before it, and the files read are exactly those the glob matched.
pub proof fn matched_files_are_sorted(s: Seq<Seq<char>>)
    ensures
        forall|i: int, j: int|
            0 <= i < j < sorted_paths(s).len() ==> !path_lt(sorted_paths(s)[j], sorted_paths(s)[i]),
        sorted_paths(s).to_multiset() == s.to_multiset(),
    decreases s.len(),
{
    broadcast use vstd::seq_lib::group_to_multiset_ensures;

    if s.len() == 0 {
        assert(sorted_paths(s) =~= s);
    } else {
        matched_files_are_sorted(s.drop_last());
        let r = sorted_paths(s.drop_last());
        let x = s.last();
        let p = insertion_point(r, x) as int;
        lemma_insertion_point_bounds(r, x);
        let t = r.insert(p, x);
        assert(t == sorted_paths(s));
        assert forall|i: int, j: int| 0 <= i < j < t.len() implies !path_lt(t[j], t[i]) by {
            if i < p && j == p {
            } else if i == p && j > p {
                path_order_is_strict(x, r[p], x);
                path_order_is_strict(r[j - 1], x, r[p]);
                if j - 1 > p {
                    path_order_is_strict(r[j - 1], r[p], r[j - 1]);
                }
                if path_lt(r[j - 1], x) {
                    if j - 1 == p {
                        path_order_is_strict(x, r[p], x);
                    } else {
                        path_order_is_strict(r[j - 1], x, r[p]);
                    }
                }
            } else if i < p && j > p {
                assert(t[i] == r[i] && t[j] == r[j - 1]);
            } else if j < p {
                assert(t[i] == r[i] && t[j] == r[j]);
            } else {
                assert(t[i] == r[i - 1] && t[j] == r[j - 1]);
            }
        }
        assert(t.to_multiset() == r.to_multiset().insert(x));
        assert(s.drop_last().push(x).to_multiset() == s.drop_last().to_multiset().insert(x));
        assert(s =~= s.drop_last().push(x));
    }
}

/// The host filter ignores ASCII case: writing it in lowercase changes nothing.
pub proof fn filter_ignores_case(hosts: Seq<Seq<char>>, filter: Seq<char>)
    ensures
        filtered(hosts, filter) == filtered(hosts, lower(filter)),
{
    assert(lower(lower(filter)) =~= lower(filter));
    assert(host_matches(filter) =~= host_matches(lower(filter)));
}

/// Every input clears the previous error; an error is left only by an input
/// that just redraws the screen to show it.
pub proof fn errors_last_one_input(s: AppView, input: Input)
    ensures
        handle_step(s, input).0.error is Some ==> handle_step(s, input).1 == EffectView::Render,
{
}

/// A tmux listing is taken in at most once: once applied, the picker no
/// longer waits for it.
pub proof fn listings_are_taken_once(
    s: AppView,
    host: Seq<char>,
    listing: (Seq<Seq<char>>, Option<Seq<char>>),
)
    ensures
        !awaits_listing(with_listing(s, listing), host),
{
}

proof fn lemma_digit_char_injective(a: int, b: int)
    requires
        0 <= a < 10,
        0 <= b < 10,
        crate::text::digit_char(a) == crate::text::digit_char(b),
    ensures
        a == b,
{
}

proof fn lemma_decimal_injective(a: nat, b: nat)
    requires
        decimal(a) == decimal(b),
    ensures
        a == b,
    decreases a,
{
    lemma_decimal_shape(a);
    lemma_decimal_shape(b);
    if a < 10 && b < 10 {
        assert(decimal(a)[0] == decimal(b)[0]);
        assert(decimal(a)[0] == crate::text::digit_char(a as int));
        assert(decimal(b)[0] == crate::text::digit_char(b as int));
        lemma_digit_char_injective(a as int, b as int);
    } else if a >= 10 && b >= 10 {
        assert(decimal(a).drop_last() == decimal(b).drop_last());
        assert(decimal(a / 10) =~= decimal(a).drop_last());
        assert(decimal(b / 10) =~= decimal(b).drop_last());
        lemma_decimal_injective(a / 10, b / 10);
        assert(decimal(a).last() == decimal(b).last());
        assert(decimal(a).last() == crate::text::digit_char((a % 10) as int));
        assert(decimal(b).last() == crate::text::digit_char((b % 10) as int));
        lemma_digit_char_injective((a % 10) as int, (b % 10) as int);
    }
}

proof fn lemma_padded_decimal_injective(a: nat, b: nat)
    requires
        zero_pad(decimal(a), 4) == zero_pad(decimal(b), 4),
    ensures
        a == b,
{
    lemma_decimal_shape(a);
    lemma_decimal_shape(b);
    let da = decimal(a);
    let db = decimal(b);
    let z = zero_pad(da, 4);
    if da.len() >= 4 && db.len() >= 4 {
        lemma_decimal_injective(a, b);
    } else if da.len() == db.len() {
        let pad = Seq::new((4 - da.len()) as nat, |k: int| '0');
        assert(z == pad + da);
        assert(z == pad + db);
        assert(da =~= z.skip(pad.len() as int));
        assert(db =~= z.skip(pad.len() as int));
        lemma_decimal_injective(a, b);
    } else {
        let (short, long) = if da.len() < db.len() {
            (da, db)
        } else {
            (db, da)
        };
        assert(long.len() >= 2);
        assert(long[0] != '0');
        let pl = if long.len() >= 4 {
            0
        } else {
            4 - long.len()
        };
        let ps = 4 - short.len();
        assert(z[pl] == long[0]);
        assert(z[pl] == '0');
    }
}

/// Different panes of a workspace run different worker sessions.
pub proof fn worker_names_differ_by_pane(workspace: Seq<char>, a: nat, b: nat)
    requires
        worker_name(workspace, a) == worker_name(workspace, b),
    ensures
        a == b,
{
    let prefix = "zr-"@ + workspace + "-p"@;
    let za = zero_pad(decimal(a), 4);
    let zb = zero_pad(decimal(b), 4);
    assert(worker_name(workspace, a) == prefix + za);
    assert(worker_name(workspace, b) == prefix + zb);
    assert(za =~= (prefix + za).skip(prefix.len() as int));
    assert(zb =~= (prefix + zb).skip(prefix.len() as int));
    lemma_padded_decimal_injective(a, b);
}

proof fn lemma_listed_max(ss: Seq<Seq<char>>, w: Seq<char>, k: int)
    requires
        0 <= k < ss.len(),
    ensures
        match worker_parts(ss[k]) {
            Some((w2, n)) => w2 == w ==> n <= listed_max(ss, w),
            None => true,
        },
    decreases ss.len(),
{
    if k < ss.len() - 1 {
        lemma_listed_max(ss.drop_last(), w, k);
    }
}

proof fn lemma_reserved_max(rs: Seq<(Seq<char>, Seq<char>, nat)>, h: Seq<char>, w: Seq<char>, k: int)
    requires
        0 <= k < rs.len(),
        rs[k].0 == h,
        rs[k].1 == w,
    ensures
        rs[k].2 <= reserved_max(rs, h, w),
    decreases rs.len(),
{
    if k < rs.len() - 1 {
        lemma_reserved_max(rs.drop_last(), h, w, k);
    }
}

/// A split opens a fresh worker: when the listing of the host arrives, the
/// worker of the first split waiting for it is `zr-<workspace>-p<m>` where
/// `m` is above the index of every listed worker of that workspace and of
/// every name reserved for it on that host; `m` is then reserved too. Only
/// the listing and the reservations count, nothing else remembered.
pub proof fn split_workers_are_fresh(
    p: PluginView,
    host: Seq<char>,
    exit_code: Option<i32>,
    out: Seq<char>,
    err: Seq<char>,
)
    requires
        listing_step(p, host, exit_code, out, err).1 is Some,
    ensures
        ({
            let q = p.pending[first_pending(p.pending, host)->0];
            let listed = tmux_listing(exit_code, out, err).0;
            let m = next_index(listed, p.reserved, q.host, q.workspace);
            let r = listing_step(p, host, exit_code, out, err);
            &&& q.host == host
            &&& (r.1->0).1 == worker_name(q.workspace, m)
            &&& forall|k: int|
                0 <= k < listed.len() ==> match worker_parts(#[trigger] listed[k]) {
                    Some((w, n)) => w == q.workspace ==> n < m,
                    None => true,
                }
            &&& forall|k: int|
                0 <= k < p.reserved.len() && (#[trigger] p.reserved[k]).0 == q.host && p.reserved[k].1
                    == q.workspace ==> p.reserved[k].2 < m
            &&& r.0.reserved == p.reserved.push((q.host, q.workspace, m))
        }),
{
    let i = first_pending(p.pending, host)->0;
    lemma_first_pending(p.pending, host);
    let q = p.pending[i];
    let listed = tmux_listing(exit_code, out, err).0;
    assert forall|k: int| 0 <= k < listed.len() implies match worker_parts(#[trigger] listed[k]) {
        Some((w, n)) => w == q.workspace ==> n < next_index(listed, p.reserved, q.host, q.workspace),
        None => true,
    } by {
        lemma_listed_max(listed, q.workspace, k);
    }
    assert forall|k: int|
        0 <= k < p.reserved.len() && (#[trigger] p.reserved[k]).0 == q.host && p.reserved[k].1
            == q.workspace implies p.reserved[k].2 < next_index(
        listed,
        p.reserved,
        q.host,
        q.workspace,
    ) by {
        lemma_reserved_max(p.reserved, q.host, q.workspace, k);
    }
}

proof fn lemma_first_pending(ps: Seq<PendingView>, host: Seq<char>)
    ensures
        first_pending(ps, host) matches Some(i) ==> 0 <= i < ps.len() && ps[i].host == host,
    decreases ps.len(),
{
    if ps.len() > 0 && ps[0].host != host {
        lemma_first_pending(ps.drop_first(), host);
    }
}

proof fn lemma_plain_lex(s: Seq<char>)
    requires
        forall|i: int|
            0 <= i < s.len() ==> #[trigger] s[i] != '\'' && s[i] != '"' && s[i] != '\\' && s[i]
                != '#',
    ensures
        lex(s) == (LexState {
            tokens: word_scan(s).words,
            current: word_scan(s).current,
            quote: None,
            escaped: false,
            stopped: false,
        }),
    decreases s.len(),
{
    if s.len() > 0 {
        assert forall|i: int| 0 <= i < s.drop_last().len() implies #[trigger] s.drop_last()[i]
            != '\'' && s.drop_last()[i] != '"' && s.drop_last()[i] != '\\' && s.drop_last()[i]
            != '#' by {
            assert(s.drop_last()[i] == s[i]);
        }
        lemma_plain_lex(s.drop_last());
        assert(s[s.len() - 1] == s.last());
    }
}

/// A configuration line without quotes, backslashes or `#` splits into its
/// whitespace-separated words (as `split_whitespace` does).
pub proof fn plain_lines_split_on_whitespace(line: Seq<char>)
    requires
        forall|i: int|
            0 <= i < line.len() ==> #[trigger] line[i] != '\'' && line[i] != '"' && line[i] != '\\'
                && line[i] != '#',
    ensures
        tokens_of(line) == Some(words(line)),
{
    lemma_plain_lex(line);
}

/// Every character of `s` is allowed in a session or workspace name.
pub open spec fn session_chars_only(s: Seq<char>) -> bool {
    forall|i: int| 0 <= i < s.len() ==> session_char(#[trigger] s[i])
}

/// A typed name changes only as allowed: a key appends an allowed
/// character, Backspace removes the last one, and nothing else alters it.
pub open spec fn typed_change(before: Seq<char>, after: Seq<char>, input: Input) -> bool {
    ||| after == before
    ||| input matches Input::Character(c) && session_char(c) && after == before.push(c)
    ||| input is Backspace && after == popped(before)
}

/// A session or workspace name being typed keeps to the allowed characters
/// `[A-Za-z0-9_.-]`: each input appends an allowed character, removes the
/// last one, or leaves the name as it is.
pub proof fn typed_names_stay_safe(s: AppView, input: Input)
    ensures
        s.stage == Stage::SessionInput && session_chars_only(s.session) ==> session_chars_only(
            handle_step(s, input).0.session,
        ) && typed_change(s.session, handle_step(s, input).0.session, input),
        s.stage == Stage::WorkspaceInput && session_chars_only(s.workspace) ==> session_chars_only(
            handle_step(s, input).0.workspace,
        ) && typed_change(s.workspace, handle_step(s, input).0.workspace, input),
{
    let t = handle_step(s, input).0;
    if s.stage == Stage::SessionInput && session_chars_only(s.session) {
        assert forall|i: int| 0 <= i < t.session.len() implies session_char(#[trigger] t.session[i]) by {
            if i < s.session.len() {
                assert(t.session[i] == s.session[i]);
            }
        }
    }
    if s.stage == Stage::WorkspaceInput && session_chars_only(s.workspace) {
        assert forall|i: int| 0 <= i < t.workspace.len() implies session_char(
            #[trigger] t.workspace[i],
        ) by {
            if i < s.workspace.len() {
                assert(t.workspace[i] == s.workspace[i]);
            }
        }
    }
}

/// A connect effect carries the command of the state it leaves, and comes
/// only where the picker connects: from the session list, from a typed
/// session, or from the backend list with the shell backend; a workspace
/// connect only from a typed workspace. The stage stays as it was.
pub proof fn connects_carry_the_state_command(s: AppView, input: Input)
    ensures
        handle_step(s, input).1 matches EffectView::Connect(c) ==> command_of(
            handle_step(s, input).0,
        ) == Ok::<CommandView, Seq<char>>(c) && handle_step(s, input).0.stage == s.stage && (
        s.stage == Stage::SessionInput || s.stage == Stage::TmuxSessionSelection || (s.stage
            == Stage::BackendSelection && s.backend == Backend::Shell)),
        handle_step(s, input).1 matches EffectView::ConnectWorkspace(c) ==> workspace_command_of(
            handle_step(s, input).0,
        ) == Ok::<CommandView, Seq<char>>(c) && s.stage == Stage::WorkspaceInput && handle_step(
            s,
            input,
        ).0.stage == Stage::WorkspaceInput,
{
}

proof fn lemma_digit_value(d: int)
    requires
        0 <= d < 10,
    ensures
        digit_value(digit_char(d)) == d,
        is_digit(digit_char(d)),
{
}

proof fn lemma_decimal_value(n: nat)
    ensures
        digits_value(decimal(n)) == n,
    decreases n,
{
    if n >= 10 {
        lemma_decimal_value(n / 10);
        lemma_digit_value(n as int % 10);
        assert(decimal(n).drop_last() =~= decimal(n / 10));
        assert(decimal(n).last() == digit_char((n % 10) as int));
        assert(n == (n / 10) * 10 + n % 10) by (nonlinear_arith);
        assert(digits_value(decimal(n)) == digits_value(decimal(n / 10)) * 10 + digit_value(
            digit_char((n % 10) as int),
        ));
    } else {
        lemma_digit_value(n as int);
        assert(decimal(n).drop_last() =~= seq![]);
        assert(digits_value(decimal(n).drop_last()) == 0);
        assert(decimal(n).last() == digit_char(n as int));
    }
}

proof fn lemma_zeros_value(z: Seq<char>, d: Seq<char>)
    requires
        forall|i: int| 0 <= i < z.len() ==> z[i] == '0',
    ensures
        digits_value(z + d) == digits_value(d),
    decreases d.len(), z.len(),
{
    if d.len() > 0 {
        assert((z + d).drop_last() =~= z + d.drop_last());
        lemma_zeros_value(z, d.drop_last());
    } else if z.len() > 0 {
        assert(z + d =~= z);
        assert(z.drop_last() + d =~= z.drop_last());
        lemma_zeros_value(z.drop_last(), d);
        lemma_digit_value(0);
    }
}

/// A worker name reads back as its workspace and pane number: the split of a
/// workspace tab recovers the workspace from the worker the tab runs.
pub proof fn worker_names_read_back(workspace: Seq<char>, pane: nat)
    requires
        valid_name(workspace),
    ensures
        worker_parts(worker_name(workspace, pane)) == Some((workspace, pane)),
{
    reveal_strlit("zr-");
    reveal_strlit("-p");
    lemma_decimal_digits(pane);
    let d = decimal(pane);
    let z = zero_pad(d, 4);
    if d.len() < 4 {
        let pad = Seq::new((4 - d.len()) as nat, |k: int| '0');
        assert(z == pad + d);
        lemma_zeros_value(pad, d);
        assert forall|i: int| 0 <= i < z.len() implies is_digit(#[trigger] z[i]) by {
            if i < pad.len() {
                assert(z[i] == '0');
            } else {
                assert(z[i] == d[i - pad.len()]);
            }
        }
    } else {
        assert(z == d);
    }
    lemma_decimal_value(pane);
    assert(digits_value(z) == pane);
    let pre = "zr-"@ + workspace + "-p"@;
    let name = worker_name(workspace, pane);
    assert(name =~= pre + z);
    assert forall|k: int| pre.len() <= k < name.len() implies is_digit(#[trigger] name[k]) by {
        assert(name[k] == z[k - pre.len()]);
    }
    assert(name[pre.len() - 1] == 'p');
    crate::worker::lemma_trailing_digits(name, pre.len() as int);
    assert(name.take(3) =~= "zr-"@);
    assert(name.subrange(name.len() - z.len() - 2, name.len() - z.len()) =~= "-p"@);
    assert(name.subrange(3, name.len() - z.len() - 2) =~= workspace);
    assert(name.skip(name.len() - z.len()) =~= z);
}

/// A split is planned from the focused pane's connector command alone: two
/// plugins, whatever they remember (one freshly loaded, say), plan the same
/// listing for the same focused pane and sessions.
pub proof fn splits_need_no_memory(
    p: PluginView,
    q: PluginView,
    position: usize,
    is_plugin: bool,
    id: u32,
    sessions: Result<Seq<SessionTabsView>, Seq<char>>,
    direction: Seq<char>,
)
    ensures
        split_request_step(p, position, is_plugin, id, sessions, direction).1 == split_request_step(
            q,
            position,
            is_plugin,
            id,
            sessions,
            direction,
        ).1,
{
}

/// A workspace tab's connector command gives back its host and workspace:
/// read word by word (the program, then its arguments), it names the host
/// and the first worker of the workspace, so a split of the tab recovers
/// both. The program and the host must not themselves read as one of the
/// connector's options.
pub proof fn workspace_commands_name_their_worker(s: AppView)
    requires
        workspace_command_of(s) is Ok,
        s.connector != "--host"@,
        s.connector != "--backend"@,
        s.connector != "--session"@,
        s.host != Some("--backend"@),
        s.host != Some("--session"@),
    ensures
        ({
            let c = workspace_command_of(s)->Ok_0;
            worker_of_words(seq![c.program] + c.args) == Some((s.host->0, s.workspace))
        }),
{
    reveal_strlit("--host");
    reveal_strlit("--backend");
    reveal_strlit("--session");
    reveal_strlit("tmux-worker");
    let c = workspace_command_of(s)->Ok_0;
    let ws = seq![c.program] + c.args;
    assert(ws.drop_first() =~= c.args);
    assert(c.args.drop_first().drop_first() =~= c.args.skip(2));
    assert(c.args.skip(2).drop_first().drop_first() =~= c.args.skip(4));
    assert("--host"@.len() != "--backend"@.len());
    assert("--host"@.len() != "--session"@.len());
    assert("--backend"@[2] != "--session"@[2]);
    assert("tmux-worker"@.len() != "--session"@.len());
    reveal_with_fuel(flag_value, 8);
    assert(flag_value(ws, "--host"@) == Some(s.host->0));
    assert(flag_value(ws, "--backend"@) == Some(backend_name(Backend::TmuxWorker)));
    assert(flag_value(ws, "--session"@) == Some(worker_name(s.workspace, 1)));
    worker_names_read_back(s.workspace, 1);
}

/// Reading a configuration always ends, whatever the files hold: however the
/// caller answers (any canonical paths, any file contents, any glob
/// results), a reader that moves on whenever it is not done reaches a step
/// that says it is done. Depths are bounded from the start and stay so.
pub proof fn reading_always_ends(run: spec_fn(nat) -> ParserView)
    requires
        depths_bounded(run(0)),
        forall|i: nat| !(step(#[trigger] run(i)).1 is Done) ==> moves(run(i), run(i + 1)),
    ensures
        exists|i: nat| step(#[trigger] run(i)).1 is Done,
{
    if !exists|i: nat| step(#[trigger] run(i)).1 is Done {
        assert forall|i: nat| moves(#[trigger] run(i), run(i + 1)) by {
            assert(!(step(run(i)).1 is Done));
        }
        lemma_no_endless_run(run);
    }
}

/// Two characters that are equal once ASCII letters are put in lowercase.
pub open spec fn same_ignoring_case(a: char, b: char) -> bool {
    ||| a == b
    ||| 'A' <= a <= 'Z' && b as int == a as int + 32
    ||| 'A' <= b <= 'Z' && a as int == b as int + 32
}

/// `text` stands in `h` from position `i` on, ignoring ASCII case.
pub open spec fn found_at(h: Seq<char>, text: Seq<char>, i: int) -> bool {
    &&& 0 <= i
    &&& i + text.len() <= h.len()
    &&& forall|k: int| 0 <= k < text.len() ==> same_ignoring_case(#[trigger] h[i + k], text[k])
}

proof fn lemma_same_ignoring_case(a: char, b: char)
    ensures
        (crate::text::lower_char(a) == crate::text::lower_char(b)) == same_ignoring_case(a, b),
{
    let la = crate::text::lower_char(a);
    let lb = crate::text::lower_char(b);
    if 'A' <= a <= 'Z' {
        assert(la as int == a as int + 32);
    } else {
        assert(la == a);
    }
    if 'A' <= b <= 'Z' {
        assert(lb as int == b as int + 32);
    } else {
        assert(lb == b);
    }
}

proof fn lemma_found_at(h: Seq<char>, text: Seq<char>, i: int)
    ensures
        occurs_at(lower(h), lower(text), i) == found_at(h, text, i),
{
    if 0 <= i && i + text.len() <= h.len() {
        let sub = lower(h).subrange(i, i + text.len());
        if sub == lower(text) {
            assert forall|k: int| 0 <= k < text.len() implies same_ignoring_case(
                #[trigger] h[i + k],
                text[k],
            ) by {
                assert(sub[k] == lower(text)[k]);
                lemma_same_ignoring_case(h[i + k], text[k]);
            }
        }
        if found_at(h, text, i) {
            assert forall|k: int| 0 <= k < text.len() implies sub[k] == lower(text)[k] by {
                assert(same_ignoring_case(h[i + k], text[k]));
                lemma_same_ignoring_case(h[i + k], text[k]);
            }
            assert(sub =~= lower(text));
        }
    }
}

/// The host filter keeps exactly the hosts in which the typed text stands
/// somewhere (at the start, in the middle or at the end), ignoring ASCII case.
pub proof fn filter_finds_the_text_anywhere(hosts: Seq<Seq<char>>, filter: Seq<char>)
    ensures
        forall|h: Seq<char>|
            #[trigger] filtered(hosts, filter).contains(h) <==> hosts.contains(h) && exists|i: int|
                found_at(h, filter, i),
{
    let pred = host_matches(filter);
    assert forall|h: Seq<char>|
        #[trigger] filtered(hosts, filter).contains(h) <==> hosts.contains(h) && exists|i: int|
            found_at(h, filter, i) by {
        if filtered(hosts, filter).contains(h) {
            hosts.lemma_filter_contains_rev(pred, h);
            let j = choose|j: int| 0 <= j < hosts.filter(pred).len() && hosts.filter(pred)[j] == h;
            hosts.lemma_filter_pred(pred, j);
            let i = choose|i: int| occurs_at(lower(h), lower(filter), i);
            lemma_found_at(h, filter, i);
        }
        if hosts.contains(h) && exists|i: int| found_at(h, filter, i) {
            let i = choose|i: int| found_at(h, filter, i);
            lemma_found_at(h, filter, i);
            let j = choose|j: int| 0 <= j < hosts.len() && hosts[j] == h;
            hosts.lemma_filter_contains(pred, j);
        }
    }
}

/// An alias is concrete exactly when it is not empty and has none of the
/// pattern characters `*`, `?` and `!`; any other character (dots, dashes,
/// digits) is allowed.
pub proof fn concrete_aliases_are_those_without_wildcards(alias: Seq<char>)
    ensures
        concrete_alias(alias) == (alias.len() > 0 && !alias.contains('*') && !alias.contains('?')
            && !alias.contains('!')),
{
    if alias.len() > 0 && !alias.contains('*') && !alias.contains('?') && !alias.contains('!') {
        assert forall|i: int| 0 <= i < alias.len() implies {
            let c = #[trigger] alias[i];
            c != '*' && c != '?' && c != '!'
        } by {
            if alias[i] == '*' || alias[i] == '?' || alias[i] == '!' {
                assert(alias.contains(alias[i]));
            }
        }
    }
}

/// After a `Host` line the host list holds exactly the hosts it held and the
/// line's aliases that are non-empty and free of `*`, `?` and `!`.
pub proof fn host_lines_add_every_concrete_alias(hosts: Seq<Seq<char>>, aliases: Seq<Seq<char>>)
    ensures
        forall|a: Seq<char>|
            #[trigger] add_aliases(hosts, aliases).contains(a) <==> hosts.contains(a) || (
            aliases.contains(a) && a.len() > 0 && !a.contains('*') && !a.contains('?')
                && !a.contains('!')),
    decreases aliases.len(),
{
    if aliases.len() > 0 {
        let rest = aliases.drop_last();
        host_lines_add_every_concrete_alias(hosts, rest);
        let last = aliases.last();
        concrete_aliases_are_those_without_wildcards(last);
        assert forall|a: Seq<char>|
            #[trigger] add_aliases(hosts, aliases).contains(a) <==> hosts.contains(a) || (
            aliases.contains(a) && a.len() > 0 && !a.contains('*') && !a.contains('?')
                && !a.contains('!')) by {
            concrete_aliases_are_those_without_wildcards(a);
            assert(aliases =~= rest.push(last));
            if aliases.contains(a) && a != last {
                let k = choose|k: int| 0 <= k < aliases.len() && aliases[k] == a;
                assert(rest[k] == a);
            }
            if rest.contains(a) {
                let k = choose|k: int| 0 <= k < rest.len() && rest[k] == a;
                assert(aliases[k] == a);
            }
            assert(aliases[aliases.len() - 1] == last);
            let h = add_aliases(hosts, rest);
            if concrete_alias(last) && !h.contains(last) {
                assert(h.push(last)[h.len() as int] == last);
                if h.push(last).contains(a) && a != last {
                    let k = choose|k: int| 0 <= k < h.push(last).len() && h.push(last)[k] == a;
                    assert(h[k] == a);
                }
                if h.contains(a) {
                    let k = choose|k: int| 0 <= k < h.len() && h[k] == a;
                    assert(h.push(last)[k] == a);
                }
            }
        }
    }
}

/// Each backend is passed to the connector under its own name: `shell`,
/// `tmux`, `tmux-worker` and `zellij`, and no two backends share a name.
pub proof fn backends_have_their_connector_names(a: Backend, b: Backend)
    ensures
        backend_name(Backend::Shell) == "shell"@,
        backend_name(Backend::Tmux) == "tmux"@,
        backend_name(Backend::TmuxWorker) == "tmux-worker"@,
        backend_name(Backend::Zellij) == "zellij"@,
        backend_name(a) == backend_name(b) ==> a == b,
{
    reveal_strlit("shell");
    reveal_strlit("tmux");
    reveal_strlit("tmux-worker");
    reveal_strlit("zellij");
    if a != b {
        assert(backend_name(a).len() != backend_name(b).len() || backend_name(a)[0] != backend_name(b)[0]);
    }
}

/// A connect command names the chosen backend: its arguments are `--host`,
/// the host, `--backend` and the backend's connector name, then (for every
/// backend but the shell) `--session` and the session.
pub proof fn connect_commands_name_the_chosen_backend(s: AppView)
    ensures
        command_of(s) matches Ok(c) ==> c.args[0] == "--host"@ && Some(c.args[1]) == s.host
            && c.args[2] == "--backend"@ && c.args[3] == backend_name(s.backend) && (s.backend
            == Backend::Shell <==> c.args.len() == 4) && (s.backend != Backend::Shell ==> c.args[5]
            == s.session),
{
}

/// The rows of the host list, starting at `start`: each shows a filtered host,
/// in order, marked `>` when it is the selected one.
pub open spec fn host_rows_from(
    l: Seq<Seq<char>>,
    f: Seq<Seq<char>>,
    selected: int,
    start: int,
    m: int,
) -> bool {
    &&& 0 <= start
    &&& start + m <= f.len()
    &&& forall|k: int|
        0 <= k < m ==> #[trigger] l[2 + k] == (if start + k == selected {
            ">"@
        } else {
            " "@
        }) + " "@ + f[start + k]
}

/// The host screen shows the filter, then only hosts that match it, as a
/// run of consecutive filtered hosts in their order; the selected host (the
/// one Enter picks) is among them, marked `>`.
pub proof fn host_screen_lists_filtered_hosts(s: AppView, rows: nat)
    requires
        s.stage == Stage::HostSelection,
        s.selected < filtered(s.hosts, s.filter).len(),
    ensures
        ({
            let f = filtered(s.hosts, s.filter);
            let l = crate::plugin::stage_lines(s, rows);
            let m = l.len() - 4;
            &&& l.len() >= 5
            &&& l[0] == "Host filter: "@ + s.filter
            &&& exists|start: int| #[trigger] host_rows_from(l, f, s.selected as int, start, m)
            &&& exists|k: int| 0 <= k < m && #[trigger] l[2 + k] == ">"@ + " "@ + f[s.selected as int]
        }),
{
    let f = filtered(s.hosts, s.filter);
    let l = crate::plugin::stage_lines(s, rows);
    let w = crate::plugin::window(f, s.selected as nat, rows);
    let avail = crate::plugin::visible_rows(rows);
    let start = crate::plugin::first_visible(s.selected as nat, avail);
    assert(l == seq!["Host filter: "@ + s.filter, seq![]] + w + seq![seq![], "Type to filter | ↑/↓ or Ctrl-p/Ctrl-n | Enter | Esc"@]);
    let m = w.len() as int;
    assert(l.len() == m + 4);
    assert(m >= 1);
    assert forall|k: int| 0 <= k < m implies #[trigger] l[2 + k] == (if start + k == s.selected {
        ">"@
    } else {
        " "@
    }) + " "@ + f[start + k] by {
        assert(l[2 + k] == w[k]);
    }
    assert(host_rows_from(l, f, s.selected as int, start as int, m));
    let k = s.selected - start;
    assert(0 <= k < m);
    assert(l[2 + k] == w[k]);
    assert(w[k] == ">"@ + " "@ + f[s.selected as int]);
    assert(l[0] == "Host filter: "@ + s.filter);
    assert(l.len() >= 5);
    assert(host_rows_from(l, f, s.selected as int, start as int, l.len() - 4));
}

/// A character allowed in a session name: `[A-Za-z0-9_.-]`.
pub open spec fn name_char(c: char) -> bool {
    ||| 'A' <= c <= 'Z'
    ||| 'a' <= c <= 'z'
    ||| '0' <= c <= '9'
    ||| c == '_' || c == '.' || c == '-'
}

/// A successful tmux listing offers exactly the names that some output line
/// trims to and that are non-empty runs of `[A-Za-z0-9_.-]`, whatever their
/// first character (sessions of a plain `tmux` are named `0`, `1`, ...).
pub proof fn listings_offer_every_safe_line(out: Seq<char>, err: Seq<char>)
    ensures
        forall|x: Seq<char>|
            #[trigger] tmux_listing(Some(0i32), out, err).0.contains(x) <==> (x.len() > 0
                && (forall|i: int| 0 <= i < x.len() ==> name_char(#[trigger] x[i])) && exists|
                j: int,
            | 0 <= j < lines(out).len() && crate::text::trim(#[trigger] lines(out)[j]) == x),
{
    let m = lines(out).map_values(crate::state::trim_each());
    let c = session_candidates(lines(out));
    let pred = is_valid_name();
    lemma_sorted_set_of(c);
    assert forall|x: Seq<char>|
        #[trigger] tmux_listing(Some(0i32), out, err).0.contains(x) <==> (x.len() > 0 && (forall|
            i: int,
        | 0 <= i < x.len() ==> name_char(#[trigger] x[i])) && exists|j: int|
            0 <= j < lines(out).len() && crate::text::trim(#[trigger] lines(out)[j]) == x) by {
        assert(valid_name(x) == (x.len() > 0 && (forall|i: int|
            0 <= i < x.len() ==> name_char(#[trigger] x[i])))) by {
            assert(forall|i: int| 0 <= i < x.len() ==> (session_char(x[i]) == name_char(x[i])));
        }
        if c.contains(x) {
            m.lemma_filter_contains_rev(pred, x);
            let j = choose|j: int| 0 <= j < c.len() && c[j] == x;
            m.lemma_filter_pred(pred, j);
            let k = choose|k: int| 0 <= k < m.len() && m[k] == x;
            assert(crate::text::trim(lines(out)[k]) == x);
        }
        if valid_name(x) && exists|j: int|
            0 <= j < lines(out).len() && crate::text::trim(#[trigger] lines(out)[j]) == x {
            let j = choose|j: int|
                0 <= j < lines(out).len() && crate::text::trim(#[trigger] lines(out)[j]) == x;
            assert(m[j] == x);
            m.lemma_filter_contains(pred, j);
        }
    }
}

} // verus!
