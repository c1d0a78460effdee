//! Worker sessions of tmux workspaces: what a worker pane's connector command
//! says, and which worker index a further pane of a workspace gets.
use vstd::prelude::*;
use crate::state::{has_prefix, opt_view, valid_name, valid_name_chars};
use crate::text::{char_is_whitespace, chars_of, is_whitespace, string_of, sub_chars, views};

verus! {

/// The words of a prefix of a text: those already ended, and the one under way.
#[verifier::ext_equal]
pub struct WordScan {
    pub words: Seq<Seq<char>>,
    pub current: Seq<char>,
}

/// One more character: whitespace ends the word under way, anything else
/// extends it.
pub open spec fn word_char(st: WordScan, c: char) -> WordScan {
    if char_is_whitespace(c) {
        if st.current.len() > 0 {
            WordScan { words: st.words.push(st.current), current: seq![] }
        } else {
            st
        }
    } else {
        WordScan { current: st.current.push(c), ..st }
    }
}

/// The scan after all of `s`.
pub open spec fn word_scan(s: Seq<char>) -> WordScan
    decreases s.len(),
{
    if s.len() == 0 {
        WordScan { words: seq![], current: seq![] }
    } else {
        word_char(word_scan(s.drop_last()), s.last())
    }
}

/// The words of `s`: its maximal runs of characters other than whitespace,
/// in order (`split_whitespace`).
pub open spec fn words(s: Seq<char>) -> Seq<Seq<char>> {
    let st = word_scan(s);
    if st.current.len() > 0 {
        st.words.push(st.current)
    } else {
        st.words
    }
}

/// The words of `s`, as `split_whitespace` gives them.
pub fn split_words(s: &str) -> (r: Vec<String>)
    ensures
        views(r@) == words(s@),
{
    let chars = chars_of(s);
    let n = chars.len();
    let mut out: Vec<String> = Vec::new();
    let mut current: Vec<char> = Vec::new();
    let mut i: usize = 0;
    let ghost t = s@;
    assert(t.take(0) =~= seq![]);
    assert(views(out@) =~= seq![]);
    assert(current@ =~= seq![]);
    while i < n
        invariant
            n == t.len(),
            chars@ == t,
            0 <= i <= n,
            word_scan(t.take(i as int)) == (WordScan { words: views(out@), current: current@ }),
        decreases n - i,
    {
        let c = chars[i];
        assert(t.take(i + 1).drop_last() =~= t.take(i as int));
        assert(t.take(i + 1).last() == c);
        if is_whitespace(c) {
            if current.len() > 0 {
                let ghost before = out@;
                let word = string_of(current.as_slice());
                out.push(word);
                current = Vec::new();
                assert(views(out@) =~= views(before).push(word@));
                assert(current@ =~= seq![]);
            }
        } else {
            current.push(c);
        }
        i = i + 1;
    }
    assert(t.take(n as int) =~= t);
    if current.len() > 0 {
        let ghost before = out@;
        let word = string_of(current.as_slice());
        out.push(word);
        assert(views(out@) =~= views(before).push(word@));
    }
    out
}

/// The word after the first occurrence of `flag` that has a word after it.
pub open spec fn flag_value(ws: Seq<Seq<char>>, flag: Seq<char>) -> Option<Seq<char>>
    decreases ws.len(),
{
    if ws.len() < 2 {
        None
    } else if ws[0] == flag {
        Some(ws[1])
    } else {
        flag_value(ws.drop_first(), flag)
    }
}

fn find_flag_value(ws: &Vec<String>, flag: &str) -> (r: Option<String>)
    ensures
        opt_view(r) == flag_value(views(ws@), flag@),
{
    let ghost v = views(ws@);
    let n = ws.len();
    let mut i: usize = 0;
    assert(v.skip(0) =~= v);
    while i < n && n - i >= 2
        invariant
            n == ws@.len(),
            v == views(ws@),
            0 <= i <= n,
            flag_value(v, flag@) == flag_value(v.skip(i as int), flag@),
        decreases n - i,
    {
        assert(v.skip(i as int)[0] == v[i as int]);
        assert(v.skip(i as int)[1] == v[i + 1]);
        if crate::text::str_equal(ws[i].as_str(), flag) {
            return Some(ws[i + 1].clone());
        }
        assert(v.skip(i as int).drop_first() =~= v.skip(i + 1));
        i = i + 1;
    }
    None
}

/// An ASCII digit.
pub open spec fn is_digit(c: char) -> bool {
    '0' <= c && c <= '9'
}

/// The number an ASCII digit stands for.
pub open spec fn digit_value(c: char) -> nat {
    (c as int - '0' as int) as nat
}

/// The number a string of ASCII digits stands for.
pub open spec fn digits_value(d: Seq<char>) -> nat
    decreases d.len(),
{
    if d.len() == 0 {
        0
    } else {
        digits_value(d.drop_last()) * 10 + digit_value(d.last())
    }
}

/// How many ASCII digits `s` ends with.
pub open spec fn trailing_digits(s: Seq<char>) -> nat
    decreases s.len(),
{
    if s.len() > 0 && is_digit(s.last()) {
        trailing_digits(s.drop_last()) + 1
    } else {
        0
    }
}

/// The workspace and index of a worker session `zr-<workspace>-p<digits>`,
/// the workspace a safe name; `None` for any other session.
pub open spec fn worker_parts(s: Seq<char>) -> Option<(Seq<char>, nat)> {
    let k = trailing_digits(s);
    if k > 0 && s.len() >= k + 5 && s.take(3) == "zr-"@ && s.subrange(
        s.len() - k - 2,
        s.len() - k,
    ) == "-p"@ && valid_name(s.subrange(3, s.len() - k - 2)) {
        Some((s.subrange(3, s.len() - k - 2), digits_value(s.skip(s.len() - k))))
    } else {
        None
    }
}

/// The bound at which worker indices stop being told apart: one more than
/// the largest index a worker name can carry.
pub open spec fn index_cap() -> nat {
    0x1_0000_0000
}

/// A worker index, or [`index_cap`] for anything at or above it.
pub open spec fn capped(n: nat) -> nat {
    if n < index_cap() {
        n
    } else {
        index_cap()
    }
}

fn digit_of(c: char) -> (r: u64)
    requires
        is_digit(c),
    ensures
        r == digit_value(c),
{
    if c == '0' { 0 } else if c == '1' { 1 } else if c == '2' { 2 } else if c == '3' { 3 }
    else if c == '4' { 4 } else if c == '5' { 5 } else if c == '6' { 6 } else if c == '7' { 7 }
    else if c == '8' { 8 } else { 9 }
}

fn capped_digits_value(d: &[char]) -> (r: u64)
    requires
        forall|i: int| 0 <= i < d@.len() ==> is_digit(#[trigger] d@[i]),
    ensures
        r == capped(digits_value(d@)),
{
    let n = d.len();
    let mut acc: u64 = 0;
    let mut i: usize = 0;
    assert(d@.take(0) =~= seq![]);
    while i < n
        invariant
            n == d@.len(),
            0 <= i <= n,
            forall|k: int| 0 <= k < d@.len() ==> is_digit(#[trigger] d@[k]),
            acc == capped(digits_value(d@.take(i as int))),
        decreases n - i,
    {
        let v = digit_of(d[i]);
        assert(d@.take(i + 1).drop_last() =~= d@.take(i as int));
        assert(d@.take(i + 1).last() == d@[i as int]);
        let next = acc * 10 + v;
        acc = if next < 0x1_0000_0000 {
            next
        } else {
            0x1_0000_0000
        };
        i = i + 1;
    }
    assert(d@.take(n as int) =~= d@);
    acc
}

pub(crate) proof fn lemma_trailing_digits(s: Seq<char>, j: int)
    requires
        0 <= j <= s.len(),
        forall|k: int| j <= k < s.len() ==> is_digit(#[trigger] s[k]),
        j == 0 || !is_digit(s[j - 1]),
    ensures
        trailing_digits(s) == s.len() - j,
    decreases s.len() - j,
{
    if j < s.len() {
        lemma_trailing_digits(s.drop_last(), j);
    }
}

/// The workspace and index of a worker session, the index given as
/// [`capped`]; `None` when `session` is no worker session.
pub fn worker_index(session: &str) -> (r: Option<(String, u64)>)
    ensures
        match r {
            Some((w, n)) => match worker_parts(session@) {
                Some((pw, pn)) => w@ == pw && n == capped(pn),
                None => false,
            },
            None => worker_parts(session@) is None,
        },
{
    let s = chars_of(session);
    let n = s.len();
    let mut j: usize = n;
    while j > 0 && '0' <= s[j - 1] && s[j - 1] <= '9'
        invariant
            n == s@.len(),
            0 <= j <= n,
            forall|k: int| j <= k < n ==> is_digit(#[trigger] s@[k]),
        decreases j,
    {
        j = j - 1;
    }
    proof {
        lemma_trailing_digits(s@, j as int);
    }
    let k = n - j;
    if k == 0 || n - k < 5 {
        return None;
    }
    let prefix = chars_of("zr-");
    proof {
        reveal_strlit("zr-");
        reveal_strlit("-p");
    }
    if !has_prefix(s.as_slice(), prefix.as_slice()) {
        return None;
    }
    if !(s[j - 2] == '-' && s[j - 1] == 'p') {
        assert(s@.subrange(j - 2, j as int)[0] == s@[j - 2]);
        assert(s@.subrange(j - 2, j as int)[1] == s@[j - 1]);
        return None;
    }
    assert(s@.subrange(j - 2, j as int) =~= "-p"@);
    let name = sub_chars(s.as_slice(), 3, j - 2);
    if !valid_name_chars(name.as_slice()) {
        return None;
    }
    let digits = sub_chars(s.as_slice(), j, n);
    assert(digits@ =~= s@.skip(j as int));
    let value = capped_digits_value(digits.as_slice());
    Some((string_of(name.as_slice()), value))
}

/// The host and workspace named by the words of a worker's connector
/// command `... --host <host> --backend tmux-worker --session <worker> ...`.
pub open spec fn worker_of_words(ws: Seq<Seq<char>>) -> Option<(Seq<char>, Seq<char>)> {
    match (flag_value(ws, "--host"@), flag_value(ws, "--backend"@), flag_value(ws, "--session"@)) {
        (Some(h), Some(b), Some(s)) => match worker_parts(s) {
            Some((w, _)) => if b == "tmux-worker"@ {
                Some((h, w))
            } else {
                None
            },
            None => None,
        },
        _ => None,
    }
}

/// The host and workspace a worker pane serves, read from its connector
/// command.
pub open spec fn worker_of_command(command: Seq<char>) -> Option<(Seq<char>, Seq<char>)> {
    worker_of_words(words(command))
}

/// The host and workspace of a worker pane's connector command, if it is one.
pub fn worker_command(command: &str) -> (r: Option<(String, String)>)
    ensures
        match r {
            Some((h, w)) => worker_of_command(command@) == Some((h@, w@)),
            None => worker_of_command(command@) is None,
        },
{
    let ws = split_words(command);
    let host = match find_flag_value(&ws, "--host") {
        Some(h) => h,
        None => {
            return None;
        },
    };
    let backend = match find_flag_value(&ws, "--backend") {
        Some(b) => b,
        None => {
            return None;
        },
    };
    let session = match find_flag_value(&ws, "--session") {
        Some(s) => s,
        None => {
            return None;
        },
    };
    if !crate::text::str_equal(backend.as_str(), "tmux-worker") {
        return None;
    }
    match worker_index(session.as_str()) {
        Some((w, _)) => Some((host, w)),
        None => None,
    }
}

/// The largest index among the listed worker sessions of `workspace`; 0 when
/// none is listed.
pub open spec fn listed_max(sessions: Seq<Seq<char>>, workspace: Seq<char>) -> nat
    decreases sessions.len(),
{
    if sessions.len() == 0 {
        0
    } else {
        let rest = listed_max(sessions.drop_last(), workspace);
        match worker_parts(sessions.last()) {
            Some((w, n)) => if w == workspace && n > rest {
                n
            } else {
                rest
            },
            None => rest,
        }
    }
}

/// A worker name given to a split: the host, the workspace and the worker
/// index. It stays reserved while the plugin runs, so that a split whose pane
/// is still being opened (and whose session is not listed yet) keeps its name.
pub struct Reservation {
    pub host: String,
    pub workspace: String,
    pub index: u32,
}

impl View for Reservation {
    type V = (Seq<char>, Seq<char>, nat);

    open spec fn view(&self) -> (Seq<char>, Seq<char>, nat) {
        (self.host@, self.workspace@, self.index as nat)
    }
}

/// The views of reservations.
pub open spec fn reservation_views(v: Seq<Reservation>) -> Seq<(Seq<char>, Seq<char>, nat)> {
    v.map_values(|r: Reservation| r@)
}

/// The largest index reserved for `workspace` on `host`; 0 when none is.
pub open spec fn reserved_max(rs: Seq<(Seq<char>, Seq<char>, nat)>, host: Seq<char>, workspace: Seq<char>) -> nat
    decreases rs.len(),
{
    if rs.len() == 0 {
        0
    } else {
        let rest = reserved_max(rs.drop_last(), host, workspace);
        let r = rs.last();
        if r.0 == host && r.1 == workspace && r.2 > rest {
            r.2
        } else {
            rest
        }
    }
}

/// The index the next worker of `workspace` on `host` gets: one above every
/// listed worker of it and every index reserved for it.
pub open spec fn next_index(
    sessions: Seq<Seq<char>>,
    rs: Seq<(Seq<char>, Seq<char>, nat)>,
    host: Seq<char>,
    workspace: Seq<char>,
) -> nat {
    let a = listed_max(sessions, workspace);
    let b = reserved_max(rs, host, workspace);
    (if a > b {
        a
    } else {
        b
    }) + 1
}

/// The index the next worker of `workspace` on `host` gets, given the
/// sessions listed on the host and the reserved names; `None` when it would
/// not fit a worker name's index.
pub fn next_worker_index(
    sessions: &Vec<String>,
    reserved: &Vec<Reservation>,
    host: &str,
    workspace: &str,
) -> (r: Option<u32>)
    ensures
        match r {
            Some(m) => m == next_index(views(sessions@), reservation_views(reserved@), host@, workspace@),
            None => next_index(views(sessions@), reservation_views(reserved@), host@, workspace@) > u32::MAX,
        },
{
    let ghost sv = views(sessions@);
    let ghost rv = reservation_views(reserved@);
    let mut a: u64 = 0;
    let mut i: usize = 0;
    assert(sv.take(0) =~= seq![]);
    while i < sessions.len()
        invariant
            sv == views(sessions@),
            0 <= i <= sessions@.len(),
            a == capped(listed_max(sv.take(i as int), workspace@)),
        decreases sessions@.len() - i,
    {
        assert(sv.take(i + 1).drop_last() =~= sv.take(i as int));
        assert(sv.take(i + 1).last() == sessions@[i as int]@);
        match worker_index(sessions[i].as_str()) {
            Some((w, n)) => {
                if crate::text::str_equal(w.as_str(), workspace) && n > a {
                    a = n;
                }
            },
            None => {},
        }
        i = i + 1;
    }
    assert(sv.take(sessions@.len() as int) =~= sv);
    let mut b: u64 = 0;
    let mut j: usize = 0;
    assert(rv.take(0) =~= seq![]);
    while j < reserved.len()
        invariant
            rv == reservation_views(reserved@),
            0 <= j <= reserved@.len(),
            b == reserved_max(rv.take(j as int), host@, workspace@),
            b <= u32::MAX,
        decreases reserved@.len() - j,
    {
        assert(rv.take(j + 1).drop_last() =~= rv.take(j as int));
        assert(rv.take(j + 1).last() == reserved@[j as int]@);
        let r = &reserved[j];
        if crate::text::str_equal(r.host.as_str(), host) && crate::text::str_equal(
            r.workspace.as_str(),
            workspace,
        ) && (r.index as u64) > b {
            b = r.index as u64;
        }
        j = j + 1;
    }
    assert(rv.take(reserved@.len() as int) =~= rv);
    let top = if a > b {
        a
    } else {
        b
    };
    if top >= 0xffff_ffff {
        return None;
    }
    Some((top + 1) as u32)
}

} // verus!
