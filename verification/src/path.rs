//! Unix paths as strings: joining, lexical normalisation, and their order.
use vstd::prelude::*;
use crate::order::{chars_less, seq_lt};
use crate::text::{
    chars_equal, chars_of, find_char, lemma_index_of, seqs_of, split_on, string_of, sub_chars,
};

verus! {

/// One step of lexical normalisation: empty and `.` parts vanish, `..`
/// drops the last kept part (if any), other parts are kept.
pub open spec fn resolve_step(stack: Seq<Seq<char>>, part: Seq<char>) -> Seq<Seq<char>> {
    if part.len() == 0 || part == seq!['.'] {
        stack
    } else if part == seq!['.', '.'] {
        if stack.len() > 0 {
            stack.drop_last()
        } else {
            stack
        }
    } else {
        stack.push(part)
    }
}

/// Normalising the parts in order, starting from `stack`.
pub open spec fn resolve_from(stack: Seq<Seq<char>>, parts: Seq<Seq<char>>) -> Seq<Seq<char>>
    decreases parts.len(),
{
    if parts.len() == 0 {
        stack
    } else {
        resolve_from(resolve_step(stack, parts[0]), parts.drop_first())
    }
}

/// The parts joined by `/`.
pub open spec fn join_parts(parts: Seq<Seq<char>>) -> Seq<char>
    decreases parts.len(),
{
    if parts.len() == 0 {
        seq![]
    } else if parts.len() == 1 {
        parts[0]
    } else {
        join_parts(parts.drop_last()) + seq!['/'] + parts.last()
    }
}

/// Whether a path starts at the root.
pub open spec fn is_absolute(path: Seq<char>) -> bool {
    path.len() > 0 && path[0] == '/'
}

/// A path with `.` and empty parts removed and each `..` cancelling the part
/// before it, without looking at the file system.
pub open spec fn normalized(path: Seq<char>) -> Seq<char> {
    let kept = join_parts(resolve_from(seq![], split_on(path, '/')));
    if is_absolute(path) {
        seq!['/'] + kept
    } else {
        kept
    }
}

proof fn lemma_split_on_at(s: Seq<char>, start: int, i: int)
    requires
        0 <= start <= i < s.len(),
        forall|k: int| start <= k < i ==> s[k] != '/',
        s[i] == '/',
    ensures
        split_on(s.skip(start), '/') == seq![s.subrange(start, i)] + split_on(s.skip(i + 1), '/'),
{
    let t = s.skip(start);
    lemma_index_of(t, '/', i - start);
    assert(t.take(i - start) =~= s.subrange(start, i));
    assert(t.skip(i - start + 1) =~= s.skip(i + 1));
}

proof fn lemma_split_on_end(s: Seq<char>, start: int)
    requires
        0 <= start <= s.len(),
        forall|k: int| start <= k < s.len() ==> s[k] != '/',
    ensures
        split_on(s.skip(start), '/') == seq![s.skip(start)],
{
    let t = s.skip(start);
    lemma_index_of(t, '/', t.len() as int);
}

fn resolve_part(stack: &mut Vec<Vec<char>>, part: Vec<char>)
    ensures
        seqs_of(final(stack)@) == resolve_step(seqs_of(old(stack)@), part@),
{
    let ghost old_stack = seqs_of(stack@);
    let n = part.len();
    if n == 0 || (n == 1 && part[0] == '.') {
        assert(n == 1 ==> part@ =~= seq!['.']);
        return;
    }
    assert(part@ != seq!['.']) by {
        if n == 1 {
            assert(part@[0] != seq!['.'][0]);
        }
    }
    if n == 2 && part[0] == '.' && part[1] == '.' {
        assert(part@ =~= seq!['.', '.']);
        if stack.len() > 0 {
            stack.pop();
            assert(seqs_of(stack@) =~= old_stack.drop_last());
        }
        return;
    }
    assert(part@ != seq!['.', '.']) by {
        if n == 2 {
            if part@[0] != '.' {
                assert(part@[0] != seq!['.', '.'][0]);
            } else {
                assert(part@[1] != seq!['.', '.'][1]);
            }
        }
    }
    stack.push(part);
    assert(seqs_of(stack@) =~= old_stack.push(part@));
}

fn join_with_slash(out: &mut Vec<char>, parts: &Vec<Vec<char>>)
    ensures
        final(out)@ == old(out)@ + join_parts(seqs_of(parts@)),
{
    let n = parts.len();
    let ghost ps = seqs_of(parts@);
    if n == 0 {
        assert(old(out)@ + join_parts(ps) =~= old(out)@);
        return;
    }
    let ghost start = out@;
    let mut k: usize = 0;
    while k < n
        invariant
            n == parts@.len(),
            ps == seqs_of(parts@),
            n > 0,
            0 <= k <= n,
            k == 0 ==> out@ == start,
            k > 0 ==> out@ == start + join_parts(ps.take(k as int)),
        decreases n - k,
    {
        if k > 0 {
            out.push('/');
        }
        let mut j: usize = 0;
        let ghost before = out@;
        let p = &parts[k];
        while j < p.len()
            invariant
                0 <= j <= p@.len(),
                out@ == before + p@.take(j as int),
            decreases p@.len() - j,
        {
            out.push(p[j]);
            assert(p@.take(j + 1) =~= p@.take(j as int).push(p@[j as int]));
            j = j + 1;
        }
        assert(p@.take(j as int) =~= p@);
        assert(ps.take(k + 1).drop_last() =~= ps.take(k as int));
        if k == 0 {
            assert(join_parts(ps.take(1)) == ps[0]);
        }
        k = k + 1;
    }
    assert(ps.take(n as int) =~= ps);
}

/// Normalises a path lexically, as a stand-in when it cannot be resolved on
/// disk: `.` and repeated separators vanish, `..` removes the part before it.
pub fn normalize_path(path: &str) -> (r: String)
    ensures
        r@ == normalized(path@),
{
    let s = chars_of(path);
    let n = s.len();
    let ghost sv = path@;
    let mut stack: Vec<Vec<char>> = Vec::new();
    let mut start: usize = 0;
    let mut i: usize = 0;
    assert(sv.skip(0) =~= sv);
    assert(seqs_of(stack@) =~= seq![]);
    while i < n
        invariant
            n == sv.len(),
            s@ == sv,
            0 <= start <= i <= n,
            forall|k: int| start <= k < i ==> sv[k] != '/',
            resolve_from(seqs_of(stack@), split_on(sv.skip(start as int), '/')) == resolve_from(
                seq![],
                split_on(sv, '/'),
            ),
        decreases n - i,
    {
        if s[i] == '/' {
            proof {
                lemma_split_on_at(sv, start as int, i as int);
            }
            let part = sub_chars(s.as_slice(), start, i);
            let ghost rest = split_on(sv.skip(i + 1), '/');
            assert((seq![part@] + rest).drop_first() =~= rest);
            resolve_part(&mut stack, part);
            start = i + 1;
        }
        i = i + 1;
    }
    proof {
        lemma_split_on_end(sv, start as int);
    }
    let part = sub_chars(s.as_slice(), start, n);
    assert(part@ =~= sv.skip(start as int));
    assert(seq![part@].drop_first() =~= Seq::<Seq<char>>::empty());
    let ghost prev = seqs_of(stack@);
    assert(resolve_from(prev, seq![part@]) == resolve_from(resolve_step(prev, part@), seq![]));
    resolve_part(&mut stack, part);
    assert(seqs_of(stack@) == resolve_from(seq![], split_on(sv, '/')));
    let mut out: Vec<char> = Vec::new();
    if n > 0 && s[0] == '/' {
        out.push('/');
    }
    join_with_slash(&mut out, &stack);
    assert(out@ =~= normalized(sv));
    string_of(out.as_slice())
}


/// `Path::join` on Unix: an absolute `rest` replaces `base`; otherwise `rest`
/// is appended, with a `/` in between unless `base` is empty or ends in one.
pub open spec fn path_join(base: Seq<char>, rest: Seq<char>) -> Seq<char> {
    if is_absolute(rest) {
        rest
    } else if base.len() == 0 || base.last() == '/' {
        base + rest
    } else {
        base + seq!['/'] + rest
    }
}

/// `Path::join` on Unix.
pub fn join_path(base: &str, rest: &str) -> (r: String)
    ensures
        r@ == path_join(base@, rest@),
{
    let b = chars_of(base);
    let t = chars_of(rest);
    if t.len() > 0 && t[0] == '/' {
        return string_of(t.as_slice());
    }
    let mut out = b.clone();
    if b.len() > 0 && b[b.len() - 1] != '/' {
        out.push('/');
    }
    let mut j: usize = 0;
    let ghost before = out@;
    while j < t.len()
        invariant
            0 <= j <= t@.len(),
            out@ == before + t@.take(j as int),
        decreases t@.len() - j,
    {
        out.push(t[j]);
        assert(t@.take(j + 1) =~= t@.take(j as int).push(t@[j as int]));
        j = j + 1;
    }
    assert(t@.take(j as int) =~= t@);
    assert(out@ =~= path_join(base@, rest@));
    string_of(out.as_slice())
}

/// The kinds of path components, in the order `Path` sorts them.
pub open spec fn root_kind() -> int { 1 }
pub open spec fn current_kind() -> int { 2 }
pub open spec fn parent_kind() -> int { 3 }
pub open spec fn name_kind() -> int { 4 }

/// The component a `/`-separated part stands for, if any: empty parts and
/// `.` stand for none, `..` for the parent, others for a name.
pub open spec fn part_components(p: Seq<char>) -> Seq<(int, Seq<char>)> {
    if p.len() == 0 || p == seq!['.'] {
        seq![]
    } else if p == seq!['.', '.'] {
        seq![(parent_kind(), seq![])]
    } else {
        seq![(name_kind(), p)]
    }
}

/// The components the parts stand for, in order.
pub open spec fn parts_components(parts: Seq<Seq<char>>) -> Seq<(int, Seq<char>)>
    decreases parts.len(),
{
    if parts.len() == 0 {
        seq![]
    } else {
        parts_components(parts.drop_last()) + part_components(parts.last())
    }
}

/// The components of a Unix path as `Path::components` yields them: a root
/// for a leading `/`, a current directory for a leading `.` part, then the
/// parts other than empty ones and `.`.
pub open spec fn components(path: Seq<char>) -> Seq<(int, Seq<char>)> {
    let parts = split_on(path, '/');
    let head = if is_absolute(path) {
        seq![(root_kind(), seq![])]
    } else if parts[0] == seq!['.'] {
        seq![(current_kind(), seq![])]
    } else {
        seq![]
    };
    head + parts_components(parts)
}

/// The order of path components: by kind, names by their characters.
pub open spec fn component_lt(a: (int, Seq<char>), b: (int, Seq<char>)) -> bool {
    a.0 < b.0 || (a.0 == b.0 && seq_lt(a.1, b.1))
}

/// Lexicographic order of component sequences.
pub open spec fn components_lt(a: Seq<(int, Seq<char>)>, b: Seq<(int, Seq<char>)>) -> bool
    decreases a.len(),
{
    if a.len() == 0 {
        b.len() > 0
    } else if b.len() == 0 {
        false
    } else if a[0] == b[0] {
        components_lt(a.drop_first(), b.drop_first())
    } else {
        component_lt(a[0], b[0])
    }
}

/// The order of `PathBuf`: paths compare by their components.
pub open spec fn path_lt(a: Seq<char>, b: Seq<char>) -> bool {
    components_lt(components(a), components(b))
}

/// The view of computed components.
pub open spec fn component_views(v: Seq<(u8, Vec<char>)>) -> Seq<(int, Seq<char>)> {
    v.map_values(|c: (u8, Vec<char>)| (c.0 as int, c.1@))
}

fn push_part_component(out: &mut Vec<(u8, Vec<char>)>, part: Vec<char>)
    ensures
        component_views(final(out)@) == component_views(old(out)@) + part_components(part@),
{
    let ghost before = component_views(out@);
    let n = part.len();
    if n == 0 || (n == 1 && part[0] == '.') {
        assert(n == 1 ==> part@ =~= seq!['.']);
        assert(component_views(out@) =~= before + part_components(part@));
        return;
    }
    assert(part@ != seq!['.']) by {
        if n == 1 {
            assert(part@[0] != seq!['.'][0]);
        }
    }
    if n == 2 && part[0] == '.' && part[1] == '.' {
        assert(part@ =~= seq!['.', '.']);
        out.push((3u8, Vec::new()));
        assert(component_views(out@) =~= before + part_components(part@));
        return;
    }
    assert(part@ != seq!['.', '.']) by {
        if n == 2 {
            if part@[0] != '.' {
                assert(part@[0] != seq!['.', '.'][0]);
            } else {
                assert(part@[1] != seq!['.', '.'][1]);
            }
        }
    }
    out.push((4u8, part));
    assert(component_views(out@) =~= before + part_components(part@));
}

/// The components of a path (`Path::components` on Unix).
fn path_components(path: &str) -> (r: Vec<(u8, Vec<char>)>)
    ensures
        component_views(r@) == components(path@),
{
    let s = chars_of(path);
    let n = s.len();
    let ghost sv = path@;
    let mut out: Vec<(u8, Vec<char>)> = Vec::new();
    let first_end = find_char(s.as_slice(), '/');
    proof {
        if first_end < n {
            assert((seq![sv.take(first_end as int)] + split_on(sv.skip(first_end + 1), '/'))[0]
                == sv.take(first_end as int));
        } else {
            assert(sv.take(first_end as int) =~= sv);
        }
    }
    assert(split_on(sv, '/')[0] == sv.take(first_end as int));
    if n > 0 && s[0] == '/' {
        out.push((1u8, Vec::new()));
    } else if first_end == 1 && s[0] == '.' {
        assert(sv.take(1) =~= seq!['.']);
        out.push((2u8, Vec::new()));
    } else {
        assert(sv.take(first_end as int) != seq!['.']) by {
            if first_end == 1 {
                assert(sv.take(1)[0] != seq!['.'][0]);
            } else {
                assert(sv.take(first_end as int).len() != seq!['.'].len());
            }
        }
    }
    let ghost head = component_views(out@);
    let ghost done: Seq<Seq<char>> = seq![];
    let mut start: usize = 0;
    let mut i: usize = 0;
    assert(sv.skip(0) =~= sv);
    assert(split_on(sv, '/') =~= done + split_on(sv.skip(0), '/'));
    assert(component_views(out@) =~= head + parts_components(done));
    while i < n
        invariant
            n == sv.len(),
            s@ == sv,
            0 <= start <= i <= n,
            forall|k: int| start <= k < i ==> sv[k] != '/',
            split_on(sv, '/') == done + split_on(sv.skip(start as int), '/'),
            component_views(out@) == head + parts_components(done),
        decreases n - i,
    {
        if s[i] == '/' {
            proof {
                lemma_split_on_at(sv, start as int, i as int);
            }
            let part = sub_chars(s.as_slice(), start, i);
            let ghost old_done = done;
            proof {
                done = done.push(part@);
                assert(done.drop_last() =~= old_done);
                assert(split_on(sv, '/') =~= done + split_on(sv.skip(i + 1), '/'));
            }
            push_part_component(&mut out, part);
            assert(component_views(out@) =~= head + parts_components(done));
            start = i + 1;
        }
        i = i + 1;
    }
    proof {
        lemma_split_on_end(sv, start as int);
    }
    let part = sub_chars(s.as_slice(), start, n);
    assert(part@ =~= sv.skip(start as int));
    let ghost old_done = done;
    proof {
        done = done.push(part@);
        assert(done.drop_last() =~= old_done);
        assert(split_on(sv, '/') =~= done);
    }
    push_part_component(&mut out, part);
    assert(component_views(out@) =~= head + parts_components(done));
    out
}

/// Whether two computed components are equal.
fn component_equal(a: &(u8, Vec<char>), b: &(u8, Vec<char>)) -> (r: bool)
    ensures
        r == ((a.0 as int, a.1@) == (b.0 as int, b.1@)),
{
    a.0 == b.0 && chars_equal(a.1.as_slice(), b.1.as_slice())
}

/// Whether path `a` sorts strictly before path `b` (`PathBuf` order).
pub fn path_less(a: &str, b: &str) -> (r: bool)
    ensures
        r == path_lt(a@, b@),
{
    let ca = path_components(a);
    let cb = path_components(b);
    let ghost va = component_views(ca@);
    let ghost vb = component_views(cb@);
    let n = ca.len();
    let m = cb.len();
    let mut i: usize = 0;
    assert(va.skip(0) =~= va);
    assert(vb.skip(0) =~= vb);
    while i < n && i < m && component_equal(&ca[i], &cb[i])
        invariant
            n == ca@.len(),
            m == cb@.len(),
            va == component_views(ca@),
            vb == component_views(cb@),
            0 <= i <= n,
            i <= m,
            components_lt(va, vb) == components_lt(va.skip(i as int), vb.skip(i as int)),
        decreases n - i,
    {
        assert(va.skip(i + 1) =~= va.skip(i as int).drop_first());
        assert(vb.skip(i + 1) =~= vb.skip(i as int).drop_first());
        assert(va.skip(i as int)[0] == va[i as int]);
        assert(vb.skip(i as int)[0] == vb[i as int]);
        i = i + 1;
    }
    if i == n {
        i < m
    } else if i == m {
        false
    } else {
        assert(va.skip(i as int)[0] == va[i as int]);
        assert(vb.skip(i as int)[0] == vb[i as int]);
        let x = &ca[i];
        let y = &cb[i];
        x.0 < y.0 || (x.0 == y.0 && chars_less(x.1.as_slice(), y.1.as_slice()))
    }
}

/// Where a stable insertion puts `x` into `s`: before the first element that
/// `x` sorts strictly before, or at the end.
pub open spec fn insertion_point(s: Seq<Seq<char>>, x: Seq<char>) -> nat
    decreases s.len(),
{
    if s.len() == 0 {
        0
    } else if path_lt(x, s[0]) {
        0
    } else {
        1 + insertion_point(s.drop_first(), x)
    }
}

/// The paths in `PathBuf` order; paths that compare equal keep their
/// relative order (a stable sort).
pub open spec fn sorted_paths(s: Seq<Seq<char>>) -> Seq<Seq<char>>
    decreases s.len(),
{
    if s.len() == 0 {
        seq![]
    } else {
        let r = sorted_paths(s.drop_last());
        r.insert(insertion_point(r, s.last()) as int, s.last())
    }
}

proof fn lemma_insertion_point(s: Seq<Seq<char>>, x: Seq<char>, j: int)
    requires
        0 <= j <= s.len(),
        forall|k: int| 0 <= k < j ==> !path_lt(x, #[trigger] s[k]),
        j < s.len() ==> path_lt(x, s[j]),
    ensures
        insertion_point(s, x) == j,
    decreases s.len(),
{
    if s.len() > 0 && j > 0 {
        assert(!path_lt(x, s[0]));
        assert forall|k: int| 0 <= k < j - 1 implies !path_lt(x, #[trigger] s.drop_first()[k]) by {
            assert(s.drop_first()[k] == s[k + 1]);
        }
        lemma_insertion_point(s.drop_first(), x, j - 1);
    }
}

/// Sorts paths in `PathBuf` order (a stable sort, as `slice::sort`).
pub fn sort_paths(paths: Vec<String>) -> (r: Vec<String>)
    ensures
        crate::text::views(r@) == sorted_paths(crate::text::views(paths@)),
{
    let ghost pv = crate::text::views(paths@);
    let n = paths.len();
    let mut r: Vec<String> = Vec::new();
    let mut i: usize = 0;
    assert(pv.take(0) =~= seq![]);
    assert(crate::text::views(r@) =~= seq![]);
    while i < n
        invariant
            n == paths@.len(),
            pv == crate::text::views(paths@),
            0 <= i <= n,
            crate::text::views(r@) == sorted_paths(pv.take(i as int)),
        decreases n - i,
    {
        let x = &paths[i];
        let len = r.len();
        let mut j: usize = 0;
        while j < len && !path_less(x.as_str(), r[j].as_str())
            invariant
                len == r@.len(),
                0 <= j <= len,
                forall|k: int| 0 <= k < j ==> !path_lt(x@, #[trigger] crate::text::views(r@)[k]),
            decreases len - j,
        {
            j = j + 1;
        }
        let ghost rv = crate::text::views(r@);
        proof {
            lemma_insertion_point(rv, x@, j as int);
            assert(pv.take(i + 1).drop_last() =~= pv.take(i as int));
            assert(pv.take(i + 1).last() == x@);
        }
        r.insert(j, x.clone());
        assert(crate::text::views(r@) =~= rv.insert(j as int, x@));
        i = i + 1;
    }
    assert(pv.take(n as int) =~= pv);
    r
}


/// What `Path::parent` returns for a path, as text.
pub uninterp spec fn std_parent(path: Seq<char>) -> Option<Seq<char>>;

/// Calls `Path::parent` on a path given as text and turns the answer back
/// into text. Its result is named, not spelled out.
#[verifier::external_body]
pub(crate) fn path_parent(path: &str) -> (r: Option<String>)
    ensures
        match r {
            Some(p) => std_parent(path@) == Some(p@),
            None => std_parent(path@) is None,
        },
{
    match std::path::Path::new(path).parent() {
        Some(p) => Some(p.to_string_lossy().into_owned()),
        None => None,
    }
}


/// The file an `Include` pattern names: `~` is the home directory, `~/rest`
/// is `rest` under it, absolute patterns stand as they are, and relative
/// ones are taken from the directory of the top configuration file.
pub open spec fn include_path(home: Seq<char>, base: Seq<char>, pattern: Seq<char>) -> Seq<char> {
    if pattern == seq!['~'] {
        home
    } else if pattern.len() >= 2 && pattern[0] == '~' && pattern[1] == '/' {
        path_join(home, pattern.skip(2))
    } else if is_absolute(pattern) {
        pattern
    } else {
        path_join(base, pattern)
    }
}

/// Expands an `Include` pattern into the path pattern to glob.
pub fn expand_include(home: &str, base: &str, pattern: &str) -> (r: String)
    ensures
        r@ == include_path(home@, base@, pattern@),
{
    let p = chars_of(pattern);
    let n = p.len();
    if n == 1 && p[0] == '~' {
        assert(pattern@ =~= seq!['~']);
        return home.to_owned();
    }
    assert(pattern@ != seq!['~']) by {
        if n == 1 {
            assert(pattern@[0] != seq!['~'][0]);
        } else {
            assert(pattern@.len() != seq!['~'].len());
        }
    }
    if n >= 2 && p[0] == '~' && p[1] == '/' {
        let rest = string_of(sub_chars(p.as_slice(), 2, n).as_slice());
        assert(rest@ =~= pattern@.skip(2));
        return join_path(home, rest.as_str());
    }
    if n > 0 && p[0] == '/' {
        return pattern.to_owned();
    }
    join_path(base, pattern)
}

} // verus!
