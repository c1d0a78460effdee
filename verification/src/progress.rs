//! Why reading a configuration always ends.
//!
//! Each piece of outstanding work (an item of a task, a task itself, or the
//! answer the reader waits for) gets a rank from its `Include` depth and its
//! kind. Every move of the reader uses up one piece and adds only pieces of
//! lower rank, however many. Counting the pieces of each rank, from the
//! highest rank down, therefore decreases lexicographically, and such counts
//! cannot decrease for ever.
use vstd::prelude::*;
use crate::parser::{
    depths_bounded, expansion_failed_step, expansion_listed_step, file_read_step, open_file_step,
    read_line, step, tokens_of, TaskKind, TaskView, ParserView, WaitView, MAX_INCLUDE_DEPTH,
};

verus! {

/// One move of the reader, as its caller drives it: a step when it waits for
/// nothing and has work left, otherwise any answer to what it waits for
/// (a canonical path or none, a file's contents or an error, a glob's
/// entries or its failure).
pub open spec fn moves(p: ParserView, q: ParserView) -> bool {
    match p.waiting {
        WaitView::Nothing => p.tasks.len() > 0 && q == step(p).0,
        WaitView::Open(_, _) => exists|c: Option<Seq<char>>| q == #[trigger] open_file_step(p, c).0,
        WaitView::Read(_, _) => exists|c: Result<Seq<char>, Seq<char>>|
            q == #[trigger] file_read_step(p, c),
        WaitView::Expand(_, _) => (exists|e: Seq<char>| q == #[trigger] expansion_failed_step(p, e))
            || (exists|es: Seq<Result<Seq<char>, Seq<char>>>|
            q == #[trigger] expansion_listed_step(p, es)),
    }
}

/// How many `Include` levels lie below depth `d`.
pub open spec fn level(d: nat) -> int {
    MAX_INCLUDE_DEPTH + 1 - d
}

/// The rank of a task's items (and of the task itself).
pub open spec fn task_rank(d: nat, k: TaskKind) -> int {
    level(d) * 7 + match k {
        TaskKind::Patterns => 6int,
        TaskKind::Paths => 4int,
        TaskKind::Lines => 1int,
    }
}

/// The rank of what the reader waits for; waiting for nothing has none.
pub open spec fn wait_rank(w: WaitView) -> int {
    match w {
        WaitView::Nothing => -1,
        WaitView::Expand(_, d) => level(d) * 7 + 5,
        WaitView::Open(_, d) => level(d) * 7 + 3,
        WaitView::Read(_, d) => level(d) * 7 + 2,
    }
}

/// The number of ranks.
pub open spec fn ranks() -> nat {
    ((MAX_INCLUDE_DEPTH + 2) * 7) as nat
}

/// The items a task has left.
pub open spec fn remaining(t: TaskView) -> nat {
    if t.next < t.items.len() {
        (t.items.len() - t.next) as nat
    } else {
        0
    }
}

/// The pieces of rank `r` in a task: the task and its items left.
pub open spec fn task_count(t: TaskView, r: int) -> nat {
    if task_rank(t.depth, t.kind) == r {
        1 + remaining(t)
    } else {
        0
    }
}

/// The pieces of rank `r` in a stack of tasks.
pub open spec fn tasks_count(ts: Seq<TaskView>, r: int) -> nat
    decreases ts.len(),
{
    if ts.len() == 0 {
        0
    } else {
        tasks_count(ts.drop_last(), r) + task_count(ts.last(), r)
    }
}

/// The pieces of rank `r` of the reader's outstanding work.
pub open spec fn count(p: ParserView, r: int) -> nat {
    tasks_count(p.tasks, r) + if wait_rank(p.waiting) == r {
        1nat
    } else {
        0nat
    }
}

/// The reader's outstanding work, counted by rank.
pub open spec fn work(p: ParserView) -> spec_fn(int) -> nat {
    |r: int| count(p, r)
}

/// `a` is below `b` on the ranks under `n`, compared from the highest down.
pub open spec fn lex_lt(a: spec_fn(int) -> nat, b: spec_fn(int) -> nat, n: nat) -> bool
    decreases n,
{
    n > 0 && (a(n - 1) < b(n - 1) || (a(n - 1) == b(n - 1) && lex_lt(a, b, (n - 1) as nat)))
}

proof fn lemma_lex_witness(a: spec_fn(int) -> nat, b: spec_fn(int) -> nat, n: nat, r0: int)
    requires
        0 <= r0 < n,
        a(r0) < b(r0),
        forall|r: int| r0 < r < n ==> #[trigger] a(r) == b(r),
    ensures
        lex_lt(a, b, n),
    decreases n,
{
    if r0 < n - 1 {
        lemma_lex_witness(a, b, (n - 1) as nat, r0);
    }
}

proof fn lemma_tasks_push(ts: Seq<TaskView>, t: TaskView, r: int)
    ensures
        tasks_count(ts.push(t), r) == tasks_count(ts, r) + task_count(t, r),
{
    assert(ts.push(t).drop_last() =~= ts);
}

proof fn lemma_tasks_set_last(ts: Seq<TaskView>, t: TaskView, r: int)
    requires
        ts.len() > 0,
    ensures
        tasks_count(ts.update(ts.len() - 1, t), r) == tasks_count(ts.drop_last(), r) + task_count(
            t,
            r,
        ),
{
    assert(ts.update(ts.len() - 1, t).drop_last() =~= ts.drop_last());
}

/// A move keeps depths bounded and makes the outstanding work smaller.
#[verifier::spinoff_prover]
proof fn lemma_move_decreases(p: ParserView, q: ParserView)
    requires
        depths_bounded(p),
        moves(p, q),
    ensures
        depths_bounded(q),
        lex_lt(work(q), work(p), ranks()),
{
    let n = ranks();
    match p.waiting {
        WaitView::Nothing => {
            let last = p.tasks.len() - 1;
            let t = p.tasks.last();
            assert(p.tasks[last] == t);
            let r0 = task_rank(t.depth, t.kind);
            if t.next >= t.items.len() {
                assert(q.tasks == p.tasks.drop_last());
                assert forall|r: int| #[trigger] count(q, r) + task_count(t, r) == count(p, r) by {}
                lemma_lex_witness(work(q), work(p), n, r0);
            } else {
                let t1 = TaskView { next: t.next + 1, ..t };
                let ts1 = p.tasks.update(last, t1);
                assert forall|r: int| #![auto] tasks_count(ts1, r) + (if r == r0 { 1nat } else { 0nat }) == tasks_count(p.tasks, r) by {
                    lemma_tasks_set_last(p.tasks, t1, r);
                }
                let item = t.items[t.next as int];
                match t.kind {
                    TaskKind::Paths => {
                        assert(q.tasks == ts1);
                    },
                    TaskKind::Patterns => {
                        assert(q.tasks == ts1);
                    },
                    TaskKind::Lines => {
                        let p1 = ParserView { tasks: ts1, ..p };
                        assert(q == read_line(p1, t.path, t.next + 1, item, t.depth));
                        if q.tasks != ts1 {
                            let (keyword, args) = crate::parser::directive(tokens_of(item)->0);
                            let nt2 = TaskView {
                                kind: TaskKind::Patterns,
                                path: seq![],
                                items: args,
                                next: 0,
                                depth: t.depth + 1,
                            };
                            assert(q.tasks == ts1.push(nt2));
                            assert forall|r: int| #![auto] tasks_count(q.tasks, r) == tasks_count(ts1, r) + task_count(nt2, r) by {
                                lemma_tasks_push(ts1, nt2, r);
                            }
                        }
                    },
                }
                assert forall|i: int| 0 <= i < ts1.len() implies #[trigger] ts1[i].depth
                    <= MAX_INCLUDE_DEPTH + 1 && (ts1[i].kind == TaskKind::Lines ==> ts1[i].depth
                    <= MAX_INCLUDE_DEPTH) by {
                    assert(p.tasks[i].depth <= MAX_INCLUDE_DEPTH + 1);
                }
                lemma_lex_witness(work(q), work(p), n, r0);
            }
        },
        WaitView::Open(_, d) => {
            let c = choose|c: Option<Seq<char>>| q == #[trigger] open_file_step(p, c).0;
            lemma_lex_witness(work(q), work(p), n, wait_rank(p.waiting));
        },
        WaitView::Read(path, d) => {
            let c = choose|c: Result<Seq<char>, Seq<char>>| q == #[trigger] file_read_step(p, c);
            match c {
                Ok(text) => {
                    let nt = TaskView {
                        kind: TaskKind::Lines,
                        path,
                        items: crate::text::lines(text),
                        next: 0,
                        depth: d,
                    };
                    assert(q.tasks == p.tasks.push(nt));
                    assert forall|r: int| #![auto] tasks_count(q.tasks, r) == tasks_count(p.tasks, r) + task_count(nt, r) by {
                        lemma_tasks_push(p.tasks, nt, r);
                    }
                    assert forall|i: int| 0 <= i < q.tasks.len() implies #[trigger] q.tasks[i].depth
                        <= MAX_INCLUDE_DEPTH + 1 && (q.tasks[i].kind == TaskKind::Lines ==> q.tasks[i].depth
                        <= MAX_INCLUDE_DEPTH) by {
                        if i < p.tasks.len() {
                            assert(q.tasks[i] == p.tasks[i]);
                        }
                    }
                },
                Err(_) => {},
            }
            lemma_lex_witness(work(q), work(p), n, wait_rank(p.waiting));
        },
        WaitView::Expand(_, d) => {
            if exists|e: Seq<char>| q == #[trigger] expansion_failed_step(p, e) {
                lemma_lex_witness(work(q), work(p), n, wait_rank(p.waiting));
            } else {
                let es = choose|es: Seq<Result<Seq<char>, Seq<char>>>|
                    q == #[trigger] expansion_listed_step(p, es);
                let nt = q.tasks.last();
                assert(q.tasks == p.tasks.push(nt));
                assert forall|r: int| #![auto] tasks_count(q.tasks, r) == tasks_count(p.tasks, r) + task_count(nt, r) by {
                    lemma_tasks_push(p.tasks, nt, r);
                }
                assert forall|i: int| 0 <= i < q.tasks.len() implies #[trigger] q.tasks[i].depth
                    <= MAX_INCLUDE_DEPTH + 1 && (q.tasks[i].kind == TaskKind::Lines ==> q.tasks[i].depth
                    <= MAX_INCLUDE_DEPTH) by {
                    if i < p.tasks.len() {
                        assert(q.tasks[i] == p.tasks[i]);
                    }
                }
                lemma_lex_witness(work(q), work(p), n, wait_rank(p.waiting));
            }
        },
    }
}

proof fn lemma_below_start(c: spec_fn(nat) -> nat, k: nat)
    requires
        forall|i: nat| #[trigger] c(i + 1) <= c(i),
    ensures
        c(k) <= c(0),
    decreases k,
{
    if k > 0 {
        lemma_below_start(c, (k - 1) as nat);
        assert(c(((k - 1) as nat + 1) as nat) <= c((k - 1) as nat));
    }
}

/// From `j` on, `c` stays at `c(j)`.
pub open spec fn stable_from(c: spec_fn(nat) -> nat, j: nat) -> bool {
    forall|i: nat| i >= j ==> #[trigger] c(i) == c(j)
}

proof fn lemma_stabilizes(c: spec_fn(nat) -> nat)
    requires
        forall|i: nat| #[trigger] c(i + 1) <= c(i),
    ensures
        exists|j: nat| stable_from(c, j),
    decreases c(0),
{
    if forall|i: nat| #[trigger] c(i) == c(0) {
        assert(stable_from(c, 0));
    } else {
        let k = choose|k: nat| #[trigger] c(k) != c(0);
        lemma_below_start(c, k);
        let d = |i: nat| c(i + k);
        assert forall|i: nat| #[trigger] d(i + 1) <= d(i) by {
            assert(c((i + k + 1) as nat) <= c((i + k) as nat));
            assert((i + 1 + k) as nat == (i + k + 1) as nat);
        }
        lemma_stabilizes(d);
        let j0 = choose|j: nat| stable_from(d, j);
        let j = j0 + k;
        assert forall|i: nat| i >= j implies #[trigger] c(i) == c(j) by {
            assert(d((i - k) as nat) == d(j0));
            assert(d(j0) == c(j));
        }
        assert(stable_from(c, j));
    }
}

/// No sequence of rank counts decreases for ever.
proof fn lemma_no_endless_descent(v: spec_fn(nat) -> spec_fn(int) -> nat, n: nat)
    ensures
        !(forall|i: nat| lex_lt(#[trigger] v(i + 1), v(i), n)),
    decreases n,
{
    if forall|i: nat| lex_lt(#[trigger] v(i + 1), v(i), n) {
        if n > 0 {
            let top = |i: nat| v(i)(n - 1);
            assert forall|i: nat| #[trigger] top(i + 1) <= top(i) by {
                assert(lex_lt(v(i + 1), v(i), n));
            }
            lemma_stabilizes(top);
            let j = choose|j: nat| stable_from(top, j);
            let w = |i: nat| v(i + j);
            assert forall|i: nat| lex_lt(#[trigger] w(i + 1), w(i), (n - 1) as nat) by {
                assert(lex_lt(v((i + j) as nat + 1), v((i + j) as nat), n));
                assert(top((i + j) as nat + 1) == top(j));
                assert(top((i + j) as nat) == top(j));
                assert((i + 1 + j) as nat == ((i + j) as nat + 1) as nat);
            }
            lemma_no_endless_descent(w, (n - 1) as nat);
        } else {
            assert(lex_lt(v(0nat + 1), v(0nat), n));
        }
    }
}

#[verifier::spinoff_prover]
proof fn lemma_bounded_along(run: spec_fn(nat) -> ParserView, k: nat)
    requires
        depths_bounded(run(0)),
        forall|i: nat| moves(#[trigger] run(i), run(i + 1)),
    ensures
        depths_bounded(run(k)),
    decreases k,
{
    if k > 0 {
        let j = (k - 1) as nat;
        lemma_bounded_along(run, j);
        assert(moves(run(j), run(j + 1)));
        assert(j + 1 == k);
        lemma_move_decreases(run(j), run(k));
    }
}

/// A reader cannot move for ever.
pub(crate) proof fn lemma_no_endless_run(run: spec_fn(nat) -> ParserView)
    requires
        depths_bounded(run(0)),
    ensures
        !(forall|i: nat| moves(#[trigger] run(i), run(i + 1))),
{
    if forall|i: nat| moves(#[trigger] run(i), run(i + 1)) {
        let v = |i: nat| work(run(i));
        assert forall|i: nat| lex_lt(#[trigger] v(i + 1), v(i), ranks()) by {
            lemma_bounded_along(run, i);
            lemma_move_decreases(run(i), run(i + 1));
        }
        lemma_no_endless_descent(v, ranks());
    }
}

} // verus!
