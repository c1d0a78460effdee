//! The order of strings, and sorting a list of strings into a set.
use vstd::prelude::*;
use crate::text::{chars_of, views};

verus! {

/// Strict lexicographic order on character sequences, characters compared by
/// code point. This is the order of `String`: UTF-8 orders byte strings as
/// their code points are ordered.
pub open spec fn seq_lt(a: Seq<char>, b: Seq<char>) -> bool
    decreases a.len(),
{
    if a.len() == 0 {
        b.len() > 0
    } else if b.len() == 0 {
        false
    } else if a[0] != b[0] {
        a[0] < b[0]
    } else {
        seq_lt(a.drop_first(), b.drop_first())
    }
}

/// Each element of the sequence comes strictly before the next ones.
pub open spec fn strictly_sorted(s: Seq<Seq<char>>) -> bool {
    forall|i: int, j: int| 0 <= i < j < s.len() ==> seq_lt(s[i], s[j])
}

/// No sequence comes before itself.
pub proof fn lemma_lt_irreflexive(a: Seq<char>)
    ensures
        !seq_lt(a, a),
    decreases a.len(),
{
    if a.len() > 0 {
        lemma_lt_irreflexive(a.drop_first());
    }
}

/// The order is transitive.
pub proof fn lemma_lt_transitive(a: Seq<char>, b: Seq<char>, c: Seq<char>)
    requires
        seq_lt(a, b),
        seq_lt(b, c),
    ensures
        seq_lt(a, c),
    decreases a.len(),
{
    if a.len() > 0 && b.len() > 0 && c.len() > 0 && a[0] == b[0] && b[0] == c[0] {
        lemma_lt_transitive(a.drop_first(), b.drop_first(), c.drop_first());
    }
}

/// Two different sequences are ordered one way or the other.
pub proof fn lemma_lt_total(a: Seq<char>, b: Seq<char>)
    requires
        a != b,
    ensures
        seq_lt(a, b) || seq_lt(b, a),
    decreases a.len(),
{
    if a.len() > 0 && b.len() > 0 && a[0] == b[0] {
        if a.drop_first() == b.drop_first() {
            assert(a =~= seq![a[0]] + a.drop_first());
            assert(b =~= seq![b[0]] + b.drop_first());
        }
        lemma_lt_total(a.drop_first(), b.drop_first());
    } else if a.len() == 0 && b.len() == 0 {
        assert(a =~= b);
    }
}

/// The order is asymmetric.
pub proof fn lemma_lt_asymmetric(a: Seq<char>, b: Seq<char>)
    requires
        seq_lt(a, b),
    ensures
        !seq_lt(b, a),
{
    if seq_lt(b, a) {
        lemma_lt_transitive(a, b, a);
        lemma_lt_irreflexive(a);
    }
}

/// Two sequences hold the same elements (each as often as it likes).
pub open spec fn same_elements(a: Seq<Seq<char>>, b: Seq<Seq<char>>) -> bool {
    forall|x: Seq<char>| a.contains(x) <==> b.contains(x)
}

/// The distinct elements of `c` in strictly increasing order.
pub open spec fn sorted_set_of(c: Seq<Seq<char>>) -> Seq<Seq<char>> {
    choose|r: Seq<Seq<char>>| strictly_sorted(r) && same_elements(r, c)
}

/// A strictly sorted sequence is determined by its elements.
pub proof fn lemma_sorted_determined(a: Seq<Seq<char>>, b: Seq<Seq<char>>)
    requires
        strictly_sorted(a),
        strictly_sorted(b),
        same_elements(a, b),
    ensures
        a == b,
    decreases a.len(),
{
    if a.len() == 0 {
        if b.len() > 0 {
            assert(b.contains(b[0]));
        }
        assert(a =~= b);
    } else if b.len() == 0 {
        assert(a.contains(a[0]));
    } else {
        assert(a.contains(a[0]));
        assert(b.contains(b[0]));
        if a[0] != b[0] {
            let k = choose|k: int| 0 <= k < b.len() && b[k] == a[0];
            let j = choose|j: int| 0 <= j < a.len() && a[j] == b[0];
            assert(seq_lt(b[0], b[k]));
            assert(seq_lt(a[0], a[j]));
            lemma_lt_asymmetric(a[0], b[0]);
        }
        let a1 = a.drop_first();
        let b1 = b.drop_first();
        assert forall|x: Seq<char>| a1.contains(x) implies b1.contains(x) by {
            let j = choose|j: int| 0 <= j < a1.len() && a1[j] == x;
            assert(a[j + 1] == x);
            assert(seq_lt(a[0], x));
            lemma_lt_irreflexive(x);
            assert(b.contains(x));
            let k = choose|k: int| 0 <= k < b.len() && b[k] == x;
            assert(k != 0);
            assert(b1[k - 1] == x);
        }
        assert forall|x: Seq<char>| b1.contains(x) implies a1.contains(x) by {
            let j = choose|j: int| 0 <= j < b1.len() && b1[j] == x;
            assert(b[j + 1] == x);
            assert(seq_lt(b[0], x));
            lemma_lt_irreflexive(x);
            assert(a.contains(x));
            let k = choose|k: int| 0 <= k < a.len() && a[k] == x;
            assert(k != 0);
            assert(a1[k - 1] == x);
        }
        lemma_sorted_determined(a1, b1);
        assert(a =~= seq![a[0]] + a1);
        assert(b =~= seq![b[0]] + b1);
    }
}

/// `x` put into its place in a strictly sorted sequence (unless it is there).
pub open spec fn insert_sorted(r: Seq<Seq<char>>, x: Seq<char>) -> Seq<Seq<char>>
    decreases r.len(),
{
    if r.len() == 0 {
        seq![x]
    } else if x == r[0] {
        r
    } else if seq_lt(x, r[0]) {
        seq![x] + r
    } else {
        seq![r[0]] + insert_sorted(r.drop_first(), x)
    }
}

proof fn lemma_insert_sorted(r: Seq<Seq<char>>, x: Seq<char>)
    requires
        strictly_sorted(r),
    ensures
        strictly_sorted(insert_sorted(r, x)),
        forall|y: Seq<char>| #[trigger] insert_sorted(r, x).contains(y) <==> (r.contains(y) || y == x),
        insert_sorted(r, x).len() > 0,
        insert_sorted(r, x)[0] == r[0] || insert_sorted(r, x)[0] == x,
    decreases r.len(),
{
    let t = insert_sorted(r, x);
    if r.len() == 0 {
        assert forall|y: Seq<char>| t.contains(y) <==> (r.contains(y) || y == x) by {
            if t.contains(y) {
                let k = choose|k: int| 0 <= k < t.len() && t[k] == y;
                assert(k == 0);
            }
            if y == x {
                assert(t[0] == x);
            }
        }
    } else if x == r[0] {
        assert(r.contains(r[0]));
    } else if seq_lt(x, r[0]) {
        assert forall|i: int, j: int| 0 <= i < j < t.len() implies seq_lt(t[i], t[j]) by {
            if i == 0 {
                if j > 1 {
                    lemma_lt_transitive(x, r[0], r[j - 1]);
                }
            } else {
                assert(t[i] == r[i - 1] && t[j] == r[j - 1]);
            }
        }
        assert forall|y: Seq<char>| t.contains(y) <==> (r.contains(y) || y == x) by {
            if t.contains(y) {
                let k = choose|k: int| 0 <= k < t.len() && t[k] == y;
                if k > 0 {
                    assert(r[k - 1] == y);
                }
            }
            if r.contains(y) {
                let k = choose|k: int| 0 <= k < r.len() && r[k] == y;
                assert(t[k + 1] == y);
            }
            if y == x {
                assert(t[0] == x);
            }
        }
    } else {
        let r1 = r.drop_first();
        assert forall|i: int, j: int| 0 <= i < j < r1.len() implies seq_lt(r1[i], r1[j]) by {
            assert(r1[i] == r[i + 1] && r1[j] == r[j + 1]);
        }
        lemma_insert_sorted(r1, x);
        let t1 = insert_sorted(r1, x);
        lemma_lt_total(x, r[0]);
        assert(seq_lt(r[0], x));
        assert forall|i: int, j: int| 0 <= i < j < t.len() implies seq_lt(t[i], t[j]) by {
            if i == 0 {
                assert(t[j] == t1[j - 1]);
                assert(t1.contains(t1[j - 1]));
                if t1[j - 1] != x {
                    assert(r1.contains(t1[j - 1]));
                    let k = choose|k: int| 0 <= k < r1.len() && r1[k] == t1[j - 1];
                    assert(r[k + 1] == t1[j - 1]);
                }
            } else {
                assert(t[i] == t1[i - 1] && t[j] == t1[j - 1]);
            }
        }
        assert forall|y: Seq<char>| t.contains(y) <==> (r.contains(y) || y == x) by {
            if t.contains(y) {
                let k = choose|k: int| 0 <= k < t.len() && t[k] == y;
                if k > 0 {
                    assert(t1[k - 1] == y);
                    assert(t1.contains(y));
                    if y != x {
                        assert(insert_sorted(r1, x).contains(y));
                        assert(r1.contains(y));
                        let q = choose|q: int| 0 <= q < r1.len() && r1[q] == y;
                        assert(r[q + 1] == y);
                    }
                } else {
                    assert(r[0] == y);
                }
            }
            if r.contains(y) {
                let k = choose|k: int| 0 <= k < r.len() && r[k] == y;
                if k == 0 {
                    assert(t[0] == y);
                } else {
                    assert(r1[k - 1] == y);
                    assert(r1.contains(y));
                    assert(t1.contains(y));
                    let q = choose|q: int| 0 <= q < t1.len() && t1[q] == y;
                    assert(t[q + 1] == y);
                }
            }
            if y == x {
                assert(insert_sorted(r1, x).contains(x));
                assert(t1.contains(x));
                let q = choose|q: int| 0 <= q < t1.len() && t1[q] == x;
                assert(t[q + 1] == x);
            }
        }
    }
}

/// Every sequence has a strictly sorted arrangement of its distinct
/// elements, so [`sorted_set_of`] is strictly sorted and holds exactly
/// the elements of its argument.
pub proof fn lemma_sorted_set_of(c: Seq<Seq<char>>)
    ensures
        strictly_sorted(sorted_set_of(c)),
        same_elements(sorted_set_of(c), c),
    decreases c.len(),
{
    if c.len() == 0 {
        let e: Seq<Seq<char>> = seq![];
        assert(strictly_sorted(e) && same_elements(e, c));
    } else {
        lemma_sorted_set_of(c.drop_last());
        let r = sorted_set_of(c.drop_last());
        lemma_insert_sorted(r, c.last());
        let t = insert_sorted(r, c.last());
        assert forall|y: Seq<char>| t.contains(y) <==> c.contains(y) by {
            if c.contains(y) {
                let k = choose|k: int| 0 <= k < c.len() && c[k] == y;
                if k < c.len() - 1 {
                    assert(c.drop_last()[k] == y);
                }
            }
            if c.drop_last().contains(y) {
                let k = choose|k: int| 0 <= k < c.drop_last().len() && c.drop_last()[k] == y;
                assert(c[k] == y);
            }
        }
        assert(strictly_sorted(t) && same_elements(t, c));
    }
}

/// Whether `a` comes strictly before `b`.
pub fn chars_less(a: &[char], b: &[char]) -> (r: bool)
    ensures
        r == seq_lt(a@, b@),
{
    let n = a.len();
    let m = b.len();
    let mut i: usize = 0;
    assert(a@.skip(0) =~= a@);
    assert(b@.skip(0) =~= b@);
    while i < n && i < m && a[i] == b[i]
        invariant
            n == a@.len(),
            m == b@.len(),
            0 <= i <= n,
            i <= m,
            seq_lt(a@, b@) == seq_lt(a@.skip(i as int), b@.skip(i as int)),
        decreases n - i,
    {
        assert(a@.skip(i + 1) =~= a@.skip(i as int).drop_first());
        assert(b@.skip(i + 1) =~= b@.skip(i as int).drop_first());
        i = i + 1;
    }
    if i == n {
        i < m
    } else if i == m {
        false
    } else {
        assert(a@.skip(i as int)[0] == a@[i as int]);
        assert(b@.skip(i as int)[0] == b@[i as int]);
        a[i] < b[i]
    }
}

/// The strings sorted in increasing order with repeats removed
/// (`sort` followed by `dedup`): the result is strictly sorted and holds
/// exactly the strings of the input.
pub fn sorted_unique(items: Vec<String>) -> (r: Vec<String>)
    ensures
        views(r@) == sorted_set_of(views(items@)),
{
    let n = items.len();
    let mut r: Vec<String> = Vec::new();
    let mut rc: Vec<Vec<char>> = Vec::new();
    let mut i: usize = 0;
    while i < n
        invariant
            n == items@.len(),
            0 <= i <= n,
            rc@.len() == r@.len(),
            forall|k: int| 0 <= k < r@.len() ==> #[trigger] rc@[k]@ == r@[k]@,
            strictly_sorted(views(r@)),
            forall|x: Seq<char>|
                views(r@).contains(x) <==> views(items@.take(i as int)).contains(x),
        decreases n - i,
    {
        let item = &items[i];
        let xc = chars_of(item.as_str());
        let ghost x = item@;
        let len = r.len();
        let mut j: usize = 0;
        while j < len && chars_less(rc[j].as_slice(), xc.as_slice())
            invariant
                len == r@.len(),
                rc@.len() == r@.len(),
                forall|k: int| 0 <= k < r@.len() ==> #[trigger] rc@[k]@ == r@[k]@,
                0 <= j <= len,
                xc@ == x,
                forall|k: int| 0 <= k < j ==> seq_lt(#[trigger] r@[k]@, x),
            decreases len - j,
        {
            j = j + 1;
        }
        let ghost old_views = views(r@);
        let ghost pre = views(items@.take(i as int));
        let ghost post = views(items@.take(i + 1));
        assert(post =~= pre.push(x));
        assert(forall|y: Seq<char>| old_views.contains(y) <==> pre.contains(y));
        let present = j < len && !chars_less(xc.as_slice(), rc[j].as_slice());
        if present {
            proof {
                if r@[j as int]@ != x {
                    lemma_lt_total(r@[j as int]@, x);
                }
                assert(old_views[j as int] == x);
                assert forall|y: Seq<char>| old_views.contains(y) <==> post.contains(y) by {
                    if y == x {
                        assert(old_views.contains(x));
                        assert(post[i as int] == x);
                    }
                    if post.contains(y) && y != x {
                        let q = choose|q: int| 0 <= q < post.len() && #[trigger] post[q] == y;
                        assert(pre[q] == y);
                    }
                    if old_views.contains(y) {
                        assert(pre.contains(y));
                        let q = choose|q: int| 0 <= q < pre.len() && #[trigger] pre[q] == y;
                        assert(post[q] == y);
                    }
                }
            }
        } else {
            proof {
                assert forall|k: int| j <= k < len implies seq_lt(x, #[trigger] old_views[k]) by {
                    assert(old_views[j as int] == r@[j as int]@);
                    if r@[j as int]@ != x {
                        lemma_lt_total(r@[j as int]@, x);
                    } else {
                        lemma_lt_irreflexive(x);
                    }
                    if k > j {
                        lemma_lt_transitive(x, old_views[j as int], old_views[k]);
                    }
                }
            }
            r.insert(j, item.clone());
            rc.insert(j, xc);
            let ghost nv = views(r@);
            assert(nv =~= old_views.insert(j as int, x));
            assert forall|a: int, b: int| 0 <= a < b < nv.len() implies seq_lt(nv[a], nv[b]) by {
                if a < j && b > j {
                    lemma_lt_transitive(old_views[a], x, old_views[b - 1]);
                }
            }
            assert forall|y: Seq<char>| nv.contains(y) <==> post.contains(y) by {
                if nv.contains(y) {
                    let q = choose|q: int| 0 <= q < nv.len() && #[trigger] nv[q] == y;
                    if y != x {
                        if q < j {
                            assert(old_views[q] == y);
                        } else {
                            assert(old_views[q - 1] == y);
                        }
                        assert(pre.contains(y));
                        let p = choose|p: int| 0 <= p < pre.len() && #[trigger] pre[p] == y;
                        assert(post[p] == y);
                    } else {
                        assert(post[i as int] == x);
                    }
                }
                if post.contains(y) {
                    if y == x {
                        assert(nv[j as int] == x);
                    } else {
                        let q = choose|q: int| 0 <= q < post.len() && #[trigger] post[q] == y;
                        assert(pre[q] == y);
                        assert(old_views.contains(y));
                        let p = choose|p: int| 0 <= p < old_views.len() && #[trigger] old_views[p] == y;
                        if p < j {
                            assert(nv[p] == y);
                        } else {
                            assert(nv[p + 1] == y);
                        }
                    }
                }
            }
            assert forall|k: int| 0 <= k < r@.len() implies #[trigger] rc@[k]@ == r@[k]@ by {
                if k < j {
                } else if k == j {
                } else {
                }
            }
        }
        i = i + 1;
    }
    assert(items@.take(n as int) =~= items@);
    proof {
        let v = views(r@);
        assert(strictly_sorted(v) && same_elements(v, views(items@)));
        let c = sorted_set_of(views(items@));
        lemma_sorted_determined(v, c);
    }
    r
}

} // verus!
