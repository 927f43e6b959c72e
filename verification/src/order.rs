//! The order of relative paths (component by component, each compared by code point) and a
//! stable insertion sort of work items by it.
use vstd::prelude::*;
use vstd::multiset::Multiset;
use crate::paths::{segments, segments_chars, views};
use crate::text::chars_of;
use crate::work::{item_view, item_views, WorkItem};

verus! {

/// Strict lexicographic order of character sequences by code point.
pub open spec fn chars_lt(a: Seq<char>, b: Seq<char>) -> bool
    decreases a.len(),
{
    if a.len() == 0 {
        b.len() > 0
    } else if b.len() == 0 {
        false
    } else if a[0] != b[0] {
        a[0] < b[0]
    } else {
        chars_lt(a.drop_first(), b.drop_first())
    }
}

/// Strict lexicographic order of component lists.
pub open spec fn segs_lt(a: Seq<Seq<char>>, b: Seq<Seq<char>>) -> bool
    decreases a.len(),
{
    if a.len() == 0 {
        b.len() > 0
    } else if b.len() == 0 {
        false
    } else if a[0] != b[0] {
        chars_lt(a[0], b[0])
    } else {
        segs_lt(a.drop_first(), b.drop_first())
    }
}

/// `a` sorts before `b` as a path (`Path::cmp` on relative paths).
pub open spec fn rel_lt(a: Seq<char>, b: Seq<char>) -> bool {
    segs_lt(segments(a), segments(b))
}

/// No item sorts before the one preceding it.
pub open spec fn sorted_by_rel(s: Seq<(Seq<char>, Seq<char>, Seq<char>, crate::work::WorkKind)>) -> bool {
    forall|i: int| 0 <= i < s.len() - 1 ==> !rel_lt(#[trigger] s[i + 1].1, s[i].1)
}

proof fn lemma_chars_lt_asym(a: Seq<char>, b: Seq<char>)
    ensures
        chars_lt(a, b) ==> !chars_lt(b, a),
    decreases a.len(),
{
    if a.len() > 0 && b.len() > 0 && a[0] == b[0] {
        lemma_chars_lt_asym(a.drop_first(), b.drop_first());
    }
}

proof fn lemma_segs_lt_asym(a: Seq<Seq<char>>, b: Seq<Seq<char>>)
    ensures
        segs_lt(a, b) ==> !segs_lt(b, a),
    decreases a.len(),
{
    if a.len() > 0 && b.len() > 0 {
        if a[0] == b[0] {
            lemma_segs_lt_asym(a.drop_first(), b.drop_first());
        } else {
            lemma_chars_lt_asym(a[0], b[0]);
        }
    }
}

proof fn lemma_chars_lt_trans(a: Seq<char>, b: Seq<char>, c: Seq<char>)
    requires
        chars_lt(a, b),
        chars_lt(b, c),
    ensures
        chars_lt(a, c),
    decreases a.len(),
{
    if a.len() > 0 && b.len() > 0 && c.len() > 0 && a[0] == b[0] && b[0] == c[0] {
        lemma_chars_lt_trans(a.drop_first(), b.drop_first(), c.drop_first());
    }
}

proof fn lemma_chars_lt_total(a: Seq<char>, b: Seq<char>)
    ensures
        a == b || chars_lt(a, b) || chars_lt(b, a),
    decreases a.len(),
{
    if a.len() > 0 && b.len() > 0 && a[0] == b[0] {
        lemma_chars_lt_total(a.drop_first(), b.drop_first());
        if a.drop_first() == b.drop_first() {
            assert(a =~= seq![a[0]] + a.drop_first());
            assert(b =~= seq![b[0]] + b.drop_first());
        }
    } else if a.len() == 0 && b.len() == 0 {
        assert(a =~= b);
    } else if a.len() > 0 && b.len() > 0 {
    }
}

proof fn lemma_segs_lt_trans(a: Seq<Seq<char>>, b: Seq<Seq<char>>, c: Seq<Seq<char>>)
    requires
        segs_lt(a, b),
        segs_lt(b, c),
    ensures
        segs_lt(a, c),
    decreases a.len(),
{
    if a.len() > 0 && b.len() > 0 && c.len() > 0 {
        if a[0] == b[0] && b[0] == c[0] {
            lemma_segs_lt_trans(a.drop_first(), b.drop_first(), c.drop_first());
        } else if a[0] == b[0] {
        } else if b[0] == c[0] {
        } else {
            lemma_chars_lt_trans(a[0], b[0], c[0]);
            if a[0] == c[0] {
                lemma_chars_lt_asym(a[0], b[0]);
            }
        }
    }
}

proof fn lemma_segs_lt_total(a: Seq<Seq<char>>, b: Seq<Seq<char>>)
    ensures
        a == b || segs_lt(a, b) || segs_lt(b, a),
    decreases a.len(),
{
    if a.len() > 0 && b.len() > 0 {
        if a[0] == b[0] {
            lemma_segs_lt_total(a.drop_first(), b.drop_first());
            if a.drop_first() == b.drop_first() {
                assert(a =~= seq![a[0]] + a.drop_first());
                assert(b =~= seq![b[0]] + b.drop_first());
            }
        } else {
            lemma_chars_lt_total(a[0], b[0]);
        }
    } else if a.len() == 0 && b.len() == 0 {
        assert(a =~= b);
    }
}

proof fn lemma_segs_lt_irrefl(a: Seq<Seq<char>>)
    ensures
        !segs_lt(a, a),
{
    lemma_segs_lt_asym(a, a);
}

/// The abstract value of a work item.
pub type ItemView = (Seq<char>, Seq<char>, Seq<char>, crate::work::WorkKind);

/// Whether an item's relative path has the components `k`.
pub open spec fn key_is(k: Seq<Seq<char>>) -> spec_fn(ItemView) -> bool {
    |v: ItemView| segments(v.1) == k
}

/// The items whose relative path has the components `k`, in order.
pub open spec fn run_of(s: Seq<ItemView>, k: Seq<Seq<char>>) -> Seq<ItemView> {
    s.filter(key_is(k))
}

proof fn lemma_greater_after(s: Seq<ItemView>, p: int, x: Seq<char>)
    requires
        sorted_by_rel(s),
        0 <= p < s.len(),
        rel_lt(x, s[p].1),
    ensures
        forall|q: int| p <= q < s.len() ==> rel_lt(x, #[trigger] s[q].1),
    decreases s.len() - p,
{
    if p + 1 < s.len() {
        assert(!rel_lt(s[p + 1].1, s[p].1));
        lemma_segs_lt_total(segments(s[p].1), segments(s[p + 1].1));
        if segs_lt(segments(s[p].1), segments(s[p + 1].1)) {
            lemma_segs_lt_trans(segments(x), segments(s[p].1), segments(s[p + 1].1));
        }
        lemma_greater_after(s, p + 1, x);
    }
}

proof fn lemma_filter_none(s: Seq<ItemView>, f: spec_fn(ItemView) -> bool)
    requires
        forall|q: int| 0 <= q < s.len() ==> !f(s[q]),
    ensures
        s.filter(f) =~= Seq::<ItemView>::empty(),
    decreases s.len(),
{
    reveal(Seq::filter);
    if s.len() > 0 {
        assert forall|q: int| 0 <= q < s.drop_last().len() implies !f(s.drop_last()[q]) by {
            assert(s.drop_last()[q] == s[q]);
        }
        lemma_filter_none(s.drop_last(), f);
        assert(!f(s[s.len() - 1]));
    }
}

proof fn lemma_run_after_insert(s: Seq<ItemView>, p: int, v: ItemView, k: Seq<Seq<char>>)
    requires
        sorted_by_rel(s),
        0 <= p <= s.len(),
        p < s.len() ==> rel_lt(v.1, s[p].1),
    ensures
        run_of(s.insert(p, v), k) == if segments(v.1) == k {
            run_of(s, k).push(v)
        } else {
            run_of(s, k)
        },
{
    broadcast use vstd::seq_lib::group_filter_ensures;

    let f = key_is(k);
    let head = s.take(p);
    let tail = s.skip(p);
    assert(s.insert(p, v) =~= head + seq![v] + tail);
    assert(s =~= head + tail);
    Seq::filter_distributes_over_add(head + seq![v], tail, f);
    Seq::filter_distributes_over_add(head, seq![v], f);
    Seq::filter_distributes_over_add(head, tail, f);
    if p < s.len() {
        lemma_greater_after(s, p, v.1);
    }
    if segments(v.1) == k {
        lemma_segs_lt_irrefl(k);
        assert forall|q: int| 0 <= q < tail.len() implies !f(tail[q]) by {
            assert(tail[q] == s[p + q]);
            assert(rel_lt(v.1, s[p + q].1));
        }
        lemma_filter_none(tail, f);
    }
    assert(seq![v].filter(f) =~= if f(v) {
        seq![v]
    } else {
        Seq::empty()
    }) by {
        let e = Seq::<ItemView>::empty();
        assert(e.filter(f) =~= e) by {
            reveal(Seq::filter);
        }
        assert(e.push(v) =~= seq![v]);
        e.lemma_filter_push(v, f);
    }
}

/// `a < b` for character slices.
pub fn chars_less(a: &[char], b: &[char]) -> (r: bool)
    ensures
        r == chars_lt(a@, b@),
{
    let mut i: usize = 0;
    let n = a.len();
    let m = b.len();
    assert(a@.skip(0) == a@ && b@.skip(0) == b@);
    loop
        invariant
            n == a@.len(),
            m == b@.len(),
            i <= n,
            i <= m,
            chars_lt(a@, b@) == chars_lt(a@.skip(i as int), b@.skip(i as int)),
        decreases n - i,
    {
        if i == n {
            return m > i;
        }
        if i == m {
            return false;
        }
        if a[i] != b[i] {
            return a[i] < b[i];
        }
        assert(a@.skip(i as int).drop_first() == a@.skip(i + 1));
        assert(b@.skip(i as int).drop_first() == b@.skip(i + 1));
        i = i + 1;
    }
}

/// `a < b` for component lists.
fn segs_less(a: &Vec<Vec<char>>, b: &Vec<Vec<char>>) -> (r: bool)
    ensures
        r == segs_lt(views(a@), views(b@)),
{
    let mut i: usize = 0;
    let n = a.len();
    let m = b.len();
    assert(views(a@).skip(0) == views(a@) && views(b@).skip(0) == views(b@));
    loop
        invariant
            n == a@.len(),
            m == b@.len(),
            i <= n,
            i <= m,
            segs_lt(views(a@), views(b@)) == segs_lt(
                views(a@).skip(i as int),
                views(b@).skip(i as int),
            ),
        decreases n - i,
    {
        if i == n {
            return m > i;
        }
        if i == m {
            return false;
        }
        let same = crate::paths::chars_eq(a[i].as_slice(), b[i].as_slice());
        if !same {
            return chars_less(a[i].as_slice(), b[i].as_slice());
        }
        assert(views(a@).skip(i as int).drop_first() == views(a@).skip(i + 1));
        assert(views(b@).skip(i as int).drop_first() == views(b@).skip(i + 1));
        i = i + 1;
    }
}

/// Whether relative path `a` sorts before `b`.
pub fn rel_less(a: &str, b: &str) -> (r: bool)
    ensures
        r == rel_lt(a@, b@),
{
    let sa = segments_chars(chars_of(a).as_slice());
    let sb = segments_chars(chars_of(b).as_slice());
    segs_less(&sa, &sb)
}

proof fn lemma_insert_multiset<A>(s: Seq<A>, p: int, x: A)
    requires
        0 <= p <= s.len(),
    ensures
        s.insert(p, x).to_multiset() =~= s.to_multiset().insert(x),
{
    broadcast use vstd::seq_lib::group_to_multiset_ensures;
    broadcast use vstd::multiset::group_multiset_axioms;

    let t = s.insert(p, x);
    assert(t.remove(p) =~= s);
    assert(t[p] == x);
    assert(t.contains(x));
    assert(t.to_multiset().count(x) > 0);
}

/// The items reordered so that no relative path sorts before the one preceding it; items with
/// equal paths keep their relative order.
pub fn sort_by_rel(items: Vec<WorkItem>) -> (out: Vec<WorkItem>)
    ensures
        item_views(out@).to_multiset() == item_views(items@).to_multiset(),
        sorted_by_rel(item_views(out@)),
        forall|k: Seq<Seq<char>>| #[trigger] run_of(item_views(out@), k) == run_of(item_views(items@), k),
{
    broadcast use vstd::seq_lib::group_to_multiset_ensures;
    broadcast use vstd::multiset::group_multiset_axioms;

    let ghost start = item_views(items@);
    let mut rest = items;
    let mut out: Vec<WorkItem> = Vec::new();
    let ghost total = item_views(rest@).to_multiset();
    assert(item_views(out@).to_multiset() =~= Multiset::empty());
    assert forall|k: Seq<Seq<char>>| #[trigger] run_of(item_views(out@), k) + run_of(item_views(rest@), k) == run_of(start, k) by {
        assert(item_views(out@) =~= Seq::<ItemView>::empty());
        assert(run_of(item_views(out@), k) =~= Seq::<ItemView>::empty()) by {
            reveal(Seq::filter);
        }
        assert(run_of(item_views(out@), k) + run_of(item_views(rest@), k) =~= run_of(item_views(rest@), k));
    }
    while rest.len() > 0
        invariant
            item_views(out@).to_multiset().add(item_views(rest@).to_multiset()) == total,
            sorted_by_rel(item_views(out@)),
            forall|k: Seq<Seq<char>>| #[trigger] run_of(item_views(out@), k) + run_of(item_views(rest@), k) == run_of(start, k),
        decreases rest@.len(),
    {
        let ghost rv = item_views(rest@);
        let x = rest.remove(0);
        proof {
            assert(item_views(rest@) =~= rv.remove(0));
            assert(rv[0] == item_view(x));
        }
        let mut p: usize = 0;
        let n = out.len();
        while p < n && !rel_less(x.rel.as_str(), out[p].rel.as_str())
            invariant
                p <= n,
                n == out@.len(),
                p > 0 ==> !rel_lt(x.rel@, out@[p - 1].rel@),
            decreases n - p,
        {
            p = p + 1;
        }
        let ghost ov = item_views(out@);
        let ghost out_before = out@;
        let ghost xv = item_view(x);
        assert(p < n ==> rel_lt(x.rel@, out@[p as int].rel@));
        out.insert(p, x);
        proof {
            assert(item_views(out@) =~= ov.insert(p as int, xv));
            lemma_insert_multiset(ov, p as int, xv);
            if p < n {
                lemma_segs_lt_asym(segments(xv.1), segments(ov[p as int].1));
            }
            let nv = item_views(out@);
            assert forall|i: int| 0 <= i < nv.len() - 1 implies !rel_lt(
                #[trigger] nv[i + 1].1,
                nv[i].1,
            ) by {
                if i + 1 < p {
                    assert(nv[i] == ov[i] && nv[i + 1] == ov[i + 1]);
                    assert(!rel_lt(ov[i + 1].1, ov[i].1));
                } else if i + 1 == p {
                    assert(nv[i] == ov[i] && nv[i + 1] == xv);
                    assert(ov[i].1 == out_before[i].rel@);
                } else if i == p {
                    assert(nv[i] == xv && nv[i + 1] == ov[i]);
                    assert(ov[i].1 == out_before[i].rel@);
                    assert(rel_lt(xv.1, ov[i].1));
                } else {
                    assert(nv[i] == ov[i - 1] && nv[i + 1] == ov[i]);
                    assert(!rel_lt(ov[(i - 1) + 1].1, ov[i - 1].1));
                }
            }
            assert(rv.to_multiset() =~= rv.remove(0).to_multiset().insert(xv)) by {
                assert(rv =~= rv.remove(0).insert(0, xv));
                lemma_insert_multiset(rv.remove(0), 0, xv);
            }
            assert(item_views(out@).to_multiset().add(item_views(rest@).to_multiset()) =~= total);
            assert forall|k: Seq<Seq<char>>| #[trigger] run_of(item_views(out@), k) + run_of(item_views(rest@), k) == run_of(start, k) by {
                lemma_run_after_insert(ov, p as int, xv, k);
                assert(rv =~= seq![xv] + rv.remove(0));
                rv.remove(0).lemma_filter_prepend(xv, key_is(k));
                assert(run_of(ov, k) + run_of(rv, k) == run_of(start, k));
                if segments(xv.1) == k {
                    assert(run_of(ov, k).push(xv) + run_of(rv.remove(0), k) =~= run_of(ov, k) + (seq![xv] + run_of(rv.remove(0), k)));
                } else {
                    assert(run_of(ov, k) + run_of(rv.remove(0), k) =~= run_of(ov, k) + (Seq::<ItemView>::empty() + run_of(rv.remove(0), k)));
                }
            }
        }
    }
    assert forall|k: Seq<Seq<char>>| #[trigger] run_of(item_views(out@), k) == run_of(start, k) by {
        assert(item_views(rest@) =~= Seq::<ItemView>::empty());
        assert(run_of(item_views(rest@), k) =~= Seq::<ItemView>::empty()) by {
            reveal(Seq::filter);
        }
        assert(run_of(item_views(out@), k) + run_of(item_views(rest@), k) =~= run_of(item_views(out@), k));
    }
    assert(item_views(rest@).to_multiset() =~= Multiset::empty());
    assert(item_views(out@).to_multiset() =~= total);
    out
}

} // verus!
