//! Lists of names without repetition, kept in order of first appearance.

use crate::bytes::{copy_bytes, find_name, views};
use vstd::prelude::*;

verus! {

/// `s` with `x` appended unless `s` already holds it.
pub open spec fn push_unique(s: Seq<Seq<u8>>, x: Seq<u8>) -> Seq<Seq<u8>> {
    if s.contains(x) {
        s
    } else {
        s.push(x)
    }
}

/// `s` followed by the names of `xs` that `s` does not hold, each once, in
/// order of first appearance.
pub open spec fn merge_unique(s: Seq<Seq<u8>>, xs: Seq<Seq<u8>>) -> Seq<Seq<u8>>
    decreases xs.len(),
{
    if xs.len() == 0 {
        s
    } else {
        push_unique(merge_unique(s, xs.drop_last()), xs.last())
    }
}

/// Merging keeps `s` as a prefix, adds exactly the names of `xs`, and adds
/// no repetition.
pub proof fn lemma_merge_unique(s: Seq<Seq<u8>>, xs: Seq<Seq<u8>>)
    ensures
        merge_unique(s, xs).len() >= s.len(),
        merge_unique(s, xs).len() <= s.len() + xs.len(),
        merge_unique(s, xs).take(s.len() as int) == s,
        forall|x: Seq<u8>|
            merge_unique(s, xs).contains(x) <==> (s.contains(x) || xs.contains(x)),
        s.no_duplicates() ==> merge_unique(s, xs).no_duplicates(),
    decreases xs.len(),
{
    if xs.len() == 0 {
        assert(s.take(s.len() as int) =~= s);
    } else {
        let head = xs.drop_last();
        let m = merge_unique(s, head);
        let r = merge_unique(s, xs);
        lemma_merge_unique(s, head);
        assert(r.take(s.len() as int) =~= m.take(s.len() as int));
        assert forall|x: Seq<u8>| r.contains(x) <==> (s.contains(x) || xs.contains(x)) by {
            if r.contains(x) {
                let w = choose|w: int| 0 <= w < r.len() && r[w] == x;
                if w < m.len() {
                    assert(m[w] == x);
                    assert(m.contains(x));
                    if head.contains(x) {
                        let v = choose|v: int| 0 <= v < head.len() && head[v] == x;
                        assert(xs[v] == x);
                    }
                } else {
                    assert(xs[xs.len() - 1] == x);
                }
            }
            if s.contains(x) {
                assert(m.contains(x));
                let w = choose|w: int| 0 <= w < m.len() && m[w] == x;
                assert(r[w] == x);
            }
            if xs.contains(x) {
                let v = choose|v: int| 0 <= v < xs.len() && xs[v] == x;
                if v < head.len() {
                    assert(head[v] == x);
                    assert(m.contains(x));
                    let w = choose|w: int| 0 <= w < m.len() && m[w] == x;
                    assert(r[w] == x);
                } else {
                    if m.contains(x) {
                        let w = choose|w: int| 0 <= w < m.len() && m[w] == x;
                        assert(r[w] == x);
                    } else {
                        assert(r[m.len() as int] == x);
                    }
                }
            }
        }
        if s.no_duplicates() {
            assert(m.no_duplicates());
            if !m.contains(xs.last()) {
                assert forall|i: int, j: int| 0 <= i < r.len() && 0 <= j < r.len() && i != j implies r[i]
                    != r[j] by {
                    if i < m.len() && j < m.len() {
                    } else if i < m.len() {
                        assert(m[i] != xs.last());
                    } else {
                        assert(m[j] != xs.last());
                    }
                }
            }
        }
    }
}

/// Merging names that `s` already holds changes nothing.
pub proof fn lemma_merge_known(s: Seq<Seq<u8>>, xs: Seq<Seq<u8>>)
    requires
        forall|i: int| 0 <= i < xs.len() ==> s.contains(xs[i]),
    ensures
        merge_unique(s, xs) == s,
    decreases xs.len(),
{
    if xs.len() > 0 {
        let head = xs.drop_last();
        assert forall|i: int| 0 <= i < head.len() implies s.contains(head[i]) by {
            assert(head[i] == xs[i]);
        }
        lemma_merge_known(s, head);
        assert(s.contains(xs[xs.len() - 1]));
    }
}

/// Merging a list that holds a name unknown to `s` makes `s` longer.
pub proof fn lemma_merge_grows(s: Seq<Seq<u8>>, xs: Seq<Seq<u8>>, i: int)
    requires
        0 <= i < xs.len(),
        !s.contains(xs[i]),
    ensures
        merge_unique(s, xs).len() > s.len(),
    decreases xs.len(),
{
    let head = xs.drop_last();
    lemma_merge_unique(s, head);
    if i < head.len() {
        assert(head[i] == xs[i]);
        lemma_merge_grows(s, head, i);
    } else {
        let m = merge_unique(s, head);
        if m.contains(xs.last()) {
            assert(head.contains(xs.last()));
            let v = choose|v: int| 0 <= v < head.len() && head[v] == xs.last();
            assert(head[v] == xs[v]);
            lemma_merge_grows(s, head, v);
        }
    }
}

/// The names of `xs` that `s` does not hold, each once, in order of first
/// appearance: what merging `xs` into `s` would add.
pub open spec fn fresh(s: Seq<Seq<u8>>, xs: Seq<Seq<u8>>) -> Seq<Seq<u8>>
    decreases xs.len(),
{
    if xs.len() == 0 {
        Seq::empty()
    } else {
        let f = fresh(s, xs.drop_last());
        if s.contains(xs.last()) || f.contains(xs.last()) {
            f
        } else {
            f.push(xs.last())
        }
    }
}

/// Merging `xs` into `s` appends exactly the fresh names.
pub proof fn lemma_merge_appends_fresh(s: Seq<Seq<u8>>, xs: Seq<Seq<u8>>)
    ensures
        merge_unique(s, xs) == s + fresh(s, xs),
    decreases xs.len(),
{
    if xs.len() == 0 {
        assert(s + fresh(s, xs) =~= s);
    } else {
        let head = xs.drop_last();
        let f = fresh(s, head);
        let m = merge_unique(s, head);
        lemma_merge_appends_fresh(s, head);
        let x = xs.last();
        if m.contains(x) {
            let w = choose|w: int| 0 <= w < m.len() && m[w] == x;
            if w < s.len() {
                assert(s[w] == x);
            } else {
                assert(f[w - s.len()] == x);
            }
        } else {
            if s.contains(x) {
                let w = choose|w: int| 0 <= w < s.len() && s[w] == x;
                assert(m[w] == x);
            }
            if f.contains(x) {
                let w = choose|w: int| 0 <= w < f.len() && f[w] == x;
                assert(m[s.len() + w] == x);
            }
            assert(m.push(x) =~= s + f.push(x));
        }
    }
}

/// Nothing is fresh exactly when `s` holds every name of `xs`.
pub proof fn lemma_fresh_empty(s: Seq<Seq<u8>>, xs: Seq<Seq<u8>>)
    ensures
        fresh(s, xs).len() == 0 <==> (forall|i: int| 0 <= i < xs.len() ==> s.contains(xs[i])),
{
    lemma_merge_appends_fresh(s, xs);
    if forall|i: int| 0 <= i < xs.len() ==> s.contains(xs[i]) {
        lemma_merge_known(s, xs);
    } else {
        let i = choose|i: int| 0 <= i < xs.len() && !s.contains(xs[i]);
        lemma_merge_grows(s, xs, i);
    }
}

/// Collects the names of `names` that `existing` does not hold.
pub fn fresh_names(existing: &Vec<Vec<u8>>, names: &Vec<Vec<u8>>) -> (out: Vec<Vec<u8>>)
    ensures
        views(out@) == fresh(views(existing@), views(names@)),
        out.len() <= names.len(),
{
    let mut out: Vec<Vec<u8>> = Vec::new();
    let mut i: usize = 0;
    assert(views(names@).take(0) =~= Seq::<Seq<u8>>::empty());
    assert(views(out@) =~= Seq::<Seq<u8>>::empty());
    while i < names.len()
        invariant
            i <= names.len(),
            out.len() <= i,
            views(out@) == fresh(views(existing@), views(names@).take(i as int)),
        decreases names.len() - i,
    {
        let ghost before = views(out@);
        proof {
            let t = views(names@).take(i as int + 1);
            assert(t.drop_last() =~= views(names@).take(i as int));
            assert(t.last() == names@[i as int]@);
        }
        let known = find_name(existing, names[i].as_slice()) < existing.len();
        if !known && find_name(&out, names[i].as_slice()) == out.len() {
            let c = copy_bytes(names[i].as_slice());
            out.push(c);
            assert(views(out@) =~= before.push(names@[i as int]@));
        }
        i = i + 1;
    }
    assert(views(names@).take(i as int) =~= views(names@));
    out
}

/// Appends to `into` each name of `names` that it does not hold yet.
pub fn merge_names(into: &mut Vec<Vec<u8>>, names: &Vec<Vec<u8>>)
    ensures
        views(final(into)@) == merge_unique(views(old(into)@), views(names@)),
{
    let mut i: usize = 0;
    assert(views(names@).take(0) =~= Seq::<Seq<u8>>::empty());
    while i < names.len()
        invariant
            i <= names.len(),
            views(into@) == merge_unique(views(old(into)@), views(names@).take(i as int)),
        decreases names.len() - i,
    {
        let ghost before = views(into@);
        let k = find_name(into, names[i].as_slice());
        if k == into.len() {
            let c = copy_bytes(names[i].as_slice());
            into.push(c);
            assert(views(into@) =~= before.push(names@[i as int]@));
        }
        proof {
            let t = views(names@).take(i as int + 1);
            assert(t.drop_last() =~= views(names@).take(i as int));
            assert(t.last() == names@[i as int]@);
        }
        i = i + 1;
    }
    assert(views(names@).take(i as int) =~= views(names@));
}

} // verus!
