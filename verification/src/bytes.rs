//! Byte strings: comparison, copying, searching and splitting.
//!
//! Names (tenants, namespaces, tables, columns) and payloads are byte
//! strings; their model is `Seq<u8>`.

use vstd::prelude::*;

verus! {

/// The byte strings held by `v`, in order.
pub open spec fn views(v: Seq<Vec<u8>>) -> Seq<Seq<u8>> {
    Seq::new(v.len(), |i: int| v[i]@)
}

/// Index of the first `b` in `s`, or `s.len()` where `s` holds none.
pub open spec fn first_index(s: Seq<u8>, b: u8) -> int
    decreases s.len(),
{
    if s.len() == 0 || s[0] == b {
        0
    } else {
        1 + first_index(s.skip(1), b)
    }
}

/// The pieces of `s` between occurrences of `sep`. There is always at
/// least one piece; `n` separators give `n + 1` pieces, empty ones included.
pub open spec fn split(s: Seq<u8>, sep: u8) -> Seq<Seq<u8>>
    decreases s.len(),
{
    let i = first_index(s, sep);
    if 0 <= i < s.len() {
        seq![s.take(i)] + split(s.skip(i + 1), sep)
    } else {
        seq![s]
    }
}

/// `first_index` is in range, nothing before it is `b`, and it points at a
/// `b` unless it is the length.
pub proof fn lemma_first_index(s: Seq<u8>, b: u8)
    ensures
        0 <= first_index(s, b) <= s.len(),
        forall|j: int| 0 <= j < first_index(s, b) ==> s[j] != b,
        first_index(s, b) < s.len() ==> s[first_index(s, b)] == b,
    decreases s.len(),
{
    if s.len() == 0 || s[0] == b {
    } else {
        let t = s.skip(1);
        lemma_first_index(t, b);
        assert forall|j: int| 0 <= j < first_index(s, b) implies s[j] != b by {
            if j > 0 {
                assert(t[j - 1] == s[j]);
            }
        }
    }
}

/// An index with nothing equal to `b` before it, which is the length or
/// points at a `b`, is `first_index`.
pub proof fn lemma_first_index_unique(s: Seq<u8>, b: u8, k: int)
    requires
        0 <= k <= s.len(),
        forall|j: int| 0 <= j < k ==> s[j] != b,
        k < s.len() ==> s[k] == b,
    ensures
        first_index(s, b) == k,
{
    lemma_first_index(s, b);
    let f = first_index(s, b);
    if f < k {
        assert(s[f] == b);
    } else if k < f {
        assert(s[k] == b);
    }
}

/// Every piece of a split is free of the separator, and there is at least
/// one piece.
pub proof fn lemma_split_pieces(s: Seq<u8>, sep: u8)
    ensures
        split(s, sep).len() >= 1,
        forall|p: int, j: int|
            0 <= p < split(s, sep).len() && 0 <= j < split(s, sep)[p].len() ==> split(
                s,
                sep,
            )[p][j] != sep,
        split(s, sep)[0] == s.take(first_index(s, sep)),
    decreases s.len(),
{
    lemma_first_index(s, sep);
    let i = first_index(s, sep);
    if 0 <= i < s.len() {
        let rest = split(s.skip(i + 1), sep);
        lemma_split_pieces(s.skip(i + 1), sep);
        let all = split(s, sep);
        assert forall|p: int, j: int| 0 <= p < all.len() && 0 <= j < all[p].len() implies all[p][j]
            != sep by {
            if p == 0 {
                assert(all[0] == s.take(i));
            } else {
                assert(all[p] == rest[p - 1]);
            }
        }
    } else {
        assert(s.take(i) =~= s);
    }
}

/// Whether `s` holds no `b`.
pub open spec fn free_of(s: Seq<u8>, b: u8) -> bool {
    forall|j: int| 0 <= j < s.len() ==> s[j] != b
}

/// A piece of a byte string that is free of some byte is free of it too.
pub proof fn lemma_split_keeps_free(s: Seq<u8>, sep: u8, b: u8)
    requires
        free_of(s, b),
    ensures
        forall|p: int| 0 <= p < split(s, sep).len() ==> free_of(#[trigger] split(s, sep)[p], b),
    decreases s.len(),
{
    lemma_first_index(s, sep);
    let i = first_index(s, sep);
    let all = split(s, sep);
    if 0 <= i < s.len() {
        let tail = s.skip(i + 1);
        assert forall|j: int| 0 <= j < tail.len() implies tail[j] != b by {
            assert(tail[j] == s[j + i + 1]);
        }
        lemma_split_keeps_free(tail, sep, b);
        assert forall|p: int| 0 <= p < all.len() implies free_of(#[trigger] all[p], b) by {
            if p == 0 {
                assert forall|j: int| 0 <= j < all[0].len() implies all[0][j] != b by {
                    assert(all[0][j] == s[j]);
                }
            } else {
                assert(all[p] == split(tail, sep)[p - 1]);
            }
        }
    }
}

/// Every piece of a split is free of the separator.
pub proof fn lemma_split_free_of_separator(s: Seq<u8>, sep: u8)
    ensures
        forall|p: int| 0 <= p < split(s, sep).len() ==> free_of(#[trigger] split(s, sep)[p], sep),
{
    lemma_split_pieces(s, sep);
}

/// The pieces put together again, with `sep` between neighbours.
pub open spec fn join(pieces: Seq<Seq<u8>>, sep: u8) -> Seq<u8>
    decreases pieces.len(),
{
    if pieces.len() == 0 {
        Seq::empty()
    } else if pieces.len() == 1 {
        pieces[0]
    } else {
        pieces[0] + seq![sep] + join(pieces.skip(1), sep)
    }
}

/// Splitting loses nothing: the pieces joined again are the byte string
/// that was split.
pub proof fn lemma_join_split(s: Seq<u8>, sep: u8)
    ensures
        join(split(s, sep), sep) == s,
    decreases s.len(),
{
    lemma_first_index(s, sep);
    let i = first_index(s, sep);
    if 0 <= i < s.len() {
        let rest = split(s.skip(i + 1), sep);
        let all = split(s, sep);
        lemma_split_pieces(s.skip(i + 1), sep);
        lemma_join_split(s.skip(i + 1), sep);
        assert(all.skip(1) =~= rest);
        assert(all[0] == s.take(i));
        assert(s.take(i) + seq![sep] + s.skip(i + 1) =~= s);
    }
}

/// Splitting is the only way to cut a byte string into pieces free of the
/// separator: such pieces, joined and split again, come back as they were.
pub proof fn lemma_split_join(pieces: Seq<Seq<u8>>, sep: u8)
    requires
        pieces.len() >= 1,
        forall|p: int, j: int|
            0 <= p < pieces.len() && 0 <= j < pieces[p].len() ==> pieces[p][j] != sep,
    ensures
        split(join(pieces, sep), sep) == pieces,
    decreases pieces.len(),
{
    let s = join(pieces, sep);
    if pieces.len() == 1 {
        lemma_first_index_unique(s, sep, s.len() as int);
        assert(split(s, sep) =~= pieces);
    } else {
        let head = pieces[0];
        let rest = pieces.skip(1);
        assert forall|p: int, j: int|
            0 <= p < rest.len() && 0 <= j < rest[p].len() implies rest[p][j] != sep by {
            assert(rest[p] == pieces[p + 1]);
        }
        lemma_split_join(rest, sep);
        assert forall|j: int| 0 <= j < head.len() implies s[j] != sep by {
            assert(s[j] == head[j]);
        }
        assert(s[head.len() as int] == sep);
        lemma_first_index_unique(s, sep, head.len() as int);
        assert(s.take(head.len() as int) =~= head);
        assert(s.skip(head.len() as int + 1) =~= join(rest, sep));
        assert(split(s, sep) =~= pieces);
    }
}

/// Whether two byte strings are equal.
pub fn bytes_eq(a: &[u8], b: &[u8]) -> (r: bool)
    ensures
        r == (a@ == b@),
{
    if a.len() != b.len() {
        return false;
    }
    let mut i: usize = 0;
    while i < a.len()
        invariant
            a.len() == b.len(),
            i <= a.len(),
            forall|j: int| 0 <= j < i ==> a@[j] == b@[j],
        decreases a.len() - i,
    {
        if a[i] != b[i] {
            return false;
        }
        i = i + 1;
    }
    assert(a@ =~= b@);
    true
}

/// A fresh copy of `a`.
pub fn copy_bytes(a: &[u8]) -> (out: Vec<u8>)
    ensures
        out@ == a@,
{
    let mut out: Vec<u8> = Vec::new();
    let mut i: usize = 0;
    while i < a.len()
        invariant
            i <= a.len(),
            out@ == a@.take(i as int),
        decreases a.len() - i,
    {
        out.push(a[i]);
        assert(a@.take(i as int + 1) =~= a@.take(i as int).push(a@[i as int]));
        i = i + 1;
    }
    assert(a@.take(i as int) =~= a@);
    out
}

/// Position of the first byte string of `list` equal to `name`, or the
/// length of `list` where there is none.
pub open spec fn position_of(list: Seq<Seq<u8>>, name: Seq<u8>) -> int
    decreases list.len(),
{
    if list.len() == 0 || list[0] == name {
        0
    } else {
        1 + position_of(list.skip(1), name)
    }
}

/// `position_of` is in range, points at `name` unless it is the length, and
/// nothing before it equals `name`; it is the length exactly when `list`
/// does not contain `name`.
pub proof fn lemma_position_of(list: Seq<Seq<u8>>, name: Seq<u8>)
    ensures
        0 <= position_of(list, name) <= list.len(),
        forall|j: int| 0 <= j < position_of(list, name) ==> list[j] != name,
        position_of(list, name) < list.len() ==> list[position_of(list, name)] == name,
        position_of(list, name) < list.len() <==> list.contains(name),
    decreases list.len(),
{
    if list.len() == 0 || list[0] == name {
        if list.len() > 0 {
            assert(list[0] == name);
        }
    } else {
        let t = list.skip(1);
        lemma_position_of(t, name);
        assert forall|j: int| 0 <= j < position_of(list, name) implies list[j] != name by {
            if j > 0 {
                assert(t[j - 1] == list[j]);
            }
        }
        if position_of(list, name) < list.len() {
            assert(t[position_of(t, name)] == list[position_of(list, name)]);
        }
        if list.contains(name) {
            let w = choose|w: int| 0 <= w < list.len() && list[w] == name;
            assert(t[w - 1] == name);
        }
    }
}

/// An index with nothing equal to `name` before it, which is the length or
/// points at `name`, is `position_of`.
pub proof fn lemma_position_of_unique(list: Seq<Seq<u8>>, name: Seq<u8>, k: int)
    requires
        0 <= k <= list.len(),
        forall|j: int| 0 <= j < k ==> list[j] != name,
        k < list.len() ==> list[k] == name,
    ensures
        position_of(list, name) == k,
{
    lemma_position_of(list, name);
    let f = position_of(list, name);
    if f < k {
        assert(list[f] == name);
    } else if k < f {
        assert(list[k] == name);
    }
}

/// Finds `name` in `list`: the position of its first occurrence, or the
/// length of `list`.
pub fn find_name(list: &Vec<Vec<u8>>, name: &[u8]) -> (k: usize)
    ensures
        k == position_of(views(list@), name@),
        k <= list.len(),
        k < list.len() <==> views(list@).contains(name@),
{
    let mut i: usize = 0;
    while i < list.len()
        invariant
            i <= list.len(),
            forall|j: int| 0 <= j < i ==> views(list@)[j] != name@,
        decreases list.len() - i,
    {
        if bytes_eq(list[i].as_slice(), name) {
            proof {
                lemma_position_of_unique(views(list@), name@, i as int);
                lemma_position_of(views(list@), name@);
            }
            return i;
        }
        i = i + 1;
    }
    proof {
        lemma_position_of_unique(views(list@), name@, i as int);
        lemma_position_of(views(list@), name@);
    }
    i
}

/// Splits `s` at every `sep`.
pub fn split_bytes(s: &[u8], sep: u8) -> (parts: Vec<Vec<u8>>)
    ensures
        views(parts@) == split(s@, sep),
        parts.len() >= 1,
{
    let mut parts: Vec<Vec<u8>> = Vec::new();
    let mut cur: Vec<u8> = Vec::new();
    let mut j: usize = 0;
    let ghost mut start: int = 0;
    proof {
        assert(s@.skip(0) =~= s@);
        assert(views(parts@) + split(s@, sep) =~= split(s@, sep));
        assert(cur@ =~= s@.subrange(0, 0));
    }
    while j < s.len()
        invariant
            0 <= start <= j <= s.len(),
            cur@ == s@.subrange(start, j as int),
            forall|k: int| start <= k < j ==> s@[k] != sep,
            split(s@, sep) == views(parts@) + split(s@.skip(start), sep),
        decreases s.len() - j,
    {
        if s[j] == sep {
            proof {
                let rest = s@.skip(start);
                lemma_first_index_unique(rest, sep, j - start);
                assert(rest.take(j - start) =~= cur@);
                assert(rest.skip(j - start + 1) =~= s@.skip(j + 1));
                assert(views(parts@.push(cur)) =~= views(parts@).push(cur@));
                assert(views(parts@).push(cur@) + split(s@.skip(j + 1), sep) =~= views(parts@) + (
                seq![cur@] + split(s@.skip(j + 1), sep)));
            }
            parts.push(cur);
            cur = Vec::new();
            proof {
                start = j + 1;
            }
            assert(cur@ =~= s@.subrange(start, j as int + 1));
        } else {
            cur.push(s[j]);
            assert(cur@ =~= s@.subrange(start, j as int + 1));
        }
        j = j + 1;
    }
    proof {
        let rest = s@.skip(start);
        lemma_first_index_unique(rest, sep, s@.len() - start);
        assert(rest =~= cur@);
        assert(views(parts@.push(cur)) =~= views(parts@).push(cur@));
        assert(views(parts@).push(cur@) =~= views(parts@) + seq![cur@]);
    }
    parts.push(cur);
    parts
}

} // verus!
