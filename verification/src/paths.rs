//! The order of group paths: a path sorts by the JSON texts of its keys,
//! text by text, the way an ordered set of those texts keeps them. The open
//! groups are held in this order, so which groups are open decides the list
//! alone, whatever order they were opened in.

use vstd::prelude::*;

use crate::grouping::{copy_keys, keys_eq, keys_view, paths_view, Key, KeyV};
use crate::json::{json_text, json_text_of, key_json, key_value};
use crate::text::{text_less, text_lt, lemma_text_lt_irreflexive, lemma_text_lt_total, lemma_text_lt_transitive, views};

verus! {

/// The JSON text of a key, as `serde_json` writes it.
pub open spec fn key_text(k: KeyV) -> Seq<char> {
    json_text_of(key_value(k))
}

/// The JSON texts of a path's keys.
pub open spec fn path_text(p: Seq<KeyV>) -> Seq<Seq<char>> {
    p.map_values(|k: KeyV| key_text(k))
}

/// `a` sorts before `b`: at the first text where they differ the text of
/// `a` sorts first, or `a` is a proper prefix of `b`.
pub open spec fn path_lt(a: Seq<Seq<char>>, b: Seq<Seq<char>>) -> bool
    decreases a.len(),
{
    if a.len() == 0 {
        b.len() > 0
    } else if b.len() == 0 {
        false
    } else if a[0] == b[0] {
        path_lt(a.drop_first(), b.drop_first())
    } else {
        text_lt(a[0], b[0])
    }
}

/// No path sorts before itself.
pub proof fn lemma_path_lt_irreflexive(a: Seq<Seq<char>>)
    ensures
        !path_lt(a, a),
    decreases a.len(),
{
    if a.len() > 0 {
        lemma_path_lt_irreflexive(a.drop_first());
    }
}

/// Of two different paths exactly one sorts first.
pub proof fn lemma_path_lt_total(a: Seq<Seq<char>>, b: Seq<Seq<char>>)
    ensures
        a != b ==> (path_lt(a, b) != path_lt(b, a)),
        a == b ==> !path_lt(a, b),
    decreases a.len(),
{
    if a == b {
        lemma_path_lt_irreflexive(a);
    } else if a.len() > 0 && b.len() > 0 {
        if a[0] == b[0] {
            if a.drop_first() == b.drop_first() {
                assert(a =~= seq![a[0]] + a.drop_first());
                assert(b =~= seq![b[0]] + b.drop_first());
            }
            lemma_path_lt_total(a.drop_first(), b.drop_first());
        } else {
            lemma_text_lt_total(a[0], b[0]);
        }
    } else if a.len() == 0 && b.len() == 0 {
        assert(a =~= b);
    }
}

/// The order of paths is transitive.
pub proof fn lemma_path_lt_transitive(a: Seq<Seq<char>>, b: Seq<Seq<char>>, c: Seq<Seq<char>>)
    requires
        path_lt(a, b),
        path_lt(b, c),
    ensures
        path_lt(a, c),
    decreases a.len(),
{
    if a.len() > 0 && b.len() > 0 && c.len() > 0 {
        if a[0] == b[0] && b[0] == c[0] {
            lemma_path_lt_transitive(a.drop_first(), b.drop_first(), c.drop_first());
        } else if a[0] == b[0] {
        } else if b[0] == c[0] {
        } else {
            lemma_text_lt_transitive(a[0], b[0], c[0]);
            if a[0] == c[0] {
                lemma_text_lt_irreflexive(a[0]);
            }
        }
    }
}

/// `a` sorts no later than `b`.
pub open spec fn path_le(a: Seq<Seq<char>>, b: Seq<Seq<char>>) -> bool {
    !path_lt(b, a)
}

/// "No later than" is transitive.
pub proof fn lemma_path_le_transitive(a: Seq<Seq<char>>, b: Seq<Seq<char>>, c: Seq<Seq<char>>)
    requires
        path_le(a, b),
        path_le(b, c),
    ensures
        path_le(a, c),
{
    lemma_path_lt_total(a, b);
    lemma_path_lt_total(b, c);
    lemma_path_lt_total(a, c);
    if path_lt(c, a) {
        if a == b {
        } else if b == c {
        } else {
            lemma_path_lt_transitive(a, b, c);
        }
    }
}

/// The paths sort by their texts, each no later than the next.
pub open spec fn sorted_paths(e: Seq<Seq<KeyV>>) -> bool {
    forall|i: int, j: int|
        0 <= i < j < e.len() ==> path_le(path_text(#[trigger] e[i]), path_text(#[trigger] e[j]))
}

/// No path occurs twice.
pub open spec fn distinct_paths(e: Seq<Seq<KeyV>>) -> bool {
    forall|i: int, j: int| 0 <= i < j < e.len() ==> #[trigger] e[i] != #[trigger] e[j]
}

/// Where a path with texts `t` goes in sorted paths: after every path that
/// sorts no later than it.
pub open spec fn upper(e: Seq<Seq<KeyV>>, t: Seq<Seq<char>>) -> nat
    decreases e.len(),
{
    if e.len() == 0 {
        0
    } else if path_le(path_text(e.last()), t) {
        e.len()
    } else {
        upper(e.drop_last(), t)
    }
}

/// In sorted paths, the paths before `upper` sort no later than `t` and
/// those from it on sort after `t`.
pub proof fn lemma_upper(e: Seq<Seq<KeyV>>, t: Seq<Seq<char>>)
    requires
        sorted_paths(e),
    ensures
        upper(e, t) <= e.len(),
        forall|i: int| 0 <= i < upper(e, t) ==> path_le(path_text(#[trigger] e[i]), t),
        forall|i: int| upper(e, t) <= i < e.len() ==> path_lt(t, path_text(#[trigger] e[i])),
    decreases e.len(),
{
    if e.len() > 0 {
        let last = path_text(e.last());
        if path_le(last, t) {
            assert forall|i: int| 0 <= i < e.len() implies path_le(path_text(#[trigger] e[i]), t) by {
                if i < e.len() - 1 {
                    assert(path_le(path_text(e[i]), path_text(e[e.len() - 1])));
                    lemma_path_le_transitive(path_text(e[i]), last, t);
                }
            }
        } else {
            let d = e.drop_last();
            assert(sorted_paths(d)) by {
                assert forall|i: int, j: int| 0 <= i < j < d.len() implies path_le(
                    path_text(#[trigger] d[i]),
                    path_text(#[trigger] d[j]),
                ) by {
                    assert(d[i] == e[i] && d[j] == e[j]);
                }
            }
            lemma_upper(d, t);
            assert forall|i: int| upper(e, t) <= i < e.len() implies path_lt(
                t,
                path_text(#[trigger] e[i]),
            ) by {
                if i < e.len() - 1 {
                    assert(d[i] == e[i]);
                }
            }
            assert forall|i: int| 0 <= i < upper(e, t) implies path_le(path_text(#[trigger] e[i]), t) by {
                assert(d[i] == e[i]);
            }
        }
    }
}

/// Inserting a path where `upper` puts it keeps the paths sorted.
pub proof fn lemma_insert_sorted(e: Seq<Seq<KeyV>>, p: Seq<KeyV>)
    requires
        sorted_paths(e),
    ensures
        sorted_paths(e.insert(upper(e, path_text(p)) as int, p)),
{
    let t = path_text(p);
    let u = upper(e, t) as int;
    lemma_upper(e, t);
    let f = e.insert(u, p);
    assert forall|i: int, j: int| 0 <= i < j < f.len() implies path_le(
        path_text(#[trigger] f[i]),
        path_text(#[trigger] f[j]),
    ) by {
        lemma_path_lt_irreflexive(t);
        if i < u && j < u {
            assert(f[i] == e[i] && f[j] == e[j]);
        } else if i < u && j == u {
            assert(f[i] == e[i]);
        } else if i < u {
            assert(f[i] == e[i] && f[j] == e[j - 1]);
            assert(path_le(path_text(e[i]), t));
            lemma_path_lt_total(t, path_text(e[j - 1]));
            lemma_path_le_transitive(path_text(e[i]), t, path_text(e[j - 1]));
        } else if i == u {
            assert(f[j] == e[j - 1]);
            lemma_path_lt_total(t, path_text(e[j - 1]));
        } else {
            assert(f[i] == e[i - 1] && f[j] == e[j - 1]);
        }
    }
}

/// Removing a path keeps the others sorted and distinct.
pub proof fn lemma_remove_sorted(e: Seq<Seq<KeyV>>, k: int)
    requires
        sorted_paths(e),
        distinct_paths(e),
        0 <= k < e.len(),
    ensures
        sorted_paths(e.remove(k)),
        distinct_paths(e.remove(k)),
{
    let f = e.remove(k);
    assert forall|i: int, j: int| 0 <= i < j < f.len() implies path_le(
        path_text(#[trigger] f[i]),
        path_text(#[trigger] f[j]),
    ) by {
        let a = if i < k { i } else { i + 1 };
        let b = if j < k { j } else { j + 1 };
        assert(f[i] == e[a] && f[j] == e[b]);
    }
    assert forall|i: int, j: int| 0 <= i < j < f.len() implies #[trigger] f[i] != #[trigger] f[j] by {
        let a = if i < k { i } else { i + 1 };
        let b = if j < k { j } else { j + 1 };
        assert(f[i] == e[a] && f[j] == e[b]);
    }
}

/// What toggling `path` makes of the open paths: an open path is taken out,
/// a closed one goes in where its texts sort.
pub open spec fn toggled(before: Seq<Seq<KeyV>>, after: Seq<Seq<KeyV>>, path: Seq<KeyV>) -> bool {
    if before.contains(path) {
        exists|k: int| 0 <= k < before.len() && before[k] == path && after == before.remove(k)
    } else {
        after == before.insert(upper(before, path_text(path)) as int, path)
    }
}

/// No other open path has the same texts as `path`.
pub open spec fn no_text_twin(e: Seq<Seq<KeyV>>, path: Seq<KeyV>) -> bool {
    forall|i: int| 0 <= i < e.len() && e[i] != path ==> path_text(#[trigger] e[i]) != path_text(path)
}

/// Toggling a group twice leaves the open paths as they were, order and
/// all: a closed group goes back out of the place it went into, and an open
/// one comes back to its place — unless another open path has the same key
/// texts, which could then sort on either side of it.
pub proof fn lemma_toggle_twice_restores(
    e0: Seq<Seq<KeyV>>,
    e1: Seq<Seq<KeyV>>,
    e2: Seq<Seq<KeyV>>,
    path: Seq<KeyV>,
)
    requires
        sorted_paths(e0),
        distinct_paths(e0),
        no_text_twin(e0, path),
        toggled(e0, e1, path),
        toggled(e1, e2, path),
    ensures
        e2 == e0,
{
    let t = path_text(path);
    if e0.contains(path) {
        let k = choose|k: int| 0 <= k < e0.len() && e0[k] == path && e1 == e0.remove(k);
        lemma_remove_sorted(e0, k);
        assert(!e1.contains(path)) by {
            if e1.contains(path) {
                let j = choose|j: int| 0 <= j < e1.len() && e1[j] == path;
                if j < k {
                    assert(e0[j] == path);
                } else {
                    assert(e0[j + 1] == path);
                }
            }
        }
        lemma_upper(e1, t);
        let u = upper(e1, t) as int;
        lemma_path_lt_irreflexive(t);
        assert forall|i: int| 0 <= i < k implies path_lt(path_text(#[trigger] e0[i]), t) by {
            assert(path_le(path_text(e0[i]), path_text(e0[k])));
            assert(e0[i] != path);
            lemma_path_lt_total(path_text(e0[i]), t);
        }
        assert forall|i: int| k < i < e0.len() implies path_lt(t, path_text(#[trigger] e0[i])) by {
            assert(path_le(path_text(e0[k]), path_text(e0[i])));
            assert(e0[i] != path);
            lemma_path_lt_total(path_text(e0[i]), t);
        }
        if u < k {
            assert(e1[u] == e0[u]);
            assert(path_lt(t, path_text(e1[u])));
            lemma_path_lt_total(path_text(e0[u]), t);
        } else if u > k {
            assert(e1[k] == e0[k + 1]);
            assert(path_le(path_text(e1[k]), t));
        }
        assert(u == k);
        assert(e2 =~= e0);
    } else {
        let u = upper(e0, t) as int;
        lemma_upper(e0, t);
        assert(e1[u] == path);
        assert(e1.contains(path));
        let k = choose|k: int| 0 <= k < e1.len() && e1[k] == path && e2 == e1.remove(k);
        if k < u {
            assert(e0[k] == path);
        } else if k > u {
            assert(e0[k - 1] == path);
        }
        assert(k == u);
        assert(e2 =~= e0);
    }
}

/// The JSON text of a key.
pub fn key_text_of(k: &Key) -> (s: String)
    ensures
        s@ == key_text(k@),
{
    json_text(&key_json(k))
}

/// The JSON texts of a path's keys.
pub fn path_text_of(p: &[Key]) -> (out: Vec<String>)
    ensures
        views(out@) == path_text(keys_view(p@)),
{
    let mut out: Vec<String> = Vec::new();
    let mut i: usize = 0;
    while i < p.len()
        invariant
            i <= p.len(),
            out@.len() == i,
            forall|j: int| 0 <= j < i ==> (#[trigger] out@[j])@ == key_text(p@[j]@),
        decreases p.len() - i,
    {
        out.push(key_text_of(&p[i]));
        i = i + 1;
    }
    proof {
        assert(views(out@) =~= path_text(keys_view(p@)));
    }
    out
}

/// Whether texts `a` sort before texts `b`.
pub fn texts_less(a: &[String], b: &[String]) -> (r: bool)
    ensures
        r == path_lt(views(a@), views(b@)),
{
    let ghost va = views(a@);
    let ghost vb = views(b@);
    let mut i: usize = 0;
    proof {
        assert(va.skip(0) =~= va);
        assert(vb.skip(0) =~= vb);
    }
    while i < a.len() && i < b.len()
        invariant
            va == views(a@),
            vb == views(b@),
            i <= a.len(),
            i <= b.len(),
            path_lt(va, vb) == path_lt(va.skip(i as int), vb.skip(i as int)),
        decreases a.len() - i,
    {
        let ghost sa = va.skip(i as int);
        let ghost sb = vb.skip(i as int);
        proof {
            assert(sa[0] == a@[i as int]@);
            assert(sb[0] == b@[i as int]@);
        }
        if a[i] != b[i] {
            return text_less(a[i].as_str(), b[i].as_str());
        }
        proof {
            assert(sa.drop_first() =~= va.skip(i + 1));
            assert(sb.drop_first() =~= vb.skip(i + 1));
        }
        i = i + 1;
    }
    proof {
        if i == a.len() {
            assert(va.skip(i as int).len() == 0);
        } else {
            assert(vb.skip(i as int).len() == 0);
        }
    }
    i == a.len() && i < b.len()
}

/// Puts `path`, which is not among `paths`, where its texts sort.
pub fn insert_path(paths: &mut Vec<Vec<Key>>, path: &[Key])
    requires
        sorted_paths(paths_view(old(paths)@)),
        distinct_paths(paths_view(old(paths)@)),
        !paths_view(old(paths)@).contains(keys_view(path@)),
    ensures
        paths_view(final(paths)@) == paths_view(old(paths)@).insert(
            upper(paths_view(old(paths)@), path_text(keys_view(path@))) as int,
            keys_view(path@),
        ),
        sorted_paths(paths_view(final(paths)@)),
        distinct_paths(paths_view(final(paths)@)),
{
    let ghost e = paths_view(paths@);
    let ghost t = path_text(keys_view(path@));
    let texts = path_text_of(path);
    proof {
        lemma_upper(e, t);
    }
    let mut u: usize = paths.len();
    let mut stop = false;
    while u > 0 && !stop
        invariant
            u <= paths@.len(),
            e == paths_view(paths@),
            t == views(texts@),
            forall|i: int| u <= i < e.len() ==> path_lt(t, path_text(#[trigger] e[i])),
            stop ==> u > 0 && path_le(path_text(e[u - 1]), t),
        decreases u + (if stop { 0int } else { 1int }),
    {
        let other = path_text_of(paths[u - 1].as_slice());
        proof {
            assert(e[u - 1] == keys_view(paths@[u - 1]@));
        }
        if texts_less(texts.as_slice(), other.as_slice()) {
            u = u - 1;
        } else {
            stop = true;
        }
    }
    proof {
        let up = upper(e, t) as int;
        lemma_path_lt_irreflexive(t);
        if up < u {
            assert(path_lt(t, path_text(e[u - 1])));
            lemma_path_lt_total(t, path_text(e[u - 1]));
        }
        if up > u {
            assert(path_le(path_text(e[u as int]), t));
            assert(path_lt(t, path_text(e[u as int])));
            lemma_path_lt_total(t, path_text(e[u as int]));
        }
    }
    assert(u == upper(e, t));
    let copy = copy_keys(path);
    paths.insert(u, copy);
    proof {
        assert(paths_view(paths@) =~= e.insert(u as int, keys_view(path@)));
        lemma_insert_sorted(e, keys_view(path@));
        let f = paths_view(paths@);
        assert forall|i: int, j: int| 0 <= i < j < f.len() implies #[trigger] f[i] != #[trigger] f[j] by {
            if i == u {
                assert(f[j] == e[j - 1]);
            } else if j == u {
                assert(f[i] == e[i]);
            } else {
                let a = if i < u { i } else { i - 1 };
                let b = if j < u { j } else { j - 1 };
                assert(f[i] == e[a] && f[j] == e[b]);
            }
        }
    }
}

} // verus!
