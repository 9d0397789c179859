//! What the reader did to the columns: width, order, visibility.
//!
//! The layout decides which query is sent — a hidden column is not selected,
//! a reordered one is selected in a different order — so the query, the
//! skeleton and the render all read the one list [`ColumnLayout::effective`]
//! answers. The `columns` attribute stays the source of truth about which
//! columns exist at all.
//!
//! Everything here can be done from the keyboard: a width changes by a step,
//! a column moves one place among the visible ones, and neither can push a
//! column out of reach — a width is clamped, and a move off an end is refused.

use vstd::prelude::*;

use crate::text::{
    contains_text, copy_texts, lemma_text_lt_irreflexive, lemma_text_lt_total,
    lemma_text_lt_transitive, same_text, text_less, text_lt, views,
};

verus! {

/// The narrowest a key press will take a column, in pixels.
pub const MIN_COLUMN_WIDTH: u32 = 48;

/// The widest a key press will take a column.
pub const MAX_COLUMN_WIDTH: u32 = 800;

/// How much one resize key press changes the width.
pub const WIDTH_STEP: u32 = 24;

/// A width brought into the usable range.
pub open spec fn clamp_width(w: int) -> u32 {
    if w < MIN_COLUMN_WIDTH {
        MIN_COLUMN_WIDTH
    } else if w > MAX_COLUMN_WIDTH {
        MAX_COLUMN_WIDTH
    } else {
        w as u32
    }
}

/// A `u32` read as the `i32` with the same bits.
pub open spec fn as_i32(x: u32) -> int {
    if x <= i32::MAX {
        x as int
    } else {
        x - 0x1_0000_0000
    }
}

/// Sorted, and nothing twice.
pub open spec fn ascending(s: Seq<Seq<char>>) -> bool {
    forall|i: int, j: int| 0 <= i < j < s.len() ==> text_lt(#[trigger] s[i], #[trigger] s[j])
}

/// The names and widths of a list of widths.
pub open spec fn pairs_view(ps: Seq<(String, u32)>) -> Seq<(Seq<char>, u32)> {
    ps.map_values(|p: (String, u32)| (p.0@, p.1))
}

/// The names of a list of widths.
pub open spec fn pair_names(ps: Seq<(Seq<char>, u32)>) -> Seq<Seq<char>> {
    ps.map_values(|p: (Seq<char>, u32)| p.0)
}

/// A list of widths, as a map from name to width; a later pair wins.
pub open spec fn pairs_map(ps: Seq<(Seq<char>, u32)>) -> Map<Seq<char>, u32>
    decreases ps.len(),
{
    if ps.len() == 0 {
        Map::empty()
    } else {
        pairs_map(ps.drop_last()).insert(ps.last().0, ps.last().1)
    }
}

/// In an ascending list a name stands at one place only.
pub proof fn lemma_ascending_distinct(s: Seq<Seq<char>>, i: int, j: int)
    requires
        ascending(s),
        0 <= i < s.len(),
        0 <= j < s.len(),
        s[i] == s[j],
    ensures
        i == j,
{
    if i < j {
        lemma_text_lt_irreflexive(s[i]);
        assert(text_lt(s[i], s[j]));
    } else if j < i {
        lemma_text_lt_irreflexive(s[i]);
        assert(text_lt(s[j], s[i]));
    }
}

/// A set of names has one ascending list: two ascending lists with the same
/// members are the same list. So `hidden` answers the same for the same
/// hidden columns, whatever order they were hidden in.
pub proof fn lemma_ascending_unique(a: Seq<Seq<char>>, b: Seq<Seq<char>>)
    requires
        ascending(a),
        ascending(b),
        a.to_set() == b.to_set(),
    ensures
        a == b,
    decreases a.len(),
{
    if a.len() == 0 {
        if b.len() > 0 {
            assert(b.to_set().contains(b[0]));
        }
        assert(b.len() == 0);
        assert(a =~= b);
    } else {
        assert(a.to_set().contains(a[0]));
        assert(b.len() > 0) by {
            if b.len() == 0 {
                assert(!b.to_set().contains(a[0]));
            }
        }
        assert(b.to_set().contains(b[0]));
        let j = choose|j: int| 0 <= j < b.len() && b[j] == a[0];
        let k = choose|k: int| 0 <= k < a.len() && a[k] == b[0];
        if j > 0 {
            assert(text_lt(b[0], b[j]));
            if k > 0 {
                assert(text_lt(a[0], a[k]));
                lemma_text_lt_total(a[0], a[k]);
                lemma_text_lt_irreflexive(a[0]);
            } else {
                lemma_text_lt_irreflexive(a[0]);
            }
        }
        assert(a[0] == b[0]);
        let a1 = a.drop_first();
        let b1 = b.drop_first();
        assert forall|x: Seq<char>| a1.to_set().contains(x) implies b1.to_set().contains(x) by {
            let i = choose|i: int| 0 <= i < a1.len() && a1[i] == x;
            assert(a[i + 1] == x);
            assert(b.to_set().contains(x));
            let m = choose|m: int| 0 <= m < b.len() && b[m] == x;
            if m == 0 {
                lemma_ascending_distinct(a, 0, i + 1);
            }
            assert(b1[m - 1] == x);
        }
        assert forall|x: Seq<char>| b1.to_set().contains(x) implies a1.to_set().contains(x) by {
            let i = choose|i: int| 0 <= i < b1.len() && b1[i] == x;
            assert(b[i + 1] == x);
            assert(a.to_set().contains(x));
            let m = choose|m: int| 0 <= m < a.len() && a[m] == x;
            if m == 0 {
                lemma_ascending_distinct(b, 0, i + 1);
            }
            assert(a1[m - 1] == x);
        }
        assert(a1.to_set() =~= b1.to_set());
        lemma_ascending_unique(a1, b1);
        assert(a =~= seq![a[0]] + a1);
        assert(b =~= seq![b[0]] + b1);
    }
}

/// The names a list of widths has a width for.
pub proof fn lemma_pairs_map_dom(ps: Seq<(Seq<char>, u32)>, k: Seq<char>)
    ensures
        pairs_map(ps).dom().contains(k) <==> exists|i: int| 0 <= i < ps.len() && ps[i].0 == k,
    decreases ps.len(),
{
    if ps.len() > 0 {
        lemma_pairs_map_dom(ps.drop_last(), k);
        if exists|i: int| 0 <= i < ps.drop_last().len() && ps.drop_last()[i].0 == k {
            let i = choose|i: int| 0 <= i < ps.drop_last().len() && ps.drop_last()[i].0 == k;
            assert(ps[i].0 == k);
        }
        if exists|i: int| 0 <= i < ps.len() && ps[i].0 == k {
            let i = choose|i: int| 0 <= i < ps.len() && ps[i].0 == k;
            if i < ps.len() - 1 {
                assert(ps.drop_last()[i].0 == k);
            }
        }
    }
}

/// The width a name has in a list of widths with distinct names.
pub proof fn lemma_pairs_map_at(ps: Seq<(Seq<char>, u32)>, i: int)
    requires
        ascending(pair_names(ps)),
        0 <= i < ps.len(),
    ensures
        pairs_map(ps).dom().contains(ps[i].0),
        pairs_map(ps)[ps[i].0] == ps[i].1,
    decreases ps.len(),
{
    if i < ps.len() - 1 {
        let d = ps.drop_last();
        assert(pair_names(d) =~= pair_names(ps).drop_last());
        assert(ascending(pair_names(d)));
        assert(d[i] == ps[i]);
        lemma_pairs_map_at(d, i);
        assert(pair_names(ps)[i] == ps[i].0);
        assert(pair_names(ps)[ps.len() - 1] == ps.last().0);
        if ps.last().0 == ps[i].0 {
            lemma_ascending_distinct(pair_names(ps), i, ps.len() - 1);
        }
    }
}

/// Two lists of widths with distinct names that agree on every pair but the
/// one of `k`, which the second holds as `v`, are the first map with `k` set
/// to `v`.
pub proof fn lemma_pairs_map_set(
    old: Seq<(Seq<char>, u32)>,
    new: Seq<(Seq<char>, u32)>,
    k: Seq<char>,
    v: u32,
)
    requires
        ascending(pair_names(old)),
        ascending(pair_names(new)),
        exists|i: int| 0 <= i < new.len() && new[i] == (k, v),
        forall|i: int| 0 <= i < new.len() && new[i].0 != k ==> old.contains(#[trigger] new[i]),
        forall|j: int| 0 <= j < old.len() && old[j].0 != k ==> new.contains(#[trigger] old[j]),
    ensures
        pairs_map(new) == pairs_map(old).insert(k, v),
{
    let m = pairs_map(old).insert(k, v);
    assert forall|key: Seq<char>| #[trigger] pairs_map(new).dom().contains(key) == m.dom().contains(key) by {
        lemma_pairs_map_dom(new, key);
        lemma_pairs_map_dom(old, key);
        if pairs_map(new).dom().contains(key) && key != k {
            let i = choose|i: int| 0 <= i < new.len() && new[i].0 == key;
            assert(old.contains(new[i]));
            let j = choose|j: int| 0 <= j < old.len() && old[j] == new[i];
            assert(old[j].0 == key);
        }
        if m.dom().contains(key) {
            if key == k {
                let i = choose|i: int| 0 <= i < new.len() && new[i] == (k, v);
                assert(new[i].0 == key);
            } else {
                let j = choose|j: int| 0 <= j < old.len() && old[j].0 == key;
                assert(new.contains(old[j]));
                let i = choose|i: int| 0 <= i < new.len() && new[i] == old[j];
                assert(new[i].0 == key);
            }
        }
    }
    assert forall|key: Seq<char>| #[trigger] pairs_map(new).dom().contains(key) implies pairs_map(new)[key]
        == m[key] by {
        lemma_pairs_map_dom(new, key);
        let i = choose|i: int| 0 <= i < new.len() && new[i].0 == key;
        lemma_pairs_map_at(new, i);
        if key == k {
            let i2 = choose|i2: int| 0 <= i2 < new.len() && new[i2] == (k, v);
            assert(pair_names(new)[i] == pair_names(new)[i2]);
            lemma_ascending_distinct(pair_names(new), i, i2);
        } else {
            assert(old.contains(new[i]));
            let j = choose|j: int| 0 <= j < old.len() && old[j] == new[i];
            lemma_pairs_map_at(old, j);
        }
    }
    assert(pairs_map(new) =~= m);
}

/// Whether a name is one of `declared`.
pub open spec fn declared_in(declared: Seq<Seq<char>>) -> spec_fn(Seq<char>) -> bool {
    |n: Seq<char>| declared.contains(n)
}

/// Whether a name is not one of `hidden`.
pub open spec fn shown_by(hidden: Set<Seq<char>>) -> spec_fn(Seq<char>) -> bool {
    |n: Seq<char>| !hidden.contains(n)
}

/// The names of the reader's order that the attribute declares, in the
/// reader's order.
pub open spec fn kept_order(order: Seq<Seq<char>>, declared: Seq<Seq<char>>) -> Seq<Seq<char>> {
    order.filter(declared_in(declared))
}

/// `acc`, then each name of `declared` it does not hold yet, in the
/// attribute's order.
pub open spec fn with_missing(acc: Seq<Seq<char>>, declared: Seq<Seq<char>>) -> Seq<Seq<char>>
    decreases declared.len(),
{
    if declared.len() == 0 {
        acc
    } else {
        let w = with_missing(acc, declared.drop_last());
        if w.contains(declared.last()) {
            w
        } else {
            w.push(declared.last())
        }
    }
}

/// The columns to select and render: the reader's order first, then the
/// attribute's other columns in its order, the hidden ones left out.
pub open spec fn effective_of(
    order: Seq<Seq<char>>,
    hidden: Set<Seq<char>>,
    declared: Seq<Seq<char>>,
) -> Seq<Seq<char>> {
    with_missing(kept_order(order, declared), declared).filter(shown_by(hidden))
}

/// Where `x` first stands in `s`, or `-1`.
pub open spec fn first_index(s: Seq<Seq<char>>, x: Seq<char>) -> int
    decreases s.len(),
{
    if s.len() == 0 {
        -1
    } else if s[0] == x {
        0
    } else {
        let r = first_index(s.drop_first(), x);
        if r < 0 {
            -1
        } else {
            r + 1
        }
    }
}

/// `s` with the names at `i` and `j` exchanged.
pub open spec fn swapped(s: Seq<Seq<char>>, i: int, j: int) -> Seq<Seq<char>> {
    s.update(i, s[j]).update(j, s[i])
}

/// Nothing twice.
pub open spec fn distinct(s: Seq<Seq<char>>) -> bool {
    forall|i: int, j: int| 0 <= i < j < s.len() ==> s[i] != s[j]
}

pub proof fn lemma_first_index(s: Seq<Seq<char>>, x: Seq<char>, i: int)
    requires
        0 <= i <= s.len(),
        forall|j: int| 0 <= j < i ==> s[j] != x,
    ensures
        i < s.len() && s[i] == x ==> first_index(s, x) == i,
        i == s.len() ==> first_index(s, x) == -1,
    decreases i,
{
    if s.len() > 0 && i > 0 {
        assert forall|j: int| 0 <= j < i - 1 implies s.drop_first()[j] != x by {
            assert(s.drop_first()[j] == s[j + 1]);
        }
        lemma_first_index(s.drop_first(), x, i - 1);
        if i < s.len() {
            assert(s.drop_first()[i - 1] == s[i]);
        }
    }
}

/// What `with_missing` holds: `acc` first, then names of `declared` that
/// `acc` lacks, each once.
pub proof fn lemma_with_missing(acc: Seq<Seq<char>>, declared: Seq<Seq<char>>)
    ensures
        with_missing(acc, declared).len() >= acc.len(),
        with_missing(acc, declared).subrange(0, acc.len() as int) == acc,
        forall|i: int|
            acc.len() <= i < with_missing(acc, declared).len() ==> declared.contains(
                #[trigger] with_missing(acc, declared)[i],
            ) && !acc.contains(with_missing(acc, declared)[i]),
        forall|x: Seq<char>|
            #[trigger] with_missing(acc, declared).contains(x) <==> acc.contains(x)
                || declared.contains(x),
        distinct(acc) ==> distinct(with_missing(acc, declared)),
    decreases declared.len(),
{
    if declared.len() == 0 {
        assert(acc.subrange(0, acc.len() as int) =~= acc);
    } else {
        let d = declared.drop_last();
        let w = with_missing(acc, d);
        lemma_with_missing(acc, d);
        assert forall|x: Seq<char>| d.contains(x) implies declared.contains(x) by {
            let i = choose|i: int| 0 <= i < d.len() && d[i] == x;
            assert(declared[i] == x);
        }
        assert forall|x: Seq<char>| declared.contains(x) && x != declared.last() implies d.contains(
            x,
        ) by {
            let i = choose|i: int| 0 <= i < declared.len() && declared[i] == x;
            assert(d[i] == x);
        }
        assert(declared[declared.len() - 1] == declared.last());
        if !w.contains(declared.last()) {
            let n = w.push(declared.last());
            assert(n.subrange(0, acc.len() as int) =~= w.subrange(0, acc.len() as int));
            assert forall|x: Seq<char>| #[trigger] n.contains(x) <==> acc.contains(x)
                || declared.contains(x) by {
                if n.contains(x) && x != declared.last() {
                    let i = choose|i: int| 0 <= i < n.len() && n[i] == x;
                    assert(w[i] == x);
                }
                if w.contains(x) {
                    let i = choose|i: int| 0 <= i < w.len() && w[i] == x;
                    assert(n[i] == x);
                }
                if x == declared.last() {
                    assert(n[w.len() as int] == x);
                }
            }
            assert forall|i: int| acc.len() <= i < n.len() implies declared.contains(#[trigger] n[i])
                && !acc.contains(n[i]) by {
                if i < w.len() {
                    assert(n[i] == w[i]);
                } else {
                    if acc.contains(n[i]) {
                        let j = choose|j: int| 0 <= j < acc.len() && acc[j] == n[i];
                        assert(w.subrange(0, acc.len() as int)[j] == w[j]);
                    }
                }
            }
            if distinct(acc) {
                assert forall|i: int, j: int| 0 <= i < j < n.len() implies n[i] != n[j] by {
                    if j == w.len() {
                        assert(n[i] == w[i]);
                    } else {
                        assert(n[i] == w[i] && n[j] == w[j]);
                    }
                }
            }
        }
    }
}

/// The elements `filter` keeps.
pub proof fn lemma_filter_contains<A>(s: Seq<A>, p: spec_fn(A) -> bool, x: A)
    ensures
        s.filter(p).contains(x) <==> s.contains(x) && p(x),
    decreases s.len(),
{
    reveal(Seq::filter);
    if s.len() > 0 {
        let d = s.drop_last();
        lemma_filter_contains(d, p, x);
        if d.contains(x) {
            let i = choose|i: int| 0 <= i < d.len() && d[i] == x;
            assert(s[i] == x);
        }
        if s.contains(x) && x != s.last() {
            let i = choose|i: int| 0 <= i < s.len() && s[i] == x;
            assert(d[i] == x);
        }
        let f = d.filter(p);
        if p(s.last()) {
            assert(f.push(s.last())[f.len() as int] == s.last());
            if f.contains(x) {
                let i = choose|i: int| 0 <= i < f.len() && f[i] == x;
                assert(f.push(s.last())[i] == x);
            }
            if f.push(s.last()).contains(x) && x != s.last() {
                let i = choose|i: int| 0 <= i < f.len() + 1 && f.push(s.last())[i] == x;
                assert(f[i] == x);
            }
        }
        assert(s[s.len() - 1] == s.last());
    }
}

/// Filtering by what every element satisfies keeps everything.
pub proof fn lemma_filter_all(s: Seq<Seq<char>>, p: spec_fn(Seq<char>) -> bool)
    requires
        forall|i: int| 0 <= i < s.len() ==> p(#[trigger] s[i]),
    ensures
        s.filter(p) == s,
    decreases s.len(),
{
    reveal(Seq::filter);
    if s.len() > 0 {
        lemma_filter_all(s.drop_last(), p);
        assert(p(s[s.len() - 1]));
        assert(s.drop_last().push(s.last()) =~= s);
    }
}

/// Filtering by what no element satisfies keeps nothing.
pub proof fn lemma_filter_none(s: Seq<Seq<char>>, p: spec_fn(Seq<char>) -> bool)
    requires
        forall|i: int| 0 <= i < s.len() ==> !p(#[trigger] s[i]),
    ensures
        s.filter(p) == Seq::<Seq<char>>::empty(),
    decreases s.len(),
{
    reveal(Seq::filter);
    if s.len() > 0 {
        lemma_filter_none(s.drop_last(), p);
        assert(!p(s[s.len() - 1]));
    } else {
        assert(s =~= Seq::<Seq<char>>::empty());
    }
}

/// Exchanging two names keeps the same names.
pub proof fn lemma_swapped_contains(s: Seq<Seq<char>>, i: int, j: int, x: Seq<char>)
    requires
        0 <= i < s.len(),
        0 <= j < s.len(),
    ensures
        swapped(s, i, j).contains(x) <==> s.contains(x),
{
    let t = swapped(s, i, j);
    if s.contains(x) {
        let k = choose|k: int| 0 <= k < s.len() && s[k] == x;
        if k == i {
            assert(t[j] == x);
        } else if k == j {
            assert(t[i] == x);
        } else {
            assert(t[k] == x);
        }
    }
    if t.contains(x) {
        let k = choose|k: int| 0 <= k < t.len() && t[k] == x;
        if k == j {
            assert(s[i] == x);
        } else if k == i {
            assert(s[j] == x);
        } else {
            assert(s[k] == x);
        }
    }
}

/// A name is among the effective columns exactly when the attribute
/// declares it and it is not hidden — whatever order the reader gave.
pub proof fn lemma_effective_members(
    order: Seq<Seq<char>>,
    hidden: Set<Seq<char>>,
    declared: Seq<Seq<char>>,
    x: Seq<char>,
)
    ensures
        effective_of(order, hidden, declared).contains(x) <==> declared.contains(x)
            && !hidden.contains(x),
{
    let k = kept_order(order, declared);
    lemma_with_missing(k, declared);
    lemma_filter_contains(with_missing(k, declared), shown_by(hidden), x);
    lemma_filter_contains(order, declared_in(declared), x);
}

/// Without any change the attribute decides, in its own order.
pub proof fn lemma_untouched_layout(declared: Seq<Seq<char>>)
    requires
        distinct(declared),
    ensures
        effective_of(Seq::empty(), Set::empty(), declared) == declared,
{
    let e = Seq::<Seq<char>>::empty();
    reveal(Seq::filter);
    assert(kept_order(e, declared) =~= e);
    lemma_with_missing_all(declared);
    lemma_filter_all(declared, shown_by(Set::empty()));
}

/// Every name of a list with nothing twice is missing from what came
/// before it.
pub proof fn lemma_with_missing_all(declared: Seq<Seq<char>>)
    requires
        distinct(declared),
    ensures
        with_missing(Seq::empty(), declared) == declared,
    decreases declared.len(),
{
    if declared.len() > 0 {
        let d = declared.drop_last();
        assert(distinct(d));
        lemma_with_missing_all(d);
        if d.contains(declared.last()) {
            let i = choose|i: int| 0 <= i < d.len() && d[i] == declared.last();
            assert(declared[i] == declared[declared.len() - 1]);
        }
        assert(d.push(declared.last()) =~= declared);
    }
}

/// After a move the effective columns are the moved list: the hidden
/// columns that trail the new order stay out of it.
pub proof fn lemma_moved_is_effective(
    order: Seq<Seq<char>>,
    hidden: Set<Seq<char>>,
    declared: Seq<Seq<char>>,
    from: int,
    to: int,
)
    requires
        0 <= from < effective_of(order, hidden, declared).len(),
        0 <= to < effective_of(order, hidden, declared).len(),
    ensures
        effective_of(
            with_missing(swapped(effective_of(order, hidden, declared), from, to), declared),
            hidden,
            declared,
        ) == swapped(effective_of(order, hidden, declared), from, to),
{
    let vis = effective_of(order, hidden, declared);
    let v = swapped(vis, from, to);
    let w = with_missing(v, declared);
    lemma_with_missing(v, declared);
    // Every name of `v` is declared and shown.
    assert forall|i: int| 0 <= i < v.len() implies declared.contains(#[trigger] v[i]) && !hidden.contains(
        v[i],
    ) by {
        assert(v.contains(v[i]));
        lemma_swapped_contains(vis, from, to, v[i]);
        lemma_effective_members(order, hidden, declared, v[i]);
    }
    // So the new order is all declared, and holds every declared name.
    assert forall|i: int| 0 <= i < w.len() implies (#[trigger] declared_in(declared)(w[i])) by {
        if i < v.len() {
            assert(w.subrange(0, v.len() as int)[i] == w[i]);
        }
    }
    lemma_filter_all(w, declared_in(declared));
    assert(kept_order(w, declared) == w);
    lemma_with_missing(w, declared);
    if with_missing(w, declared).len() > w.len() {
        let y = with_missing(w, declared)[w.len() as int];
        assert(declared.contains(y));
        let j = choose|j: int| 0 <= j < declared.len() && declared[j] == y;
        assert(w.contains(y));
    }
    assert(with_missing(w, declared).subrange(0, w.len() as int) =~= with_missing(w, declared));
    // The names after `v` are hidden ones.
    let rest = w.subrange(v.len() as int, w.len() as int);
    assert(w =~= v + rest);
    assert forall|i: int| 0 <= i < rest.len() implies !(#[trigger] shown_by(hidden)(rest[i])) by {
        let y = rest[i];
        assert(y == w[v.len() + i]);
        assert(declared.contains(y) && !v.contains(y));
        if !hidden.contains(y) {
            lemma_effective_members(order, hidden, declared, y);
            lemma_swapped_contains(vis, from, to, y);
        }
    }
    lemma_filter_none(rest, shown_by(hidden));
    assert forall|i: int| 0 <= i < v.len() implies (#[trigger] shown_by(hidden)(v[i])) by {}
    lemma_filter_all(v, shown_by(hidden));
    Seq::filter_distributes_over_add(v, rest, shown_by(hidden));
    assert(v.filter(shown_by(hidden)) + rest.filter(shown_by(hidden)) =~= v);
}

/// The reader's column layout, on top of the `columns` attribute.
#[derive(Debug, PartialEq, Eq)]
pub struct ColumnLayout {
    /// Columns the reader moved, in their new order.
    order: Vec<String>,
    /// The hidden columns, ascending.
    hidden: Vec<String>,
    /// The widths the reader gave, ascending by column.
    widths: Vec<(String, u32)>,
}

impl ColumnLayout {
    /// The order the reader arranged.
    pub closed spec fn order_view(self) -> Seq<Seq<char>> {
        views(self.order@)
    }

    /// The hidden columns, ascending.
    pub closed spec fn hidden_seq(self) -> Seq<Seq<char>> {
        views(self.hidden@)
    }

    /// The hidden columns.
    pub open spec fn hidden_view(self) -> Set<Seq<char>> {
        self.hidden_seq().to_set()
    }

    /// The widths the reader gave, ascending by column.
    pub closed spec fn width_pairs(self) -> Seq<(Seq<char>, u32)> {
        pairs_view(self.widths@)
    }

    /// The widths the reader gave.
    pub open spec fn widths_view(self) -> Map<Seq<char>, u32> {
        pairs_map(self.width_pairs())
    }

    /// Nothing twice, kept in order, every width usable.
    pub closed spec fn wf(self) -> bool {
        &&& ascending(self.hidden_seq())
        &&& ascending(pair_names(self.width_pairs()))
        &&& forall|i: int|
            0 <= i < self.widths@.len() ==> MIN_COLUMN_WIDTH <= (#[trigger] self.widths@[i]).1
                <= MAX_COLUMN_WIDTH
    }

    /// Every width the layout holds is usable.
    pub proof fn lemma_widths_usable(self, name: Seq<char>)
        requires
            self.wf(),
            self.widths_view().dom().contains(name),
        ensures
            MIN_COLUMN_WIDTH <= self.widths_view()[name] <= MAX_COLUMN_WIDTH,
    {
        let ps = self.width_pairs();
        lemma_pairs_map_dom(ps, name);
        let i = choose|i: int| 0 <= i < ps.len() && ps[i].0 == name;
        lemma_pairs_map_at(ps, i);
        assert(ps[i].1 == self.widths@[i].1);
    }

    /// A layout in which the reader changed nothing.
    pub fn new() -> (l: Self)
        ensures
            l.wf(),
            l.order_view() == Seq::<Seq<char>>::empty(),
            l.hidden_view() == Set::<Seq<char>>::empty(),
            l.widths_view() == Map::<Seq<char>, u32>::empty(),
    {
        let l = ColumnLayout { order: Vec::new(), hidden: Vec::new(), widths: Vec::new() };
        proof {
            assert(l.order_view() =~= Seq::<Seq<char>>::empty());
            assert(l.hidden_view() =~= Set::<Seq<char>>::empty());
            assert(l.widths_view() =~= Map::<Seq<char>, u32>::empty());
        }
        l
    }

    /// Whether a column is hidden.
    pub fn is_hidden(&self, name: &str) -> (b: bool)
        ensures
            b == self.hidden_view().contains(name@),
    {
        contains_text(&self.hidden, name)
    }

    /// The width a column was given, if any.
    pub fn width(&self, name: &str) -> (w: Option<u32>)
        requires
            self.wf(),
        ensures
            w == (if self.widths_view().dom().contains(name@) {
                Some(self.widths_view()[name@])
            } else {
                None
            }),
    {
        let ghost ps = self.width_pairs();
        let mut i: usize = 0;
        while i < self.widths.len()
            invariant
                i <= self.widths@.len(),
                ps == self.width_pairs(),
                self.wf(),
                forall|j: int| 0 <= j < i ==> (#[trigger] ps[j]).0 != name@,
            decreases self.widths.len() - i,
        {
            if same_text(self.widths[i].0.as_str(), name) {
                proof {
                    assert(ps[i as int].0 == name@);
                    lemma_pairs_map_at(ps, i as int);
                }
                return Some(self.widths[i].1);
            }
            i = i + 1;
        }
        proof {
            lemma_pairs_map_dom(ps, name@);
        }
        None
    }

    /// Where `name` belongs among the widths: the first place whose column
    /// does not sort before it.
    fn width_place(&self, name: &str) -> (p: usize)
        requires
            self.wf(),
        ensures
            p <= self.widths@.len(),
            forall|j: int| 0 <= j < p ==> text_lt(#[trigger] self.width_pairs()[j].0, name@),
            p < self.widths@.len() ==> !text_lt(self.width_pairs()[p as int].0, name@),
    {
        let mut p: usize = 0;
        while p < self.widths.len()
            invariant
                p <= self.widths@.len(),
                forall|j: int| 0 <= j < p ==> text_lt(#[trigger] self.width_pairs()[j].0, name@),
            decreases self.widths.len() - p,
        {
            if !text_less(self.widths[p].0.as_str(), name) {
                return p;
            }
            p = p + 1;
        }
        p
    }

    /// Gives `name` the width `w`.
    fn put_width(&mut self, name: &str, w: u32)
        requires
            old(self).wf(),
            MIN_COLUMN_WIDTH <= w <= MAX_COLUMN_WIDTH,
        ensures
            final(self).wf(),
            final(self).widths_view() == old(self).widths_view().insert(name@, w),
            final(self).order_view() == old(self).order_view(),
            final(self).hidden_seq() == old(self).hidden_seq(),
    {
        let ghost ps = self.width_pairs();
        let ghost names = pair_names(ps);
        let p = self.width_place(name);
        let present = p < self.widths.len() && same_text(self.widths[p].0.as_str(), name);
        if present {
            self.widths.set(p, (name.to_string(), w));
            proof {
                let n = self.width_pairs();
                assert(n =~= ps.update(p as int, (name@, w)));
                assert(pair_names(n) =~= names);
                assert(n[p as int] == (name@, w));
                assert forall|i: int| 0 <= i < n.len() && n[i].0 != name@ implies ps.contains(
                    #[trigger] n[i],
                ) by {
                    assert(n[i] == ps[i]);
                }
                assert forall|j: int| 0 <= j < ps.len() && ps[j].0 != name@ implies n.contains(
                    #[trigger] ps[j],
                ) by {
                    assert(n[j] == ps[j]);
                }
                lemma_pairs_map_set(ps, n, name@, w);
            }
        } else {
            self.widths.insert(p, (name.to_string(), w));
            proof {
                let n = self.width_pairs();
                assert(n =~= ps.insert(p as int, (name@, w)));
                let nn = pair_names(n);
                assert(nn =~= names.insert(p as int, name@));
                if p < ps.len() {
                    assert(names[p as int] == ps[p as int].0);
                    lemma_text_lt_total(names[p as int], name@);
                }
                assert forall|i: int, j: int| 0 <= i < j < nn.len() implies text_lt(
                    #[trigger] nn[i],
                    #[trigger] nn[j],
                ) by {
                    if j < p {
                        assert(nn[i] == names[i] && nn[j] == names[j]);
                    } else if j == p {
                        assert(nn[i] == names[i]);
                        assert(text_lt(ps[i].0, name@));
                    } else if i == p {
                        assert(text_lt(name@, names[p as int]));
                        if j - 1 > p {
                            assert(text_lt(names[p as int], names[j - 1]));
                            lemma_text_lt_transitive(name@, names[p as int], names[j - 1]);
                        }
                    } else if i < p {
                        assert(nn[i] == names[i] && nn[j] == names[j - 1]);
                        assert(text_lt(ps[i].0, name@));
                        lemma_text_lt_transitive(names[i], name@, names[p as int]);
                        if j - 1 > p {
                            assert(text_lt(names[p as int], names[j - 1]));
                            lemma_text_lt_transitive(names[i], names[p as int], names[j - 1]);
                        }
                    } else {
                        assert(nn[i] == names[i - 1] && nn[j] == names[j - 1]);
                    }
                }
                assert(n[p as int] == (name@, w));
                assert forall|i: int| 0 <= i < n.len() && n[i].0 != name@ implies ps.contains(
                    #[trigger] n[i],
                ) by {
                    if i < p {
                        assert(n[i] == ps[i]);
                    } else if i > p {
                        assert(n[i] == ps[i - 1]);
                    }
                }
                assert forall|j: int| 0 <= j < ps.len() && ps[j].0 != name@ implies n.contains(
                    #[trigger] ps[j],
                ) by {
                    if j < p {
                        assert(n[j] == ps[j]);
                    } else {
                        assert(n[j + 1] == ps[j]);
                    }
                }
                lemma_pairs_map_set(ps, n, name@, w);
            }
        }
        proof {
            assert forall|i: int| 0 <= i < self.widths@.len() implies MIN_COLUMN_WIDTH <= (
            #[trigger] self.widths@[i]).1 <= MAX_COLUMN_WIDTH by {
                if i == p {
                } else if i < p || present {
                    assert(self.widths@[i] == old(self).widths@[i]);
                } else {
                    assert(self.widths@[i] == old(self).widths@[i - 1]);
                }
            }
        }
    }

    /// Sets a width directly (restoring a view), clamped like a key press.
    pub fn set_width(&mut self, name: &str, width: u32)
        requires
            old(self).wf(),
        ensures
            final(self).wf(),
            final(self).widths_view() == old(self).widths_view().insert(
                name@,
                clamp_width(width as int),
            ),
            final(self).order_view() == old(self).order_view(),
            final(self).hidden_view() == old(self).hidden_view(),
    {
        let w = if width < MIN_COLUMN_WIDTH {
            MIN_COLUMN_WIDTH
        } else if width > MAX_COLUMN_WIDTH {
            MAX_COLUMN_WIDTH
        } else {
            width
        };
        self.put_width(name, w);
    }

    /// The width a resize of `name` starts from: the one it was given, or
    /// `current`, the one it is drawn at.
    pub open spec fn resize_base(self, name: Seq<char>, current: u32) -> u32 {
        if self.widths_view().dom().contains(name) {
            self.widths_view()[name]
        } else {
            current
        }
    }

    /// Changes a column's width by `step` pixels, clamped, and answers the
    /// new width. The width is reckoned in `i32`, so `current` above
    /// `i32::MAX` reads as the negative number with the same bits, and a sum
    /// outside `i32` is not allowed.
    pub fn resize(&mut self, name: &str, step: i32, current: u32) -> (next: u32)
        requires
            old(self).wf(),
            i32::MIN <= as_i32(old(self).resize_base(name@, current)) + step <= i32::MAX,
        ensures
            final(self).wf(),
            next == clamp_width(as_i32(old(self).resize_base(name@, current)) + step),
            MIN_COLUMN_WIDTH <= next <= MAX_COLUMN_WIDTH,
            final(self).widths_view() == old(self).widths_view().insert(name@, next),
            final(self).order_view() == old(self).order_view(),
            final(self).hidden_view() == old(self).hidden_view(),
    {
        let base = match self.width(name) {
            Some(w) => w,
            None => current,
        };
        let b: i64 = if base <= 0x7fff_ffff {
            base as i64
        } else {
            base as i64 - 0x1_0000_0000
        };
        let sum: i64 = b + step as i64;
        let next: u32 = if sum < MIN_COLUMN_WIDTH as i64 {
            MIN_COLUMN_WIDTH
        } else if sum > MAX_COLUMN_WIDTH as i64 {
            MAX_COLUMN_WIDTH
        } else {
            sum as u32
        };
        self.put_width(name, next);
        next
    }

    /// The order the reader arranged, if they arranged one.
    pub fn order(&self) -> (o: &[String])
        ensures
            views(o@) == self.order_view(),
    {
        &self.order
    }

    /// Replaces the order wholesale (restoring a view).
    pub fn set_order(&mut self, order: Vec<String>)
        requires
            old(self).wf(),
        ensures
            final(self).wf(),
            final(self).order_view() == views(order@),
            final(self).hidden_view() == old(self).hidden_view(),
            final(self).widths_view() == old(self).widths_view(),
    {
        self.order = order;
    }

    /// The hidden columns, sorted, so the same layout always says the same
    /// thing.
    pub fn hidden(&self) -> (h: Vec<String>)
        requires
            self.wf(),
        ensures
            ascending(views(h@)),
            views(h@).to_set() == self.hidden_view(),
    {
        copy_texts(&self.hidden)
    }

    /// The widths the reader set, sorted by column for the same reason.
    pub fn widths(&self) -> (ws: Vec<(String, u32)>)
        requires
            self.wf(),
        ensures
            ascending(pair_names(pairs_view(ws@))),
            pairs_map(pairs_view(ws@)) == self.widths_view(),
            forall|i: int|
                0 <= i < ws@.len() ==> MIN_COLUMN_WIDTH <= (#[trigger] ws@[i]).1 <= MAX_COLUMN_WIDTH
                    && self.widths_view().dom().contains(ws@[i].0@) && self.widths_view()[ws@[i].0@]
                    == ws@[i].1,
            forall|n: Seq<char>|
                #[trigger] self.widths_view().dom().contains(n) ==> exists|i: int|
                    0 <= i < ws@.len() && ws@[i].0@ == n && ws@[i].1 == self.widths_view()[n],
    {
        let mut out: Vec<(String, u32)> = Vec::new();
        let mut i: usize = 0;
        while i < self.widths.len()
            invariant
                i <= self.widths@.len(),
                pairs_view(out@) == self.width_pairs().take(i as int),
            decreases self.widths.len() - i,
        {
            let name = self.widths[i].0.clone();
            let ghost old_out = out@;
            out.push((name, self.widths[i].1));
            proof {
                assert(name@ == self.widths@[i as int].0@);
                assert(pairs_view(out@) =~= pairs_view(old_out).push(self.width_pairs()[i as int]));
                assert(pairs_view(out@) =~= self.width_pairs().take(i + 1));
            }
            i = i + 1;
        }
        proof {
            let ps = self.width_pairs();
            assert(ps.take(i as int) =~= ps);
            assert forall|i: int| 0 <= i < out@.len() implies MIN_COLUMN_WIDTH <= (
            #[trigger] out@[i]).1 <= MAX_COLUMN_WIDTH && self.widths_view().dom().contains(
                out@[i].0@,
            ) && self.widths_view()[out@[i].0@] == out@[i].1 by {
                assert(pairs_view(out@)[i] == ps[i]);
                assert(ps[i].1 == self.widths@[i].1);
                lemma_pairs_map_at(ps, i);
            }
            assert forall|n: Seq<char>| #[trigger] self.widths_view().dom().contains(n) implies exists|
                i: int,
            | 0 <= i < out@.len() && out@[i].0@ == n && out@[i].1 == self.widths_view()[n] by {
                lemma_pairs_map_dom(ps, n);
                let i = choose|i: int| 0 <= i < ps.len() && ps[i].0 == n;
                lemma_pairs_map_at(ps, i);
                assert(pairs_view(out@)[i] == ps[i]);
            }
        }
        out
    }

    /// Where `name` belongs among the hidden columns: the first place whose
    /// column does not sort before it.
    fn hidden_place(&self, name: &str) -> (p: usize)
        requires
            self.wf(),
        ensures
            p <= self.hidden@.len(),
            forall|j: int| 0 <= j < p ==> text_lt(#[trigger] self.hidden_seq()[j], name@),
            p < self.hidden@.len() ==> !text_lt(self.hidden_seq()[p as int], name@),
    {
        let mut p: usize = 0;
        while p < self.hidden.len()
            invariant
                p <= self.hidden@.len(),
                forall|j: int| 0 <= j < p ==> text_lt(#[trigger] self.hidden_seq()[j], name@),
            decreases self.hidden.len() - p,
        {
            if !text_less(self.hidden[p].as_str(), name) {
                return p;
            }
            p = p + 1;
        }
        p
    }

    /// Hides or shows a column. Answers whether anything changed.
    pub fn set_hidden(&mut self, name: &str, hidden: bool) -> (changed: bool)
        requires
            old(self).wf(),
        ensures
            final(self).wf(),
            changed == (hidden != old(self).hidden_view().contains(name@)),
            final(self).hidden_view() == (if hidden {
                old(self).hidden_view().insert(name@)
            } else {
                old(self).hidden_view().remove(name@)
            }),
            final(self).order_view() == old(self).order_view(),
            final(self).widths_view() == old(self).widths_view(),
    {
        let ghost h = self.hidden_seq();
        let p = self.hidden_place(name);
        let present = p < self.hidden.len() && same_text(self.hidden[p].as_str(), name);
        proof {
            // `name` is hidden exactly when it stands at its place.
            if h.contains(name@) {
                let j = choose|j: int| 0 <= j < h.len() && h[j] == name@;
                lemma_text_lt_irreflexive(name@);
                if j >= p && j != p {
                    lemma_text_lt_total(h[p as int], name@);
                    assert(text_lt(h[p as int], h[j]));
                    lemma_text_lt_total(name@, h[p as int]);
                }
                assert(j == p);
            }
            if present {
                assert(h[p as int] == name@);
            }
        }
        if hidden {
            if present {
                proof {
                    assert(h.to_set().insert(name@) =~= h.to_set());
                }
                return false;
            }
            let ghost old_h = self.hidden@;
            self.hidden.insert(p, name.to_string());
            proof {
                let n = self.hidden_seq();
                assert(n =~= h.insert(p as int, name@));
                assert forall|i: int, j: int| 0 <= i < j < n.len() implies text_lt(
                    #[trigger] n[i],
                    #[trigger] n[j],
                ) by {
                    if j < p {
                        assert(n[i] == h[i] && n[j] == h[j]);
                    } else if j == p {
                        assert(n[i] == h[i]);
                    } else if i == p {
                        // `name` sorts before the column that was at its place.
                        lemma_text_lt_total(h[p as int], name@);
                        assert(text_lt(name@, h[p as int]));
                        if j - 1 > p {
                            assert(text_lt(h[p as int], h[j - 1]));
                            lemma_text_lt_transitive(name@, h[p as int], h[j - 1]);
                        }
                    } else if i < p {
                        assert(n[i] == h[i] && n[j] == h[j - 1]);
                        assert(text_lt(h[i], name@));
                        lemma_text_lt_total(h[p as int], name@);
                        assert(text_lt(name@, h[p as int]));
                        lemma_text_lt_transitive(h[i], name@, h[p as int]);
                        if j - 1 > p {
                            assert(text_lt(h[p as int], h[j - 1]));
                            lemma_text_lt_transitive(h[i], h[p as int], h[j - 1]);
                        }
                    } else {
                        assert(n[i] == h[i - 1] && n[j] == h[j - 1]);
                    }
                }
                assert forall|x: Seq<char>| #[trigger] n.to_set().contains(x) == h.to_set().insert(
                    name@,
                ).contains(x) by {
                    if n.contains(x) {
                        let i = choose|i: int| 0 <= i < n.len() && n[i] == x;
                        if i < p {
                            assert(h[i] == x);
                        } else if i > p {
                            assert(h[i - 1] == x);
                        }
                    }
                    if h.contains(x) {
                        let i = choose|i: int| 0 <= i < h.len() && h[i] == x;
                        if i < p {
                            assert(n[i] == x);
                        } else {
                            assert(n[i + 1] == x);
                        }
                    }
                    if x == name@ {
                        assert(n[p as int] == x);
                    }
                }
                assert(n.to_set() =~= h.to_set().insert(name@));
            }
            true
        } else {
            if !present {
                proof {
                    assert(h.to_set().remove(name@) =~= h.to_set());
                }
                return false;
            }
            self.hidden.remove(p);
            proof {
                let n = self.hidden_seq();
                assert(n =~= h.remove(p as int));
                assert forall|i: int, j: int| 0 <= i < j < n.len() implies text_lt(
                    #[trigger] n[i],
                    #[trigger] n[j],
                ) by {
                    if j < p {
                        assert(n[i] == h[i] && n[j] == h[j]);
                    } else if i < p {
                        assert(n[i] == h[i] && n[j] == h[j + 1]);
                    } else {
                        assert(n[i] == h[i + 1] && n[j] == h[j + 1]);
                    }
                }
                assert forall|x: Seq<char>| #[trigger] n.to_set().contains(x) == h.to_set().remove(
                    name@,
                ).contains(x) by {
                    if n.contains(x) {
                        let i = choose|i: int| 0 <= i < n.len() && n[i] == x;
                        if i < p {
                            assert(h[i] == x);
                            if x == name@ {
                                lemma_ascending_distinct(h, i, p as int);
                            }
                        } else {
                            assert(h[i + 1] == x);
                            if x == name@ {
                                lemma_ascending_distinct(h, i + 1, p as int);
                            }
                        }
                    }
                    if h.contains(x) && x != name@ {
                        let i = choose|i: int| 0 <= i < h.len() && h[i] == x;
                        if i < p {
                            assert(n[i] == x);
                        } else {
                            assert(n[i - 1] == x);
                        }
                    }
                }
                assert(n.to_set() =~= h.to_set().remove(name@));
            }
            true
        }
    }
}

/// Appends each name of `declared` that `acc` does not hold yet.
pub(crate) fn add_missing(acc: &mut Vec<String>, declared: &[String])
    ensures
        views(final(acc)@) == with_missing(views(old(acc)@), views(declared@)),
{
    let ghost start = views(acc@);
    let ghost d = views(declared@);
    let mut j: usize = 0;
    while j < declared.len()
        invariant
            j <= declared@.len(),
            d == views(declared@),
            views(acc@) == with_missing(start, d.take(j as int)),
        decreases declared.len() - j,
    {
        proof {
            assert(d.take(j + 1).drop_last() =~= d.take(j as int));
            assert(d.take(j + 1).last() == declared@[j as int]@);
        }
        if !contains_text(acc, declared[j].as_str()) {
            let ghost before = views(acc@);
            acc.push(declared[j].clone());
            proof {
                assert(views(acc@) =~= before.push(declared@[j as int]@));
            }
        }
        j = j + 1;
    }
    proof {
        assert(d.take(declared.len() as int) =~= d);
    }
}

impl ColumnLayout {
    /// The columns to select and render: the attribute's, reordered and
    /// filtered. A name of the reader's order that the attribute does not
    /// declare is ignored.
    pub fn effective(&self, declared: &[String]) -> (cols: Vec<String>)
        ensures
            views(cols@) == effective_of(self.order_view(), self.hidden_view(), views(declared@)),
    {
        let ghost d = views(declared@);
        let ghost o = self.order_view();
        let mut ordered: Vec<String> = Vec::new();
        let mut i: usize = 0;
        while i < self.order.len()
            invariant
                i <= self.order@.len(),
                o == self.order_view(),
                d == views(declared@),
                views(ordered@) == o.take(i as int).filter(declared_in(d)),
            decreases self.order.len() - i,
        {
            proof {
                reveal(Seq::filter);
                assert(o.take(i + 1).drop_last() =~= o.take(i as int));
                assert(o.take(i + 1).last() == self.order@[i as int]@);
            }
            if contains_text(declared, self.order[i].as_str()) {
                let ghost before = views(ordered@);
                ordered.push(self.order[i].clone());
                proof {
                    assert(views(ordered@) =~= before.push(self.order@[i as int]@));
                }
            }
            i = i + 1;
        }
        proof {
            assert(o.take(i as int) =~= o);
        }
        add_missing(&mut ordered, declared);
        let ghost all = views(ordered@);
        let mut out: Vec<String> = Vec::new();
        let mut k: usize = 0;
        while k < ordered.len()
            invariant
                k <= ordered@.len(),
                all == views(ordered@),
                views(out@) == all.take(k as int).filter(shown_by(self.hidden_view())),
            decreases ordered.len() - k,
        {
            proof {
                reveal(Seq::filter);
                assert(all.take(k + 1).drop_last() =~= all.take(k as int));
                assert(all.take(k + 1).last() == ordered@[k as int]@);
            }
            if !self.is_hidden(ordered[k].as_str()) {
                let ghost before = views(out@);
                out.push(ordered[k].clone());
                proof {
                    assert(views(out@) =~= before.push(ordered@[k as int]@));
                }
            }
            k = k + 1;
        }
        proof {
            assert(all.take(k as int) =~= all);
        }
        out
    }

    /// Moves a column one place left (`by == -1`) or right (`by == 1`)
    /// among the visible ones, and answers the new visible order — or `None`
    /// when the column is not visible or would fall off an end, and then
    /// nothing changes. The hidden columns trail the new order in the
    /// attribute's order, so showing one does not scramble the arrangement.
    pub fn move_column(&mut self, declared: &[String], name: &str, by: i32) -> (moved: Option<
        Vec<String>,
    >)
        requires
            old(self).wf(),
        ensures
            final(self).wf(),
            final(self).hidden_view() == old(self).hidden_view(),
            final(self).widths_view() == old(self).widths_view(),
            ({
                let vis = effective_of(
                    old(self).order_view(),
                    old(self).hidden_view(),
                    views(declared@),
                );
                let from = first_index(vis, name@);
                match moved {
                    None => {
                        &&& (from < 0 || from + by < 0 || from + by >= vis.len())
                        &&& final(self).order_view() == old(self).order_view()
                    },
                    Some(v) => {
                        &&& 0 <= from && 0 <= from + by < vis.len()
                        &&& views(v@) == swapped(vis, from, from + by)
                        &&& final(self).order_view() == with_missing(views(v@), views(declared@))
                        &&& effective_of(
                            final(self).order_view(),
                            final(self).hidden_view(),
                            views(declared@),
                        ) == views(v@)
                    },
                }
            }),
    {
        let mut visible = self.effective(declared);
        let ghost vis = views(visible@);
        let mut from: usize = 0;
        while from < visible.len()
            invariant
                from <= visible@.len(),
                vis == views(visible@),
                forall|j: int| 0 <= j < from ==> vis[j] != name@,
            ensures
                from <= visible@.len(),
                forall|j: int| 0 <= j < from ==> vis[j] != name@,
                from < visible@.len() ==> vis[from as int] == name@,
            decreases visible.len() - from,
        {
            if same_text(visible[from].as_str(), name) {
                break;
            }
            from = from + 1;
        }
        proof {
            lemma_first_index(vis, name@, from as int);
        }
        if from == visible.len() {
            return None;
        }
        let to: usize = if by >= 0 {
            let step = by as usize;
            assert(step == by);
            if step >= visible.len() - from {
                assert(from + by >= vis.len());
                return None;
            }
            from + step
        } else {
            let step = (0 - (by as i64)) as usize;
            assert(step == -by);
            if step > from {
                assert(from + by < 0);
                return None;
            }
            from - step
        };
        let a = visible[from].clone();
        let b = visible[to].clone();
        visible.set(from, b);
        visible.set(to, a);
        proof {
            assert(views(visible@) =~= swapped(vis, from as int, to as int));
        }
        let mut order = copy_texts(&visible);
        add_missing(&mut order, declared);
        self.order = order;
        proof {
            lemma_moved_is_effective(
                old(self).order_view(),
                old(self).hidden_view(),
                views(declared@),
                from as int,
                to as int,
            );
        }
        Some(visible)
    }
}

impl Default for ColumnLayout {
    fn default() -> (l: Self)
        ensures
            l.wf(),
            l.order_view() == Seq::<Seq<char>>::empty(),
            l.hidden_view() == Set::<Seq<char>>::empty(),
            l.widths_view() == Map::<Seq<char>, u32>::empty(),
    {
        ColumnLayout::new()
    }
}

/// Hiding a shown column and showing it again leaves the hidden columns as
/// they were.
pub proof fn lemma_hide_then_show(hidden: Set<Seq<char>>, name: Seq<char>)
    requires
        !hidden.contains(name),
    ensures
        hidden.insert(name).remove(name) == hidden,
{
    assert(hidden.insert(name).remove(name) =~= hidden);
}

} // verus!
