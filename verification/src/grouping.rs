//! Grouping: the flat display list, as arithmetic.
//!
//! The group query answers every group's **row count**. From the counts and
//! the set of expanded groups the display list is pure arithmetic: a position
//! is "the header of group X", "row *n* of group X", or, after the last group,
//! the grand total. Nothing here holds a row of data; it holds counts.
//!
//! A group key is the value the group stands for, as the wire writes it. NULL
//! and the empty string are different groups and filter differently: NULL
//! through `is_null`, the empty string through `eq ""`.

use vstd::prelude::*;

use crate::columns::{add_missing, with_missing};
use crate::facets::{all_of, opt_expr_view, opt_ref_view, value_test};
use crate::filters::{copy_expr, expr_view, exprs_view, is_valid_name, lemma_and_view, valid_name, CmpOp, DataType, FilterExpr, FilterExprView};
use crate::summary::{AggregateFn, Summary};
use crate::text::{decimal, join_texts, joined, name_list, names, text_of, views};


use crate::paths::{
    distinct_paths, insert_path, lemma_remove_sorted, lemma_toggle_twice_restores, lemma_upper,
    no_text_twin, path_text, sorted_paths, toggled, upper,
};

verus! {

/// The most levels a grid groups by.
pub const MAX_LEVELS: usize = 2;

/// A value as the wire writes it: a group key (text, date, boolean, whole
/// number or NULL), a facet value, or a filter literal.
///
/// A number that is not a 64-bit integer travels as the digits that were
/// written, so nothing is rounded on the way.
#[derive(Clone, Debug, PartialEq, Eq)]
pub enum Key {
    Null,
    Bool(bool),
    Int(i64),
    Number(String),
    Text(String),
}

/// A key as a mathematical value.
pub enum KeyV {
    Null,
    Bool(bool),
    Int(i64),
    Number(Seq<char>),
    Text(Seq<char>),
}

impl View for Key {
    type V = KeyV;

    open spec fn view(&self) -> KeyV {
        match self {
            Key::Null => KeyV::Null,
            Key::Bool(b) => KeyV::Bool(*b),
            Key::Int(i) => KeyV::Int(*i),
            Key::Number(s) => KeyV::Number(s@),
            Key::Text(s) => KeyV::Text(s@),
        }
    }
}

/// The keys of a path.
pub open spec fn keys_view(keys: Seq<Key>) -> Seq<KeyV> {
    keys.map_values(|k: Key| k@)
}

/// The keys of some paths.
pub open spec fn paths_view(paths: Seq<Vec<Key>>) -> Seq<Seq<KeyV>> {
    paths.map_values(|p: Vec<Key>| keys_view(p@))
}

/// The chosen aggregates as values.
pub open spec fn summaries_view(a: Seq<(String, Summary)>) -> Seq<(Seq<char>, Summary)> {
    a.map_values(|e: (String, Summary)| (e.0@, e.1))
}

/// Whether two keys are the same value.
pub fn key_eq(a: &Key, b: &Key) -> (r: bool)
    ensures
        r == (a@ == b@),
{
    match (a, b) {
        (Key::Null, Key::Null) => true,
        (Key::Bool(x), Key::Bool(y)) => *x == *y,
        (Key::Int(x), Key::Int(y)) => *x == *y,
        (Key::Number(x), Key::Number(y)) => *x == *y,
        (Key::Text(x), Key::Text(y)) => *x == *y,
        _ => false,
    }
}

/// A copy of a key.
pub fn copy_key(k: &Key) -> (r: Key)
    ensures
        r@ == k@,
{
    match k {
        Key::Null => Key::Null,
        Key::Bool(b) => Key::Bool(*b),
        Key::Int(i) => Key::Int(*i),
        Key::Number(s) => Key::Number(s.clone()),
        Key::Text(s) => Key::Text(s.clone()),
    }
}

/// Whether two paths are the same keys.
pub fn keys_eq(a: &[Key], b: &[Key]) -> (r: bool)
    ensures
        r == (keys_view(a@) == keys_view(b@)),
{
    if a.len() != b.len() {
        proof {
            assert(keys_view(a@).len() != keys_view(b@).len());
        }
        return false;
    }
    let mut i: usize = 0;
    while i < a.len()
        invariant
            a.len() == b.len(),
            i <= a.len(),
            forall|j: int| 0 <= j < i ==> a@[j]@ == b@[j]@,
        decreases a.len() - i,
    {
        if !key_eq(&a[i], &b[i]) {
            proof {
                assert(keys_view(a@)[i as int] != keys_view(b@)[i as int]);
            }
            return false;
        }
        i = i + 1;
    }
    proof {
        assert(keys_view(a@) =~= keys_view(b@));
    }
    true
}

/// A copy of a path.
pub fn copy_keys(keys: &[Key]) -> (r: Vec<Key>)
    ensures
        keys_view(r@) == keys_view(keys@),
{
    let mut out: Vec<Key> = Vec::new();
    let mut i: usize = 0;
    while i < keys.len()
        invariant
            i <= keys.len(),
            out@.len() == i,
            forall|j: int| 0 <= j < i ==> (#[trigger] out@[j])@ == keys@[j]@,
        decreases keys.len() - i,
    {
        out.push(copy_key(&keys[i]));
        i = i + 1;
    }
    proof {
        assert(keys_view(out@) =~= keys_view(keys@));
    }
    out
}

/// Whether a column may be grouped by: text, booleans, whole numbers and
/// dates have values that repeat; a decimal, a float or a timestamp would
/// give practically one group per row.
pub open spec fn groupable_spec(data_type: DataType) -> bool {
    match data_type {
        DataType::Utf8 | DataType::Bool | DataType::Int64 | DataType::Date => true,
        _ => false,
    }
}

/// Whether a column may be grouped by.
pub fn groupable(data_type: DataType) -> (b: bool)
    ensures
        b == groupable_spec(data_type),
{
    match data_type {
        DataType::Utf8 | DataType::Bool | DataType::Int64 | DataType::Date => true,
        _ => false,
    }
}

/// The columns `group-by` names: trimmed, empty names dropped, each name
/// once, in the order of their first mention.
pub open spec fn group_by_names(raw: Option<&str>) -> Seq<Seq<char>> {
    with_missing(Seq::empty(), name_list(text_of(raw)))
}

/// Reads `group-by`: the named columns, or, when there are more than
/// [`MAX_LEVELS`], `Err` with them joined by commas — silently grouping by
/// the first two of three would look like it worked.
pub fn parse_group_by(raw: Option<&str>) -> (r: Result<Vec<String>, String>)
    ensures
        match r {
            Ok(v) => group_by_names(raw).len() <= MAX_LEVELS && views(v@) == group_by_names(raw),
            Err(e) => group_by_names(raw).len() > MAX_LEVELS && e@ == joined(
                group_by_names(raw),
                ","@,
            ),
        },
{
    let listed = names(raw);
    let mut out: Vec<String> = Vec::new();
    proof {
        assert(views(out@) =~= Seq::<Seq<char>>::empty());
    }
    add_missing(&mut out, &listed);
    if out.len() > MAX_LEVELS {
        return Err(join_texts(&out, ","));
    }
    Ok(out)
}

/// One group of either level.
#[derive(Debug, PartialEq, Eq)]
pub struct Group<V> {
    /// The key as the wire writes it — what a filter literal is made of.
    pub key: Key,
    /// Data rows in the group, across all its subgroups.
    pub count: u64,
    /// The level-2 groups, once fetched; always `None` on the second level.
    pub children: Option<Vec<Group<V>>>,
    /// One value per requested aggregate, in the grouping's order.
    pub aggregates: Vec<V>,
}

impl<V> Group<V> {
    /// A group with its key and row count, no subgroups fetched and no
    /// aggregates.
    pub fn new(key: Key, count: u64) -> (g: Self)
        ensures
            g.key@ == key@,
            g.count == count,
            g.children is None,
            g.aggregates@.len() == 0,
    {
        Group { key, count, children: None, aggregates: Vec::new() }
    }
}

/// What sits at a position of the display list.
#[derive(Debug, PartialEq, Eq)]
pub enum Item<V> {
    /// A group header.
    Group {
        /// 1 or 2.
        level: usize,
        /// The keys down to this group.
        keys: Vec<Key>,
        /// Data rows in the group.
        count: u64,
        expanded: bool,
        /// One value per requested aggregate.
        aggregates: Vec<V>,
    },
    /// The grand total over every matching row: the last position.
    Total {
        count: u64,
        aggregates: Vec<V>,
    },
    /// A data row.
    Row {
        /// The keys of the innermost group the row belongs to.
        keys: Vec<Key>,
        /// Its index inside that group, in the current sort.
        offset: u64,
    },
}

/// A slice of one group's rows that a window needs.
#[derive(Debug, PartialEq, Eq)]
pub struct Fetch {
    /// The keys of the group — the filter the rows are fetched with.
    pub keys: Vec<Key>,
    /// First row inside the group.
    pub offset: u64,
    /// How many rows.
    pub limit: u64,
    /// The display position the first of them goes to.
    pub position: u64,
}

/// The grouping state of one grid: its levels, its groups and what is open.
pub struct Grouping<V> {
    /// The columns grouped by, outermost first.
    by: Vec<String>,
    /// The level-1 groups in display order; `None` until the group query
    /// answered.
    groups: Option<Vec<Group<V>>>,
    /// The expanded groups, by path.
    expanded: Vec<Vec<Key>>,
    /// Display position at which each level-1 group starts, plus one entry for
    /// the end.
    starts: Vec<u64>,
    /// The aggregates each group and the total row show, as `(column,
    /// summary)`. Empty unless a page or a reader chose some.
    aggregates: Vec<(String, Summary)>,
    /// The aggregates over every matching row, once asked.
    total: Option<Vec<V>>,
}

// ---------------------------------------------------------------------------
// The model
// ---------------------------------------------------------------------------
/// The sum of the row counts of some groups.
pub open spec fn count_sum<V>(gs: Seq<Group<V>>) -> nat
    decreases gs.len(),
{
    if gs.len() == 0 {
        0
    } else {
        count_sum(gs.drop_last()) + gs.last().count as nat
    }
}

/// The most positions the groups could ever take, everything open.
pub open spec fn cap_of<V>(g: Group<V>) -> nat {
    1 + g.count as nat + match g.children {
        Some(cs) => cs@.len() + count_sum(cs@),
        None => 0,
    }
}

pub open spec fn cap_sum<V>(gs: Seq<Group<V>>) -> nat
    decreases gs.len(),
{
    if gs.len() == 0 {
        0
    } else {
        cap_sum(gs.drop_last()) + cap_of(gs.last())
    }
}

/// The groups can be laid out in `u64` positions whatever is open.
pub open spec fn fits<V>(gs: Seq<Group<V>>) -> bool {
    cap_sum(gs) + 1 <= u64::MAX
}

/// Positions a level-2 group takes: its header, and its rows when open.
pub open spec fn child_size<V>(open: Seq<Seq<KeyV>>, parent: KeyV, child: Group<V>) -> nat {
    if open.contains(seq![parent, child.key@]) {
        1 + child.count as nat
    } else {
        1
    }
}

/// Positions some level-2 groups take together.
pub open spec fn children_size<V>(open: Seq<Seq<KeyV>>, parent: KeyV, cs: Seq<Group<V>>) -> nat
    decreases cs.len(),
{
    if cs.len() == 0 {
        0
    } else {
        children_size(open, parent, cs.drop_last()) + child_size(open, parent, cs.last())
    }
}

/// Positions a level-1 group takes, its header included: the header alone
/// while closed; on one level its rows; on two levels its subgroups once they
/// are fetched.
pub open spec fn size_of<V>(levels: nat, open: Seq<Seq<KeyV>>, g: Group<V>) -> nat {
    if !open.contains(seq![g.key@]) {
        1
    } else if levels < 2 {
        1 + g.count as nat
    } else {
        match g.children {
            Some(cs) => 1 + children_size(open, g.key@, cs@),
            None => 1,
        }
    }
}

/// Positions some level-1 groups take together.
pub open spec fn span<V>(levels: nat, open: Seq<Seq<KeyV>>, gs: Seq<Group<V>>) -> nat
    decreases gs.len(),
{
    if gs.len() == 0 {
        0
    } else {
        span(levels, open, gs.drop_last()) + size_of(levels, open, gs.last())
    }
}

impl<V> Grouping<V> {
    pub closed spec fn by_view(self) -> Seq<Seq<char>> {
        self.by@.map_values(|s: String| s@)
    }

    pub closed spec fn levels_spec(self) -> nat {
        self.by@.len()
    }

    pub closed spec fn groups_spec(self) -> Option<Seq<Group<V>>> {
        match self.groups {
            Some(v) => Some(v@),
            None => None,
        }
    }

    /// The level-1 groups, empty until loaded.
    pub open spec fn group_seq(self) -> Seq<Group<V>> {
        match self.groups_spec() {
            Some(gs) => gs,
            None => Seq::empty(),
        }
    }

    pub closed spec fn aggregates_view(self) -> Seq<(Seq<char>, Summary)> {
        summaries_view(self.aggregates@)
    }

    pub closed spec fn total_spec(self) -> Option<Seq<V>> {
        match self.total {
            Some(v) => Some(v@),
            None => None,
        }
    }

    /// The expanded paths.
    pub closed spec fn expanded_view(self) -> Seq<Seq<KeyV>> {
        paths_view(self.expanded@)
    }

    /// Whether the group with this path is expanded.
    pub open spec fn is_open(self, path: Seq<KeyV>) -> bool {
        self.expanded_view().contains(path)
    }

    pub open spec fn open1_spec(self, k: KeyV) -> bool {
        self.is_open(seq![k])
    }

    pub open spec fn size_of(self, g: Group<V>) -> nat {
        size_of(self.levels_spec(), self.expanded_view(), g)
    }

    pub open spec fn span(self, gs: Seq<Group<V>>) -> nat {
        span(self.levels_spec(), self.expanded_view(), gs)
    }

    pub open spec fn child_size(self, parent: KeyV, child: Group<V>) -> nat {
        child_size(self.expanded_view(), parent, child)
    }

    pub open spec fn children_size(self, parent: KeyV, cs: Seq<Group<V>>) -> nat {
        children_size(self.expanded_view(), parent, cs)
    }

    /// Where level-1 group `i` starts.
    pub open spec fn start_of(self, i: int) -> nat {
        self.span(self.group_seq().take(i))
    }

    /// The end of the groups, where the total row sits.
    pub open spec fn groups_end(self) -> nat {
        self.span(self.group_seq())
    }

    /// The length of the display list: headers, the rows of open groups, and
    /// the total row after them — but no total row over no groups.
    pub open spec fn len_spec(self) -> nat {
        if self.groups_spec() is Some && self.groups_end() > 0 {
            self.groups_end() + 1
        } else {
            0
        }
    }

    /// The state is consistent: the cached starts are the layout, and the
    /// layout fits in `u64` positions.
    pub closed spec fn wf(self) -> bool {
        &&& fits(self.group_seq())
        &&& sorted_paths(self.expanded_view())
        &&& distinct_paths(self.expanded_view())
        &&& match self.groups {
            Some(gs) => {
                &&& self.starts@.len() == gs@.len() + 1
                &&& forall|i: int|
                    0 <= i <= gs@.len() ==> #[trigger] self.starts@[i] == self.start_of(i)
            },
            None => self.starts@.len() == 0,
        }
    }
}

// ---------------------------------------------------------------------------
// Lemmas about the layout
// ---------------------------------------------------------------------------
pub proof fn lemma_count_sum_le_cap<V>(gs: Seq<Group<V>>)
    ensures
        count_sum(gs) + gs.len() <= cap_sum(gs),
    decreases gs.len(),
{
    if gs.len() > 0 {
        lemma_count_sum_le_cap(gs.drop_last());
    }
}

impl<V> Grouping<V> {
    proof fn lemma_children_size_le(self, parent: KeyV, cs: Seq<Group<V>>)
        ensures
            self.children_size(parent, cs) <= cs.len() + count_sum(cs),
        decreases cs.len(),
    {
        if cs.len() > 0 {
            self.lemma_children_size_le(parent, cs.drop_last());
        }
    }

    proof fn lemma_size_le_cap(self, g: Group<V>)
        ensures
            1 <= self.size_of(g) <= cap_of(g),
    {
        if let Some(cs) = g.children {
            self.lemma_children_size_le(g.key@, cs@);
        }
    }

    proof fn lemma_span_le_cap(self, gs: Seq<Group<V>>)
        ensures
            gs.len() <= self.span(gs) <= cap_sum(gs),
        decreases gs.len(),
    {
        if gs.len() > 0 {
            self.lemma_span_le_cap(gs.drop_last());
            self.lemma_size_le_cap(gs.last());
        }
    }

    proof fn lemma_cap_prefix(gs: Seq<Group<V>>, i: int)
        requires
            0 <= i <= gs.len(),
        ensures
            cap_sum(gs.take(i)) <= cap_sum(gs),
        decreases gs.len(),
    {
        if i < gs.len() {
            assert(gs.drop_last().take(i) =~= gs.take(i));
            Self::lemma_cap_prefix(gs.drop_last(), i);
        } else {
            assert(gs.take(i) =~= gs);
        }
    }

    /// The span of a prefix grows by the size of the next group.
    proof fn lemma_span_step(self, gs: Seq<Group<V>>, i: int)
        requires
            0 <= i < gs.len(),
        ensures
            self.span(gs.take(i + 1)) == self.span(gs.take(i)) + self.size_of(gs[i]),
    {
        assert(gs.take(i + 1).drop_last() =~= gs.take(i));
    }

    /// Starts only grow.
    proof fn lemma_span_mono(self, gs: Seq<Group<V>>, i: int, j: int)
        requires
            0 <= i <= j <= gs.len(),
        ensures
            self.span(gs.take(i)) + (j - i) <= self.span(gs.take(j)),
        decreases j - i,
    {
        if i < j {
            self.lemma_span_mono(gs, i, j - 1);
            self.lemma_span_step(gs, j - 1);
            self.lemma_size_le_cap(gs[j - 1]);
        }
    }
}

// ---------------------------------------------------------------------------
// The state
// ---------------------------------------------------------------------------
impl<V> Grouping<V> {
    /// A grouping by `by`, with nothing loaded and nothing open.
    pub fn new(by: Vec<String>) -> (g: Self)
        ensures
            g.wf(),
            g.by_view() == by@.map_values(|s: String| s@),
            g.levels_spec() == by@.len(),
            g.groups_spec() is None,
            g.expanded_view().len() == 0,
            g.total_spec() is None,
            g.aggregates_view().len() == 0,
    {
        let g = Grouping {
            by,
            groups: None,
            expanded: Vec::new(),
            starts: Vec::new(),
            aggregates: Vec::new(),
            total: None,
        };
        proof {
            assert(g.group_seq() =~= Seq::<Group<V>>::empty());
        }
        g
    }

    /// The columns grouped by.
    pub fn by(&self) -> (r: &[String])
        ensures
            r@.map_values(|s: String| s@) == self.by_view(),
    {
        self.by.as_slice()
    }

    /// Number of levels.
    pub fn levels(&self) -> (n: usize)
        ensures
            n == self.levels_spec(),
    {
        self.by.len()
    }

    /// Whether the group query has answered.
    pub fn is_loaded(&self) -> (b: bool)
        ensures
            b == self.groups_spec() is Some,
    {
        self.groups.is_some()
    }

    fn open1(&self, k: &Key) -> (r: bool)
        ensures
            r == self.is_open(seq![k@]),
    {
        let mut i: usize = 0;
        while i < self.expanded.len()
            invariant
                i <= self.expanded.len(),
                forall|j: int| 0 <= j < i ==> self.expanded_view()[j] != seq![k@],
            decreases self.expanded.len() - i,
        {
            let path = &self.expanded[i];
            proof {
                assert(self.expanded_view()[i as int] == keys_view(path@));
            }
            if path.len() == 1 && key_eq(&path[0], k) {
                proof {
                    assert(keys_view(path@) =~= seq![k@]);
                }
                return true;
            }
            proof {
                if path.len() == 1 {
                    assert(keys_view(path@)[0] != k@);
                }
            }
            i = i + 1;
        }
        false
    }

    fn open2(&self, k1: &Key, k2: &Key) -> (r: bool)
        ensures
            r == self.is_open(seq![k1@, k2@]),
    {
        let mut i: usize = 0;
        while i < self.expanded.len()
            invariant
                i <= self.expanded.len(),
                forall|j: int| 0 <= j < i ==> self.expanded_view()[j] != seq![k1@, k2@],
            decreases self.expanded.len() - i,
        {
            let path = &self.expanded[i];
            proof {
                assert(self.expanded_view()[i as int] == keys_view(path@));
            }
            if path.len() == 2 && key_eq(&path[0], k1) && key_eq(&path[1], k2) {
                proof {
                    assert(keys_view(path@) =~= seq![k1@, k2@]);
                }
                return true;
            }
            proof {
                if path.len() == 2 {
                    assert(keys_view(path@)[0] != k1@ || keys_view(path@)[1] != k2@);
                }
            }
            i = i + 1;
        }
        false
    }

    /// Whether the path is expanded.
    fn path_open(&self, path: &[Key]) -> (r: bool)
        ensures
            r == self.is_open(keys_view(path@)),
    {
        let mut i: usize = 0;
        while i < self.expanded.len()
            invariant
                i <= self.expanded.len(),
                forall|j: int| 0 <= j < i ==> self.expanded_view()[j] != keys_view(path@),
            decreases self.expanded.len() - i,
        {
            proof {
                assert(self.expanded_view()[i as int] == keys_view(self.expanded@[i as int]@));
            }
            if keys_eq(self.expanded[i].as_slice(), path) {
                return true;
            }
            i = i + 1;
        }
        false
    }

    fn child_size_exec(&self, parent: &Key, child: &Group<V>) -> (n: u64)
        requires
            1 + child.count <= u64::MAX,
        ensures
            n == self.child_size(parent@, *child),
    {
        if self.open2(parent, &child.key) {
            1 + child.count
        } else {
            1
        }
    }

    fn size_exec(&self, g: &Group<V>) -> (n: u64)
        requires
            cap_of(*g) <= u64::MAX,
        ensures
            n == self.size_of(*g),
    {
        if !self.open1(&g.key) {
            return 1;
        }
        if self.by.len() < 2 {
            return 1 + g.count;
        }
        match &g.children {
            None => 1,
            Some(cs) => {
                let mut at: u64 = 1;
                let mut i: usize = 0;
                while i < cs.len()
                    invariant
                        i <= cs.len(),
                        cap_of(*g) <= u64::MAX,
                        g.children == Some(*cs),
                        at == 1 + self.children_size(g.key@, cs@.take(i as int)),
                    decreases cs.len() - i,
                {
                    proof {
                        assert(cs@.take(i + 1).drop_last() =~= cs@.take(i as int));
                        assert(cs@.take(i + 1).last() == cs@[i as int]);
                        self.lemma_children_size_le(g.key@, cs@.take(i + 1));
                        lemma_count_sum_le_cap(cs@.take(i + 1));
                        lemma_count_prefix(cs@, i + 1);
                    }
                    let size = self.child_size_exec(&g.key, &cs[i]);
                    at = at + size;
                    i = i + 1;
                }
                proof {
                    assert(cs@.take(cs.len() as int) =~= cs@);
                }
                at
            },
        }
    }

    /// Recomputes the starts of the level-1 groups.
    fn relayout(&mut self)
        requires
            fits(old(self).group_seq()),
            sorted_paths(old(self).expanded_view()),
            distinct_paths(old(self).expanded_view()),
        ensures
            final(self).wf(),
            final(self).by == old(self).by,
            final(self).groups == old(self).groups,
            final(self).expanded == old(self).expanded,
            final(self).aggregates == old(self).aggregates,
            final(self).total == old(self).total,
    {
        let mut starts: Vec<u64> = Vec::new();
        match &self.groups {
            None => {},
            Some(gs) => {
                let mut at: u64 = 0;
                let mut i: usize = 0;
                while i < gs.len()
                    invariant
                        i <= gs.len(),
                        self.groups == Some(*gs),
                        fits(gs@),
                        at == self.span(gs@.take(i as int)),
                        starts@.len() == i,
                        forall|j: int|
                            0 <= j < i ==> #[trigger] starts@[j] == self.span(gs@.take(j)),
                    decreases gs.len() - i,
                {
                    proof {
                        self.lemma_span_step(gs@, i as int);
                        self.lemma_span_le_cap(gs@.take(i + 1));
                        Self::lemma_cap_prefix(gs@, i + 1);
                        self.lemma_size_le_cap(gs@[i as int]);
                        assert(gs@.take(i + 1).drop_last() =~= gs@.take(i as int));
                        assert(cap_of(gs@[i as int]) <= cap_sum(gs@.take(i + 1)));
                    }
                    starts.push(at);
                    let size = self.size_exec(&gs[i]);
                    at = at + size;
                    i = i + 1;
                }
                proof {
                    assert(gs@.take(gs.len() as int) =~= gs@);
                }
                starts.push(at);
                proof {
                    assert forall|j: int| 0 <= j <= gs@.len() implies #[trigger] starts@[j]
                        == self.span(gs@.take(j)) by {
                        if j == gs@.len() {
                            assert(starts@[j] == at);
                        }
                    }
                }
            },
        }
        self.starts = starts;
    }

    /// Replaces the level-1 groups, keeping what was expanded.
    ///
    /// Expanded paths that no longer exist stay and match nothing: a filter
    /// that hides a group and one that brings it back find it open again.
    pub fn set_groups(&mut self, groups: Vec<Group<V>>)
        requires
            old(self).wf(),
            fits(groups@),
        ensures
            final(self).wf(),
            final(self).groups_spec() == Some(groups@),
            final(self).by_view() == old(self).by_view(),
            final(self).levels_spec() == old(self).levels_spec(),
            final(self).aggregates_view() == old(self).aggregates_view(),
            final(self).expanded_view() == old(self).expanded_view(),
            final(self).total_spec() == old(self).total_spec(),
    {
        self.groups = Some(groups);
        self.relayout();
    }

    /// Drops the loaded groups (a filter changed), keeping what is expanded.
    pub fn invalidate(&mut self)
        requires
            old(self).wf(),
        ensures
            final(self).wf(),
            final(self).groups_spec() is None,
            final(self).total_spec() is None,
            final(self).by_view() == old(self).by_view(),
            final(self).levels_spec() == old(self).levels_spec(),
            final(self).aggregates_view() == old(self).aggregates_view(),
            final(self).expanded_view() == old(self).expanded_view(),
    {
        self.groups = None;
        self.total = None;
        self.starts = Vec::new();
        proof {
            assert(self.group_seq() =~= Seq::<Group<V>>::empty());
        }
    }

    /// The grand total's aggregates.
    pub fn set_total(&mut self, total: Vec<V>)
        requires
            old(self).wf(),
        ensures
            final(self).wf(),
            final(self).total_spec() == Some(total@),
            final(self).groups_spec() == old(self).groups_spec(),
            final(self).by_view() == old(self).by_view(),
            final(self).levels_spec() == old(self).levels_spec(),
            final(self).aggregates_view() == old(self).aggregates_view(),
            final(self).expanded_view() == old(self).expanded_view(),
    {
        self.total = Some(total);
    }

    /// Opens or closes a group. Answers whether it is open now. The open
    /// paths stay sorted by their key texts: an open path is taken out, a
    /// closed one goes in where it sorts.
    pub fn toggle(&mut self, keys: &[Key]) -> (open: bool)
        requires
            old(self).wf(),
        ensures
            final(self).wf(),
            open == !old(self).is_open(keys_view(keys@)),
            final(self).is_open(keys_view(keys@)) == open,
            forall|p: Seq<KeyV>|
                p != keys_view(keys@) ==> final(self).is_open(p) == old(self).is_open(p),
            toggled(old(self).expanded_view(), final(self).expanded_view(), keys_view(keys@)),
            final(self).groups_spec() == old(self).groups_spec(),
            final(self).total_spec() == old(self).total_spec(),
            final(self).by_view() == old(self).by_view(),
            final(self).levels_spec() == old(self).levels_spec(),
            final(self).aggregates_view() == old(self).aggregates_view(),
    {
        let ghost path = keys_view(keys@);
        let ghost before = self.expanded_view();
        match position_of_path(&self.expanded, keys) {
            Some(k) => {
                let _gone = self.expanded.remove(k);
                proof {
                    assert(self.expanded_view() =~= before.remove(k as int));
                    lemma_remove_sorted(before, k as int);
                    assert(before.contains(path));
                    assert forall|p: Seq<KeyV>| #[trigger] self.expanded_view().contains(p) == (
                    before.contains(p) && p != path) by {
                        let e = self.expanded_view();
                        if e.contains(p) {
                            let j = choose|j: int| 0 <= j < e.len() && e[j] == p;
                            if j < k {
                                assert(before[j] == p);
                                assert(j != k);
                            } else {
                                assert(before[j + 1] == p);
                            }
                        }
                        if before.contains(p) && p != path {
                            let j = choose|j: int| 0 <= j < before.len() && before[j] == p;
                            assert(j != k);
                            if j < k {
                                assert(e[j] == p);
                            } else {
                                assert(e[j - 1] == p);
                            }
                        }
                    }
                }
                self.relayout();
                false
            },
            None => {
                insert_path(&mut self.expanded, keys);
                proof {
                    let e = self.expanded_view();
                    let u = upper(before, path_text(path)) as int;
                    lemma_upper(before, path_text(path));
                    assert(e[u] == path);
                    assert forall|p: Seq<KeyV>| p != path implies #[trigger] e.contains(p)
                        == before.contains(p) by {
                        if e.contains(p) {
                            let j = choose|j: int| 0 <= j < e.len() && e[j] == p;
                            if j < u {
                                assert(before[j] == p);
                            } else {
                                assert(j != u);
                                assert(before[j - 1] == p);
                            }
                        }
                        if before.contains(p) {
                            let j = choose|j: int| 0 <= j < before.len() && before[j] == p;
                            if j < u {
                                assert(e[j] == p);
                            } else {
                                assert(e[j + 1] == p);
                            }
                        }
                    }
                }
                self.relayout();
                true
            },
        }
    }

    /// Length of the display list: group headers, the rows of open groups and
    /// the total row. What `aria-rowcount` is computed from.
    pub fn len(&self) -> (n: u64)
        requires
            self.wf(),
        ensures
            n == self.len_spec(),
    {
        match &self.groups {
            None => 0,
            Some(gs) => {
                let end = self.starts[gs.len()];
                proof {
                    assert(gs@.take(gs@.len() as int) =~= gs@);
                    self.lemma_span_le_cap(gs@);
                }
                if end > 0 {
                    end + 1
                } else {
                    0
                }
            },
        }
    }

    /// Whether the display list is empty (no groups, or not loaded).
    pub fn is_empty(&self) -> (b: bool)
        requires
            self.wf(),
        ensures
            b == (self.len_spec() == 0),
    {
        self.len() == 0
    }

    /// Data rows across every group — what the status line calls "matches";
    /// not the length of the display list, which counts the headers too.
    pub fn row_count(&self) -> (n: u64)
        requires
            self.wf(),
        ensures
            n == count_sum(self.group_seq()),
    {
        match &self.groups {
            None => 0,
            Some(gs) => {
                let mut sum: u64 = 0;
                let mut i: usize = 0;
                proof {
                    lemma_count_sum_le_cap(gs@);
                }
                while i < gs.len()
                    invariant
                        i <= gs.len(),
                        count_sum(gs@) <= u64::MAX,
                        sum == count_sum(gs@.take(i as int)),
                    decreases gs.len() - i,
                {
                    proof {
                        assert(gs@.take(i + 1).drop_last() =~= gs@.take(i as int));
                        lemma_count_prefix(gs@, i + 1);
                    }
                    sum = sum + gs[i].count;
                    i = i + 1;
                }
                proof {
                    assert(gs@.take(gs.len() as int) =~= gs@);
                }
                sum
            },
        }
    }
}

// ---------------------------------------------------------------------------
// What sits where
// ---------------------------------------------------------------------------
/// A position of the display list, by what it shows.
pub enum Place {
    /// The header of level-1 group `group`.
    Header1 { group: int },
    /// The header of subgroup `child` of level-1 group `group`.
    Header2 { group: int, child: int },
    /// Row `offset` of level-1 group `group` (one level).
    Row1 { group: int, offset: int },
    /// Row `offset` of subgroup `child` of level-1 group `group`.
    Row2 { group: int, child: int, offset: int },
    /// The total row.
    Total,
}

/// Both lists clone each other element by element.
pub open spec fn all_cloned<V: Clone>(a: Seq<V>, b: Seq<V>) -> bool {
    &&& a.len() == b.len()
    &&& forall|i: int| 0 <= i < a.len() ==> cloned::<V>(a[i], b[i])
}

impl<V> Grouping<V> {
    /// Where subgroup `c` of `g` starts, counted after `g`'s header.
    pub open spec fn child_start(self, g: Group<V>, c: int) -> nat {
        match g.children {
            Some(cs) => self.children_size(g.key@, cs@.take(c)),
            None => 0,
        }
    }

    /// The level-1 group that covers `pos`.
    pub open spec fn covers(self, i: int, pos: int) -> bool {
        &&& 0 <= i < self.group_seq().len()
        &&& self.start_of(i) <= pos < self.start_of(i + 1)
    }

    /// The subgroup of `g` that covers `rest` positions after its header.
    pub open spec fn child_covers(self, g: Group<V>, c: int, rest: int) -> bool {
        match g.children {
            Some(cs) => 0 <= c < cs@.len() && self.child_start(g, c) <= rest < self.child_start(
                g,
                c + 1,
            ),
            None => false,
        }
    }

    /// What the display list shows at `pos`.
    pub open spec fn place(self, pos: int) -> Option<Place> {
        if self.groups_spec() is None || pos < 0 || pos >= self.len_spec() {
            None
        } else if pos == self.groups_end() {
            Some(Place::Total)
        } else {
            let i = choose|i: int| self.covers(i, pos);
            let g = self.group_seq()[i];
            let inside = pos - self.start_of(i);
            if inside == 0 {
                Some(Place::Header1 { group: i })
            } else if self.levels_spec() < 2 {
                Some(Place::Row1 { group: i, offset: inside - 1 })
            } else {
                let rest = inside - 1;
                let c = choose|c: int| self.child_covers(g, c, rest);
                let within = rest - self.child_start(g, c);
                if within == 0 {
                    Some(Place::Header2 { group: i, child: c })
                } else {
                    Some(Place::Row2 { group: i, child: c, offset: within - 1 })
                }
            }
        }
    }
}

impl<V: Clone> Grouping<V> {
    /// The item is what the place shows: its keys, its count, whether it is
    /// open, and copies of its aggregates.
    pub open spec fn shows(self, item: Item<V>, place: Place) -> bool {
        let gs = self.group_seq();
        match place {
            Place::Header1 { group } => {
                let g = gs[group];
                item matches Item::Group { level, keys, count, expanded, aggregates } && level == 1
                    && keys_view(keys@) == seq![g.key@] && count == g.count && expanded
                    == self.is_open(seq![g.key@]) && all_cloned(g.aggregates@, aggregates@)
            },
            Place::Header2 { group, child } => {
                let g = gs[group];
                let ch = g.children->Some_0@[child];
                item matches Item::Group { level, keys, count, expanded, aggregates } && level == 2
                    && keys_view(keys@) == seq![g.key@, ch.key@] && count == ch.count && expanded
                    == (self.child_size(g.key@, ch) > 1) && all_cloned(
                    ch.aggregates@,
                    aggregates@,
                )
            },
            Place::Row1 { group, offset } => {
                let g = gs[group];
                item matches Item::Row { keys, offset: o } && keys_view(keys@) == seq![g.key@] && o
                    == offset
            },
            Place::Row2 { group, child, offset } => {
                let g = gs[group];
                let ch = g.children->Some_0@[child];
                item matches Item::Row { keys, offset: o } && keys_view(keys@) == seq![
                    g.key@,
                    ch.key@,
                ] && o == offset
            },
            Place::Total => {
                item matches Item::Total { count, aggregates } && count == count_sum(gs) && match
                    self.total_spec() {
                    Some(t) => all_cloned(t, aggregates@),
                    None => aggregates@.len() == 0,
                }
            },
        }
    }
}

impl<V> Grouping<V> {
    proof fn lemma_child_size_pos(self, parent: KeyV, cs: Seq<Group<V>>, a: int, b: int)
        requires
            0 <= a <= b <= cs.len(),
        ensures
            self.children_size(parent, cs.take(a)) + (b - a) <= self.children_size(
                parent,
                cs.take(b),
            ),
        decreases b - a,
    {
        if a < b {
            self.lemma_child_size_pos(parent, cs, a, b - 1);
            assert(cs.take(b).drop_last() =~= cs.take(b - 1));
        }
    }

    /// Only one level-1 group covers a position.
    proof fn lemma_covers_unique(self, i: int, j: int, pos: int)
        requires
            self.covers(i, pos),
            self.covers(j, pos),
        ensures
            i == j,
    {
        let gs = self.group_seq();
        if i < j {
            self.lemma_span_mono(gs, i + 1, j);
        } else if j < i {
            self.lemma_span_mono(gs, j + 1, i);
        }
    }

    proof fn lemma_child_covers_unique(self, g: Group<V>, c: int, d: int, rest: int)
        requires
            self.child_covers(g, c, rest),
            self.child_covers(g, d, rest),
        ensures
            c == d,
    {
        let cs = g.children->Some_0@;
        if c < d {
            self.lemma_child_size_pos(g.key@, cs, c + 1, d);
        } else if d < c {
            self.lemma_child_size_pos(g.key@, cs, d + 1, c);
        }
    }
}

impl<V> Grouping<V> {
    /// Some level-1 group covers every position before the start of group `k`.
    proof fn lemma_some_cover(self, k: int, pos: int)
        requires
            0 <= k <= self.group_seq().len(),
            0 <= pos < self.start_of(k),
        ensures
            exists|i: int| self.covers(i, pos),
        decreases k,
    {
        assert(self.group_seq().take(0) =~= Seq::<Group<V>>::empty());
        if pos >= self.start_of(k - 1) {
            self.lemma_span_step(self.group_seq(), k - 1);
            assert(self.covers(k - 1, pos));
        } else {
            self.lemma_some_cover(k - 1, pos);
        }
    }

    /// Some subgroup of `g` covers every place before the start of its
    /// subgroup `k`.
    proof fn lemma_some_child_cover(self, g: Group<V>, k: int, rest: int)
        requires
            g.children is Some,
            0 <= k <= g.children->Some_0@.len(),
            0 <= rest < self.child_start(g, k),
        ensures
            exists|c: int| self.child_covers(g, c, rest),
        decreases k,
    {
        let cs = g.children->Some_0@;
        assert(cs.take(0) =~= Seq::<Group<V>>::empty());
        if rest >= self.child_start(g, k - 1) {
            assert(self.child_covers(g, k - 1, rest));
        } else {
            self.lemma_some_child_cover(g, k - 1, rest);
        }
    }

    /// What `item_at` answers, once the groups are loaded: something exactly
    /// for the positions inside the display list; the last of them is the
    /// total row; and a row's offset lies inside the group that holds it.
    pub proof fn lemma_places(self, pos: int)
        requires
            self.groups_spec() is Some,
        ensures
            self.place(pos) is Some <==> 0 <= pos < self.len_spec(),
            self.len_spec() > 0 ==> self.place(self.len_spec() - 1) == Some(Place::Total),
            self.place(pos) matches Some(Place::Row1 { group, offset }) ==> 0 <= offset
                < self.group_seq()[group].count,
            self.place(pos) matches Some(Place::Row2 { group, child, offset }) ==> 0 <= offset
                < self.group_seq()[group].children->Some_0@[child].count,
    {
        let gs = self.group_seq();
        if 0 <= pos < self.len_spec() && pos != self.groups_end() {
            assert(gs.take(gs.len() as int) =~= gs);
            self.lemma_some_cover(gs.len() as int, pos);
            let i = choose|i: int| self.covers(i, pos);
            let g = gs[i];
            self.lemma_span_step(gs, i);
            let inside = pos - self.start_of(i);
            assert(inside < self.size_of(g));
            if inside > 0 && self.levels_spec() >= 2 {
                let cs = g.children->Some_0@;
                assert(g.children is Some);
                assert(cs.take(cs.len() as int) =~= cs);
                let rest = inside - 1;
                self.lemma_some_child_cover(g, cs.len() as int, rest);
                let c = choose|c: int| self.child_covers(g, c, rest);
                assert(cs.take(c + 1).drop_last() =~= cs.take(c));
            }
        }
    }
}

impl<V: Clone> Grouping<V> {
    /// What sits at `position`, or `None` past the end.
    ///
    /// Binary search over the level-1 starts, then a walk inside one group —
    /// logarithmic in the number of groups, not linear in rows.
    pub fn item_at(&self, position: u64) -> (item: Option<Item<V>>)
        requires
            self.wf(),
        ensures
            match self.place(position as int) {
                None => item is None,
                Some(place) => item is Some && self.shows(item->Some_0, place),
            },
    {
        let groups = match &self.groups {
            None => return None,
            Some(gs) => gs,
        };
        let n = groups.len();
        let end = self.starts[n];
        proof {
            assert(groups@.take(n as int) =~= groups@);
            self.lemma_span_le_cap(groups@);
        }
        let len = self.len();
        if position >= len {
            return None;
        }
        if position == end {
            let aggregates = match &self.total {
                Some(t) => t.clone(),
                None => Vec::new(),
            };
            let count = self.row_count();
            return Some(Item::Total { count, aggregates });
        }
        // The last start that is <= position.
        let mut lo: usize = 0;
        let mut hi: usize = n;
        proof {
            assert(self.starts@[0] == self.start_of(0));
            assert(groups@.take(0) =~= Seq::<Group<V>>::empty());
        }
        while hi - lo > 1
            invariant
                self.wf(),
                self.groups == Some(*groups),
                n == groups@.len(),
                lo < hi <= n,
                self.starts@[lo as int] <= position < self.starts@[hi as int],
            decreases hi - lo,
        {
            let mid = lo + (hi - lo) / 2;
            if self.starts[mid] <= position {
                lo = mid;
            } else {
                hi = mid;
            }
        }
        let index = lo;
        proof {
            assert(self.covers(index as int, position as int));
            let i = choose|i: int| self.covers(i, position as int);
            self.lemma_covers_unique(i, index as int, position as int);
        }
        let group = &groups[index];
        let inside = position - self.starts[index];
        let open = self.open1(&group.key);
        if inside == 0 {
            let keys = vec![copy_key(&group.key)];
            proof {
                assert(keys_view(keys@) =~= seq![group.key@]);
            }
            return Some(
                Item::Group {
                    level: 1,
                    keys,
                    count: group.count,
                    expanded: open,
                    aggregates: group.aggregates.clone(),
                },
            );
        }
        let rest = inside - 1;
        if self.by.len() < 2 {
            let keys = vec![copy_key(&group.key)];
            proof {
                assert(keys_view(keys@) =~= seq![group.key@]);
            }
            return Some(Item::Row { keys, offset: rest });
        }
        proof {
            self.lemma_span_step(groups@, index as int);
            self.lemma_size_le_cap(*group);
            Self::lemma_cap_prefix(groups@, index + 1);
            self.lemma_span_le_cap(groups@.take(index + 1));
            assert(groups@.take(index + 1).drop_last() =~= groups@.take(index as int));
            assert(groups@.take(index + 1).last() == *group);
            assert(cap_of(*group) <= cap_sum(groups@.take(index + 1)));
        }
        match &group.children {
            None => {
                proof {
                    assert(false);
                }
                None
            },
            Some(cs) => {
                let mut at: u64 = 0;
                let mut c: usize = 0;
                proof {
                    assert(cs@.take(0) =~= Seq::<Group<V>>::empty());
                    self.lemma_children_size_le(group.key@, cs@);
                }
                while c < cs.len()
                    invariant
                        c <= cs.len(),
                        group.children == Some(*cs),
                        cap_of(*group) <= u64::MAX,
                        self.open1_spec(group.key@),
                        self.wf(),
                        self.groups == Some(*groups),
                        index < groups@.len(),
                        *group == groups@[index as int],
                        self.covers(index as int, position as int),
                        self.start_of(index as int) == self.starts@[index as int],
                        rest == position - self.starts@[index as int] - 1,
                        self.levels_spec() >= 2,
                        position < self.len_spec(),
                        position != self.groups_end(),
                        rest < self.children_size(group.key@, cs@),
                        at == self.child_start(*group, c as int),
                        at <= rest,
                    decreases cs.len() - c,
                {
                    let child = &cs[c];
                    proof {
                        assert(cs@.take(c + 1).drop_last() =~= cs@.take(c as int));
                        assert(cs@.take(c + 1).last() == *child);
                        self.lemma_children_size_le(group.key@, cs@.take(c + 1));
                        lemma_count_prefix(cs@, c + 1);
                        lemma_count_sum_le_cap(cs@);
                        self.lemma_child_size_pos(group.key@, cs@, c + 1, cs@.len() as int);
                        assert(cs@.take(cs@.len() as int) =~= cs@);
                    }
                    let size = self.child_size_exec(&group.key, child);
                    if rest - at < size {
                        let within = rest - at;
                        proof {
                            assert(self.child_covers(*group, c as int, rest as int));
                            let d = choose|d: int| self.child_covers(*group, d, rest as int);
                            self.lemma_child_covers_unique(*group, d, c as int, rest as int);
                            let i = choose|i: int| self.covers(i, position as int);
                            self.lemma_covers_unique(i, index as int, position as int);
                            assert(self.group_seq()[index as int] == *group);
                            assert(self.start_of(index as int) == self.starts@[index as int]);
                            assert(group.children->Some_0@[c as int] == *child);
                            if within == 0 {
                                assert(self.place(position as int) == Some(
                                    Place::Header2 { group: index as int, child: c as int },
                                ));
                            } else {
                                assert(self.place(position as int) == Some(
                                    Place::Row2 {
                                        group: index as int,
                                        child: c as int,
                                        offset: within - 1,
                                    },
                                ));
                            }
                        }
                        let keys = vec![copy_key(&group.key), copy_key(&child.key)];
                        proof {
                            assert(keys_view(keys@) =~= seq![group.key@, child.key@]);
                        }
                        if within == 0 {
                            return Some(
                                Item::Group {
                                    level: 2,
                                    keys,
                                    count: child.count,
                                    expanded: size > 1,
                                    aggregates: child.aggregates.clone(),
                                },
                            );
                        } else {
                            return Some(Item::Row { keys, offset: within - 1 });
                        }
                    }
                    at = at + size;
                    c = c + 1;
                }
                proof {
                    assert(cs@.take(cs.len() as int) =~= cs@);
                    assert(false);
                }
                None
            },
        }
    }
}

// ---------------------------------------------------------------------------
// Positions of groups and the fetches of a window
// ---------------------------------------------------------------------------
/// A fetch as values.
pub struct FetchV {
    pub keys: Seq<KeyV>,
    pub offset: int,
    pub limit: int,
    pub position: int,
}

pub open spec fn fetch_view(f: Fetch) -> FetchV {
    FetchV {
        keys: keys_view(f.keys@),
        offset: f.offset as int,
        limit: f.limit as int,
        position: f.position as int,
    }
}

/// Fetch `f` continues fetch `e`: the same group, its next row, at the next
/// position.
pub open spec fn continues(e: FetchV, f: FetchV) -> bool {
    e.keys == f.keys && e.offset + e.limit == f.offset && e.position + e.limit == f.position
}

/// Fetch `f` covers position `p`.
pub open spec fn fetch_covers(f: FetchV, p: int) -> bool {
    f.position <= p < f.position + f.limit
}

/// The first group with this key, or `-1`.
pub open spec fn first_with<V>(gs: Seq<Group<V>>, k: KeyV) -> int
    decreases gs.len(),
{
    if gs.len() == 0 {
        -1
    } else if gs[0].key@ == k {
        0
    } else {
        let rest = first_with(gs.drop_first(), k);
        if rest < 0 {
            -1
        } else {
            rest + 1
        }
    }
}

proof fn lemma_first_with<V>(gs: Seq<Group<V>>, k: KeyV)
    ensures
        -1 <= first_with(gs, k) < gs.len(),
        first_with(gs, k) >= 0 ==> gs[first_with(gs, k)].key@ == k,
        forall|j: int|
            0 <= j < gs.len() && (first_with(gs, k) < 0 || j < first_with(gs, k)) ==> gs[j].key@
                != k,
    decreases gs.len(),
{
    if gs.len() > 0 && gs[0].key@ != k {
        lemma_first_with(gs.drop_first(), k);
        assert forall|j: int|
            0 <= j < gs.len() && (first_with(gs, k) < 0 || j < first_with(gs, k)) implies gs[j].key@
            != k by {
            if j > 0 {
                assert(gs.drop_first()[j - 1] == gs[j]);
            }
        }
    }
}

fn find_key<V>(gs: &Vec<Group<V>>, k: &Key) -> (r: Option<usize>)
    ensures
        match r {
            Some(i) => i == first_with(gs@, k@) && i < gs@.len(),
            None => first_with(gs@, k@) < 0,
        },
{
    let mut i: usize = 0;
    proof {
        lemma_first_with(gs@, k@);
    }
    while i < gs.len()
        invariant
            i <= gs.len(),
            forall|j: int| 0 <= j < i ==> gs@[j].key@ != k@,
            -1 <= first_with(gs@, k@) < gs@.len(),
            first_with(gs@, k@) >= 0 ==> gs@[first_with(gs@, k@)].key@ == k@,
            forall|j: int|
                0 <= j < gs@.len() && (first_with(gs@, k@) < 0 || j < first_with(gs@, k@))
                    ==> gs@[j].key@ != k@,
        decreases gs.len() - i,
    {
        if key_eq(&gs[i].key, k) {
            return Some(i);
        }
        i = i + 1;
    }
    None
}

impl<V> Grouping<V> {
    /// Where the header of the group with these keys sits, if it is visible.
    pub open spec fn position_spec(self, keys: Seq<KeyV>) -> Option<int> {
        let gs = self.group_seq();
        if self.groups_spec() is None || keys.len() == 0 {
            None
        } else {
            let i = first_with(gs, keys[0]);
            if i < 0 {
                None
            } else if keys.len() == 1 {
                Some(self.start_of(i) as int)
            } else if !self.is_open(seq![gs[i].key@]) {
                None
            } else {
                match gs[i].children {
                    None => None,
                    Some(cs) => {
                        let c = first_with(cs@, keys[1]);
                        if c < 0 {
                            None
                        } else {
                            Some(self.start_of(i) + 1 + self.child_start(gs[i], c) as int)
                        }
                    },
                }
            }
        }
    }

    /// The row a position shows: its group's keys and its index there.
    pub open spec fn row_at(self, pos: int) -> Option<(Seq<KeyV>, int)> {
        let gs = self.group_seq();
        match self.place(pos) {
            Some(Place::Row1 { group, offset }) => Some((seq![gs[group].key@], offset)),
            Some(Place::Row2 { group, child, offset }) => {
                let g = gs[group];
                Some((seq![g.key@, g.children->Some_0@[child].key@], offset))
            },
            _ => None,
        }
    }

    /// The fetches for the positions `start..end`: consecutive rows of one
    /// group become one fetch.
    pub open spec fn fetch_list(self, start: int, end: int) -> Seq<FetchV>
        decreases end - start,
    {
        if end <= start {
            Seq::empty()
        } else {
            let prev = self.fetch_list(start, end - 1);
            match self.row_at(end - 1) {
                None => prev,
                Some((keys, offset)) => {
                    if prev.len() > 0 && prev.last().keys == keys && prev.last().offset
                        + prev.last().limit == offset && prev.last().position + prev.last().limit
                        == end - 1 {
                        prev.update(
                            prev.len() - 1,
                            FetchV { limit: prev.last().limit + 1, ..prev.last() },
                        )
                    } else {
                        prev.push(FetchV { keys, offset, limit: 1, position: end - 1 })
                    }
                },
            }
        }
    }
}

impl<V: Clone> Grouping<V> {
    /// The fetches `fs` serve the positions `start..end`: each asks at
    /// least one row and stays inside; each covers rows of one group in
    /// order, position by position; they come in the order of their
    /// positions without overlapping; none continues the one before it; and
    /// every row position is covered.
    pub open spec fn fetches_serve(self, fs: Seq<FetchV>, start: int, end: int) -> bool {
        &&& forall|j: int|
            0 <= j < fs.len() ==> 1 <= #[trigger] fs[j].limit && start <= fs[j].position
                && fs[j].position + fs[j].limit <= end
        &&& forall|j: int, p: int|
            0 <= j < fs.len() && #[trigger] fetch_covers(fs[j], p) ==> self.row_at(p) == Some(
                (fs[j].keys, fs[j].offset + (p - fs[j].position)),
            )
        &&& forall|j: int, k: int|
            #![trigger fs[j], fs[k]]
            0 <= j < k < fs.len() ==> fs[j].position + fs[j].limit <= fs[k].position
        &&& forall|j: int, k: int|
            0 <= j && k == j + 1 && k < fs.len() ==> !#[trigger] continues(fs[j], fs[k])
        &&& forall|p: int|
            start <= p < end && (#[trigger] self.row_at(p)) is Some ==> exists|j: int|
                0 <= j < fs.len() && #[trigger] fetch_covers(fs[j], p)
    }

    /// The fetches of a window serve it: see `fetches_serve`.
    pub proof fn lemma_fetch_list(self, start: int, end: int)
        ensures
            self.fetches_serve(self.fetch_list(start, end), start, end),
        decreases end - start,
    {
        if end > start {
            let prev = self.fetch_list(start, end - 1);
            self.lemma_fetch_list(start, end - 1);
            let fs = self.fetch_list(start, end);
            match self.row_at(end - 1) {
                None => {
                    assert(fs == prev);
                    assert forall|p: int|
                        start <= p < end && (#[trigger] self.row_at(p)) is Some implies exists|j: int|
                        0 <= j < fs.len() && #[trigger] fetch_covers(fs[j], p) by {
                        assert(p < end - 1);
                    }
                },
                Some((keys, offset)) => {
                    let n = prev.len();
                    if n > 0 && prev.last().keys == keys && prev.last().offset + prev.last().limit
                        == offset && prev.last().position + prev.last().limit == end - 1 {
                        let last = prev.last();
                        let grown = FetchV { limit: last.limit + 1, ..last };
                        assert(fs == prev.update(n - 1, grown));
                        assert forall|j: int, p: int|
                            0 <= j < fs.len() && #[trigger] fetch_covers(fs[j], p) implies self.row_at(
                                p,
                            ) == Some((fs[j].keys, fs[j].offset + (p - fs[j].position))) by {
                            if j == n - 1 {
                                if p < end - 1 {
                                    assert(fetch_covers(prev[j], p));
                                }
                            } else {
                                assert(fetch_covers(prev[j], p));
                            }
                        }
                        assert forall|j: int, k: int|
                            0 <= j && k == j + 1 && k < fs.len() implies !#[trigger] continues(
                                fs[j],
                                fs[k],
                            ) by {
                            assert(!continues(prev[j], prev[k]));
                        }
                        assert forall|j: int, k: int|
                            #![trigger fs[j], fs[k]]
                            0 <= j < k < fs.len() implies fs[j].position + fs[j].limit
                            <= fs[k].position by {
                            assert(prev[j].position + prev[j].limit <= prev[k].position);
                        }
                        assert forall|p: int|
                            start <= p < end && (#[trigger] self.row_at(p)) is Some implies exists|
                            j: int,
                        | 0 <= j < fs.len() && #[trigger] fetch_covers(fs[j], p) by {
                            if p == end - 1 {
                                assert(fetch_covers(fs[n - 1], p));
                            } else {
                                let j = choose|j: int| 0 <= j < prev.len() && fetch_covers(prev[j], p);
                                assert(fetch_covers(fs[j], p));
                            }
                        }
                        assert forall|j: int| 0 <= j < fs.len() implies 1 <= #[trigger] fs[j].limit
                            && start <= fs[j].position && fs[j].position + fs[j].limit <= end by {
                            assert(prev[j].limit >= 1);
                        }
                    } else {
                        let f = FetchV { keys, offset, limit: 1, position: end - 1 };
                        assert(fs == prev.push(f));
                        assert forall|j: int, p: int|
                            0 <= j < fs.len() && #[trigger] fetch_covers(fs[j], p) implies self.row_at(
                                p,
                            ) == Some((fs[j].keys, fs[j].offset + (p - fs[j].position))) by {
                            if j < n {
                                assert(fetch_covers(prev[j], p));
                            }
                        }
                        assert forall|j: int, k: int|
                            0 <= j && k == j + 1 && k < fs.len() implies !#[trigger] continues(
                                fs[j],
                                fs[k],
                            ) by {
                            if k < n {
                                assert(!continues(prev[j], prev[k]));
                            } else {
                                assert(prev[j] == prev.last());
                            }
                        }
                        assert forall|j: int, k: int|
                            #![trigger fs[j], fs[k]]
                            0 <= j < k < fs.len() implies fs[j].position + fs[j].limit
                            <= fs[k].position by {
                            if k < n {
                                assert(prev[j].position + prev[j].limit <= prev[k].position);
                            } else {
                                assert(prev[j].position + prev[j].limit <= end - 1);
                            }
                        }
                        assert forall|p: int|
                            start <= p < end && (#[trigger] self.row_at(p)) is Some implies exists|
                            j: int,
                        | 0 <= j < fs.len() && #[trigger] fetch_covers(fs[j], p) by {
                            if p == end - 1 {
                                assert(fetch_covers(fs[n as int], p));
                            } else {
                                let j = choose|j: int| 0 <= j < prev.len() && fetch_covers(prev[j], p);
                                assert(fetch_covers(fs[j], p));
                            }
                        }
                        assert forall|j: int| 0 <= j < fs.len() implies 1 <= #[trigger] fs[j].limit
                            && start <= fs[j].position && fs[j].position + fs[j].limit <= end by {
                            if j < n {
                                assert(prev[j].limit >= 1);
                            }
                        }
                    }
                },
            }
        }
    }

    /// Where the header of the group with these keys sits, if it is visible.
    ///
    /// A group's own position does not move when it opens — only what comes
    /// after it does — while a level-2 group has none once its parent closes.
    pub fn position_of(&self, keys: &[Key]) -> (r: Option<u64>)
        requires
            self.wf(),
        ensures
            match self.position_spec(keys_view(keys@)) {
                Some(p) => r == Some(p as u64),
                None => r is None,
            },
    {
        let groups = match &self.groups {
            None => return None,
            Some(gs) => gs,
        };
        if keys.len() == 0 {
            return None;
        }
        proof {
            assert(keys_view(keys@)[0] == keys@[0]@);
        }
        let index = match find_key(groups, &keys[0]) {
            None => return None,
            Some(i) => i,
        };
        let start = self.starts[index];
        if keys.len() == 1 {
            return Some(start);
        }
        proof {
            assert(keys_view(keys@)[1] == keys@[1]@);
            self.lemma_span_le_cap(groups@);
            assert(groups@.take(groups@.len() as int) =~= groups@);
            self.lemma_span_mono(groups@, index + 1, groups@.len() as int);
            self.lemma_span_step(groups@, index as int);
            assert(self.starts@[index as int] == self.start_of(index as int));
            self.lemma_size_le_cap(groups@[index as int]);
            Self::lemma_cap_prefix(groups@, index + 1);
            self.lemma_span_le_cap(groups@.take(index + 1));
            assert(groups@.take(index + 1).drop_last() =~= groups@.take(index as int));
            assert(cap_of(groups@[index as int]) <= cap_sum(groups@.take(index + 1)));
        }
        let group = &groups[index];
        if !self.open1(&group.key) {
            return None;
        }
        let cs = match &group.children {
            None => return None,
            Some(cs) => cs,
        };
        let c = match find_key(cs, &keys[1]) {
            None => return None,
            Some(c) => c,
        };
        let mut at: u64 = start + 1;
        let mut j: usize = 0;
        proof {
            assert(cs@.take(0) =~= Seq::<Group<V>>::empty());
            self.lemma_child_size_pos(group.key@, cs@, c as int, cs@.len() as int);
            assert(cs@.take(cs@.len() as int) =~= cs@);
            self.lemma_children_size_le(group.key@, cs@);
            self.lemma_span_le_cap(groups@.take(index as int));
            Self::lemma_cap_prefix(groups@, index + 1);
            assert(groups@.take(index + 1).last() == *group);
        }
        while j < c
            invariant
                j <= c < cs@.len(),
                group.children == Some(*cs),
                cap_of(*group) <= u64::MAX,
                at == start + 1 + self.child_start(*group, j as int),
                start + 1 + self.child_start(*group, c as int) <= u64::MAX,
            decreases c - j,
        {
            proof {
                assert(cs@.take(j + 1).drop_last() =~= cs@.take(j as int));
                assert(cs@.take(j + 1).last() == cs@[j as int]);
                self.lemma_child_size_pos(group.key@, cs@, j + 1, c as int);
                lemma_count_sum_le_cap(cs@);
                lemma_count_prefix(cs@, j + 1);
                lemma_count_sum_le_cap(cs@.take(j + 1));
            }
            let size = self.child_size_exec(&group.key, &cs[j]);
            at = at + size;
            j = j + 1;
        }
        Some(at)
    }

    /// The row slices a window of `count` positions from `start` needs:
    /// consecutive rows of the same group become one fetch.
    pub fn fetches(&self, start: u64, count: u64) -> (out: Vec<Fetch>)
        requires
            self.wf(),
        ensures
            out@.map_values(|f: Fetch| fetch_view(f)) == self.fetch_list(
                start as int,
                crate::window::min_int(start + count, self.len_spec() as int),
            ),
    {
        let len = self.len();
        let end = match start.checked_add(count) {
            Some(e) => if e < len {
                e
            } else {
                len
            },
            None => len,
        };
        let mut out: Vec<Fetch> = Vec::new();
        let mut position = start;
        proof {
            if end <= start {
                assert(out@.map_values(|f: Fetch| fetch_view(f)) =~= self.fetch_list(
                    start as int,
                    end as int,
                ));
            }
        }
        while position < end
            invariant
                self.wf(),
                start <= position,
                end <= start ==> position == start,
                end > start ==> position <= end,
                end == crate::window::min_int(start + count, self.len_spec() as int),
                out@.map_values(|f: Fetch| fetch_view(f)) == self.fetch_list(
                    start as int,
                    position as int,
                ),
            decreases end - position,
        {
            let item = self.item_at(position);
            let ghost prev = out@.map_values(|f: Fetch| fetch_view(f));
            match item {
                Some(Item::Row { keys, offset }) => {
                    let n = out.len();
                    let mut grow = false;
                    if n > 0 {
                        let last = &out[n - 1];
                        if keys_eq(last.keys.as_slice(), keys.as_slice())
                            && last.offset.checked_add(last.limit) == Some(offset)
                            && last.position.checked_add(last.limit) == Some(position) {
                            grow = true;
                        }
                    }
                    proof {
                        assert(self.row_at(position as int) == Some(
                            (keys_view(keys@), offset as int),
                        ));
                        if n > 0 {
                            assert(prev.last() == fetch_view(out@[n - 1]));
                        }
                    }
                    if grow {
                        let last = out.pop().unwrap();
                        let Fetch { keys: lk, offset: lo, limit: ll, position: lp } = last;
                        out.push(Fetch { keys: lk, offset: lo, limit: ll + 1, position: lp });
                        proof {
                            assert(out@.map_values(|f: Fetch| fetch_view(f)) =~= prev.update(
                                prev.len() - 1,
                                FetchV { limit: prev.last().limit + 1, ..prev.last() },
                            ));
                        }
                    } else {
                        out.push(Fetch { keys, offset, limit: 1, position });
                        proof {
                            assert(out@.map_values(|f: Fetch| fetch_view(f)) =~= prev.push(
                                FetchV {
                                    keys: keys_view(keys@),
                                    offset: offset as int,
                                    limit: 1,
                                    position: position as int,
                                },
                            ));
                        }
                    }
                },
                _ => {
                    proof {
                        assert(self.row_at(position as int) is None);
                    }
                },
            }
            position = position + 1;
        }
        out
    }
}

// ---------------------------------------------------------------------------
// Aggregates, subgroups and the expanded set
// ---------------------------------------------------------------------------
/// The level-1 groups that are open on two levels but whose subgroups have
/// not been fetched: their keys, in order.
pub open spec fn missing_keys<V>(open: Seq<Seq<KeyV>>, gs: Seq<Group<V>>) -> Seq<KeyV>
    decreases gs.len(),
{
    if gs.len() == 0 {
        Seq::empty()
    } else {
        let rest = missing_keys(open, gs.drop_last());
        let g = gs.last();
        if g.children is None && open.contains(seq![g.key@]) {
            rest.push(g.key@)
        } else {
            rest
        }
    }
}

/// The paths a view may restore: not empty, no deeper than the levels, each
/// once, in the order given.
pub open spec fn restorable(paths: Seq<Seq<KeyV>>, levels: nat) -> Seq<Seq<KeyV>>
    decreases paths.len(),
{
    if paths.len() == 0 {
        Seq::empty()
    } else {
        let rest = restorable(paths.drop_last(), levels);
        let p = paths.last();
        if p.len() > 0 && p.len() <= levels && !rest.contains(p) {
            rest.push(p)
        } else {
            rest
        }
    }
}

fn same_summaries(a: &[(String, Summary)], b: &[(String, Summary)]) -> (r: bool)
    ensures
        r == (summaries_view(a@) == summaries_view(b@)),
{
    if a.len() != b.len() {
        proof {
            assert(summaries_view(a@).len() != summaries_view(b@).len());
        }
        return false;
    }
    let mut i: usize = 0;
    while i < a.len()
        invariant
            a.len() == b.len(),
            i <= a.len(),
            forall|j: int| 0 <= j < i ==> summaries_view(a@)[j] == summaries_view(b@)[j],
        decreases a.len() - i,
    {
        let (an, asum) = &a[i];
        let (bn, bsum) = &b[i];
        if !(*an == *bn && *asum == *bsum) {
            proof {
                assert(summaries_view(a@)[i as int] != summaries_view(b@)[i as int]);
            }
            return false;
        }
        i = i + 1;
    }
    proof {
        assert(summaries_view(a@) =~= summaries_view(b@));
    }
    true
}

impl<V> Grouping<V> {
    /// The aggregates the groups show.
    pub fn aggregates(&self) -> (r: &[(String, Summary)])
        ensures
            summaries_view(r@) == self.aggregates_view(),
    {
        self.aggregates.as_slice()
    }

    /// Chooses the aggregates. A different choice makes the loaded groups
    /// stale, because their values were asked together with the old choice;
    /// the same choice changes nothing.
    pub fn set_aggregates(&mut self, aggregates: Vec<(String, Summary)>)
        requires
            old(self).wf(),
        ensures
            final(self).wf(),
            final(self).aggregates_view() == summaries_view(aggregates@),
            old(self).aggregates_view() == summaries_view(aggregates@) ==> final(self).groups_spec()
                == old(self).groups_spec(),
            old(self).aggregates_view() == summaries_view(aggregates@) ==> final(self).total_spec()
                == old(self).total_spec(),
            old(self).aggregates_view() != summaries_view(aggregates@) ==> final(self).groups_spec() is None,
            old(self).aggregates_view() != summaries_view(aggregates@) ==> final(self).total_spec() is None,
            final(self).by_view() == old(self).by_view(),
            final(self).levels_spec() == old(self).levels_spec(),
            final(self).expanded_view() == old(self).expanded_view(),
    {
        if !same_summaries(self.aggregates.as_slice(), aggregates.as_slice()) {
            self.aggregates = aggregates;
            self.invalidate();
        }
    }

    /// Sets the level-2 groups of the level-1 group `key`.
    pub fn set_children(&mut self, key: &Key, children: Vec<Group<V>>)
        requires
            old(self).wf(),
            fits(
                match old(self).groups_spec() {
                    Some(gs) => {
                        let i = first_with(gs, key@);
                        if i < 0 {
                            gs
                        } else {
                            gs.update(i, Group { children: Some(children), ..gs[i] })
                        }
                    },
                    None => Seq::empty(),
                },
            ),
        ensures
            final(self).wf(),
            final(self).groups_spec() == (match old(self).groups_spec() {
                Some(gs) => {
                    let i = first_with(gs, key@);
                    Some(
                        if i < 0 {
                            gs
                        } else {
                            gs.update(i, Group { children: Some(children), ..gs[i] })
                        },
                    )
                },
                None => None,
            }),
            final(self).total_spec() == old(self).total_spec(),
            final(self).by_view() == old(self).by_view(),
            final(self).levels_spec() == old(self).levels_spec(),
            final(self).expanded_view() == old(self).expanded_view(),
            final(self).aggregates_view() == old(self).aggregates_view(),
    {
        let mut taken = self.groups.take();
        match taken {
            None => {
                proof {
                    assert(self.group_seq() =~= Seq::<Group<V>>::empty());
                }
            },
            Some(mut gs) => {
                match find_key(&gs, key) {
                    None => {},
                    Some(i) => {
                        let prev = gs.remove(i);
                        let Group { key: k, count, children: _, aggregates } = prev;
                        gs.insert(i, Group { key: k, count, children: Some(children), aggregates });
                        proof {
                            assert(gs@ =~= old(self).group_seq().update(
                                i as int,
                                Group { children: Some(children), ..old(self).group_seq()[i as int] },
                            ));
                        }
                    },
                }
                self.groups = Some(gs);
            },
        }
        self.relayout();
    }

    /// Level-1 groups that are expanded on a two-level grid but whose level-2
    /// groups have not been fetched yet — what has to be asked before the
    /// display list is complete.
    pub fn missing_children(&self) -> (keys: Vec<Key>)
        ensures
            keys@.map_values(|k: Key| k@) == (if self.levels_spec() < 2 {
                Seq::empty()
            } else {
                missing_keys(self.expanded_view(), self.group_seq())
            }),
    {
        let mut out: Vec<Key> = Vec::new();
        if self.by.len() < 2 {
            proof {
                assert(out@.map_values(|k: Key| k@) =~= Seq::<KeyV>::empty());
            }
            return out;
        }
        match &self.groups {
            None => {
                proof {
                    assert(out@.map_values(|k: Key| k@) =~= missing_keys(
                        self.expanded_view(),
                        self.group_seq(),
                    ));
                }
            },
            Some(gs) => {
                let mut i: usize = 0;
                proof {
                    assert(gs@.take(0) =~= Seq::<Group<V>>::empty());
                    assert(out@.map_values(|k: Key| k@) =~= Seq::<KeyV>::empty());
                }
                while i < gs.len()
                    invariant
                        i <= gs.len(),
                        out@.map_values(|k: Key| k@) == missing_keys(
                            self.expanded_view(),
                            gs@.take(i as int),
                        ),
                    decreases gs.len() - i,
                {
                    let g = &gs[i];
                    proof {
                        assert(gs@.take(i + 1).drop_last() =~= gs@.take(i as int));
                        assert(gs@.take(i + 1).last() == *g);
                    }
                    if g.children.is_none() && self.open1(&g.key) {
                        let ghost before = out@;
                        out.push(copy_key(&g.key));
                        proof {
                            assert(out@.map_values(|k: Key| k@) =~= before.map_values(
                                |k: Key| k@,
                            ).push(g.key@));
                        }
                    }
                    i = i + 1;
                }
                proof {
                    assert(gs@.take(gs.len() as int) =~= gs@);
                }
            },
        }
        out
    }

    /// The expanded paths (for the view a page saves).
    pub fn expanded(&self) -> (paths: Vec<Vec<Key>>)
        requires
            self.wf(),
        ensures
            paths_view(paths@) == self.expanded_view(),
            sorted_paths(paths_view(paths@)),
            distinct_paths(paths_view(paths@)),
    {
        let mut out: Vec<Vec<Key>> = Vec::new();
        let mut i: usize = 0;
        while i < self.expanded.len()
            invariant
                i <= self.expanded.len(),
                paths_view(out@) == self.expanded_view().take(i as int),
            decreases self.expanded.len() - i,
        {
            let ghost before = out@;
            let copy = copy_keys(self.expanded[i].as_slice());
            proof {
                assert(self.expanded_view()[i as int] == keys_view(self.expanded@[i as int]@));
            }
            out.push(copy);
            proof {
                assert(paths_view(out@) =~= paths_view(before).push(keys_view(copy@)));
                assert(paths_view(out@) =~= self.expanded_view().take(i + 1));
            }
            i = i + 1;
        }
        proof {
            assert(self.expanded_view().take(self.expanded.len() as int) =~= self.expanded_view());
        }
        out
    }

    /// Replaces the expanded set (restoring a view): empty paths and paths
    /// deeper than the levels are left out, each path counts once, and the
    /// paths are kept sorted by their key texts.
    pub fn set_expanded(&mut self, paths: &[Vec<Key>])
        requires
            old(self).wf(),
        ensures
            final(self).wf(),
            forall|p: Seq<KeyV>|
                #[trigger] final(self).is_open(p) == restorable(
                    paths_view(paths@),
                    old(self).levels_spec(),
                ).contains(p),
            final(self).groups_spec() == old(self).groups_spec(),
            final(self).total_spec() == old(self).total_spec(),
            final(self).by_view() == old(self).by_view(),
            final(self).levels_spec() == old(self).levels_spec(),
            final(self).aggregates_view() == old(self).aggregates_view(),
    {
        let levels = self.by.len();
        let ghost all = paths_view(paths@);
        let mut out: Vec<Vec<Key>> = Vec::new();
        let mut i: usize = 0;
        proof {
            assert(all.take(0) =~= Seq::<Seq<KeyV>>::empty());
        }
        while i < paths.len()
            invariant
                i <= paths.len(),
                all == paths_view(paths@),
                levels == self.levels_spec(),
                sorted_paths(paths_view(out@)),
                distinct_paths(paths_view(out@)),
                forall|p: Seq<KeyV>|
                    #[trigger] paths_view(out@).contains(p) == restorable(
                        all.take(i as int),
                        levels as nat,
                    ).contains(p),
            decreases paths.len() - i,
        {
            let path = &paths[i];
            let ghost rest = restorable(all.take(i as int), levels as nat);
            proof {
                assert(all.take(i + 1).drop_last() =~= all.take(i as int));
                assert(all.take(i + 1).last() == keys_view(path@));
                assert(keys_view(path@).len() == path@.len());
            }
            let ghost before = paths_view(out@);
            if path.len() > 0 && path.len() <= levels && !holds_path(&out, path.as_slice()) {
                insert_path(&mut out, path.as_slice());
                proof {
                    let u = upper(before, path_text(keys_view(path@))) as int;
                    lemma_upper(before, path_text(keys_view(path@)));
                    let e = paths_view(out@);
                    assert(e[u] == keys_view(path@));
                    assert forall|p: Seq<KeyV>| #[trigger] e.contains(p) == rest.push(
                        keys_view(path@),
                    ).contains(p) by {
                        if e.contains(p) && p != keys_view(path@) {
                            let j = choose|j: int| 0 <= j < e.len() && e[j] == p;
                            if j < u {
                                assert(before[j] == p);
                            } else {
                                assert(j != u);
                                assert(before[j - 1] == p);
                            }
                            assert(before.contains(p));
                            assert(rest.contains(p));
                            let k = choose|k: int| 0 <= k < rest.len() && rest[k] == p;
                            assert(rest.push(keys_view(path@))[k] == p);
                        }
                        if rest.push(keys_view(path@)).contains(p) && p != keys_view(path@) {
                            let k = choose|k: int|
                                0 <= k < rest.len() + 1 && rest.push(keys_view(path@))[k] == p;
                            assert(k < rest.len());
                            assert(rest[k] == p);
                            assert(before.contains(p));
                            let j = choose|j: int| 0 <= j < before.len() && before[j] == p;
                            if j < u {
                                assert(e[j] == p);
                            } else {
                                assert(e[j + 1] == p);
                            }
                        }
                        if p == keys_view(path@) {
                            assert(rest.push(keys_view(path@))[rest.len() as int] == p);
                        }
                    }
                }
            }
            i = i + 1;
        }
        proof {
            assert(all.take(paths.len() as int) =~= all);
        }
        self.expanded = out;
        self.relayout();
    }
}

/// Where a list of paths holds this one, if it does.
fn position_of_path(paths: &Vec<Vec<Key>>, path: &[Key]) -> (r: Option<usize>)
    ensures
        match r {
            Some(k) => k < paths@.len() && paths_view(paths@)[k as int] == keys_view(path@),
            None => !paths_view(paths@).contains(keys_view(path@)),
        },
{
    let mut i: usize = 0;
    while i < paths.len()
        invariant
            i <= paths.len(),
            forall|j: int| 0 <= j < i ==> paths_view(paths@)[j] != keys_view(path@),
        decreases paths.len() - i,
    {
        proof {
            assert(paths_view(paths@)[i as int] == keys_view(paths@[i as int]@));
        }
        if keys_eq(paths[i].as_slice(), path) {
            return Some(i);
        }
        i = i + 1;
    }
    None
}

/// Whether a list of paths holds this one.
fn holds_path(paths: &Vec<Vec<Key>>, path: &[Key]) -> (r: bool)
    ensures
        r == paths_view(paths@).contains(keys_view(path@)),
{
    let mut i: usize = 0;
    while i < paths.len()
        invariant
            i <= paths.len(),
            forall|j: int| 0 <= j < i ==> paths_view(paths@)[j] != keys_view(path@),
        decreases paths.len() - i,
    {
        proof {
            assert(paths_view(paths@)[i as int] == keys_view(paths@[i as int]@));
        }
        if keys_eq(paths[i].as_slice(), path) {
            return true;
        }
        i = i + 1;
    }
    false
}

/// The tests of the first `n` keys of a path, one per grouped column whose
/// name is valid.
pub open spec fn path_tests(by: Seq<Seq<char>>, keys: Seq<KeyV>, n: int) -> Seq<FilterExprView>
    decreases n,
{
    if n <= 0 {
        Seq::empty()
    } else {
        path_tests(by, keys, n - 1) + (if valid_name(by[n - 1]) {
            seq![value_test(by[n - 1], keys[n - 1])]
        } else {
            Seq::empty()
        })
    }
}

/// The test one level of a group path makes: column `field` is the key —
/// `is_null` for NULL, `eq` for any other key.
pub open spec fn level_test(field: Seq<char>, k: KeyV) -> FilterExprView {
    match k {
        KeyV::Null => FilterExprView::IsNull { field },
        _ => FilterExprView::Cmp { field, op: CmpOp::Eq, value: k },
    }
}

/// A group path's filter has one test per level when the grouped columns
/// have valid names: level `i` tests column `by[i]` against key `keys[i]`,
/// in the order of the levels — so a second-level group is narrowed by
/// both its own key and its parent's.
pub proof fn lemma_path_tests(by: Seq<Seq<char>>, keys: Seq<KeyV>, n: int)
    requires
        0 <= n <= by.len(),
        n <= keys.len(),
        forall|i: int| 0 <= i < n ==> valid_name(#[trigger] by[i]),
    ensures
        path_tests(by, keys, n).len() == n,
        forall|i: int|
            0 <= i < n ==> #[trigger] path_tests(by, keys, n)[i] == (match keys[i] {
                KeyV::Null => FilterExprView::IsNull { field: by[i] },
                _ => FilterExprView::Cmp { field: by[i], op: CmpOp::Eq, value: keys[i] },
            }),
    decreases n,
{
    if n > 0 {
        lemma_path_tests(by, keys, n - 1);
        assert(valid_name(by[n - 1]));
        let prev = path_tests(by, keys, n - 1);
        assert(path_tests(by, keys, n) == prev + seq![value_test(by[n - 1], keys[n - 1])]);
        assert forall|i: int| 0 <= i < n implies #[trigger] path_tests(by, keys, n)[i] == (match keys[i] {
            KeyV::Null => FilterExprView::IsNull { field: by[i] },
            _ => FilterExprView::Cmp { field: by[i], op: CmpOp::Eq, value: keys[i] },
        }) by {
            if i < n - 1 {
                assert(path_tests(by, keys, n)[i] == prev[i]);
            }
        }
    }
}

impl<V> Grouping<V> {
    /// The filter that selects one group's rows: the page's filter **and**
    /// each key on the path — NULL as `is_null`, which `eq null` would not
    /// match under three-valued logic.
    pub fn filter_for(&self, keys: &[Key], base: Option<&FilterExpr>) -> (r: Option<FilterExpr>)
        ensures
            opt_expr_view(r) == all_of(
                (match opt_ref_view(base) {
                    Some(b) => seq![b],
                    None => Seq::<FilterExprView>::empty(),
                }) + path_tests(
                    self.by_view(),
                    keys_view(keys@),
                    if self.by_view().len() < keys@.len() {
                        self.by_view().len() as int
                    } else {
                        keys@.len() as int
                    },
                ),
            ),
    {
        let ghost by = self.by_view();
        let ghost ks = keys_view(keys@);
        let mut parts: Vec<FilterExpr> = Vec::new();
        match base {
            Some(b) => {
                parts.push(copy_expr(b));
            },
            None => {},
        }
        let ghost first = exprs_view(parts@);
        let n: usize = if self.by.len() < keys.len() {
            self.by.len()
        } else {
            keys.len()
        };
        let mut i: usize = 0;
        while i < n
            invariant
                i <= n,
                n <= self.by@.len(),
                n <= keys@.len(),
                by == self.by_view(),
                ks == keys_view(keys@),
                exprs_view(parts@) == first + path_tests(by, ks, i as int),
            decreases n - i,
        {
            proof {
                assert(by[i as int] == self.by@[i as int]@);
                assert(ks[i as int] == keys@[i as int]@);
            }
            if is_valid_name(self.by[i].as_str()) {
                let e = match &keys[i] {
                    Key::Null => FilterExpr::IsNull { field: self.by[i].clone() },
                    k => FilterExpr::Cmp { field: self.by[i].clone(), op: CmpOp::Eq, value: copy_key(k) },
                };
                let ghost before = exprs_view(parts@);
                parts.push(e);
                proof {
                    assert(expr_view(e) == value_test(by[i as int], ks[i as int]));
                    assert(exprs_view(parts@) =~= before.push(expr_view(e)));
                    assert(exprs_view(parts@) =~= first + path_tests(by, ks, i + 1));
                }
            } else {
                proof {
                    assert(path_tests(by, ks, i + 1) =~= path_tests(by, ks, i as int));
                }
            }
            i = i + 1;
        }
        proof {
            let fst = match opt_ref_view(base) {
                Some(b) => seq![b],
                None => Seq::<FilterExprView>::empty(),
            };
            assert(first =~= fst);
        }
        let ghost pv = exprs_view(parts@);
        if parts.len() == 0 {
            None
        } else if parts.len() == 1 {
            let e = parts.pop().unwrap();
            proof {
                assert(pv[0] == expr_view(e));
            }
            Some(e)
        } else {
            proof {
                lemma_and_view(parts);
            }
            Some(FilterExpr::And(parts))
        }
    }
}

/// A row count as a count query answers it: a whole number, none below
/// zero; anything else counts nothing.
pub open spec fn count_of(k: KeyV) -> u64 {
    match k {
        KeyV::Int(n) => if n < 0 {
            0
        } else {
            n as u64
        },
        _ => 0,
    }
}

/// The value of a result column at a row, NULL past its end.
pub open spec fn value_at(column: Seq<Key>, row: int) -> KeyV {
    if 0 <= row < column.len() {
        column[row]@
    } else {
        KeyV::Null
    }
}

/// The value of a result column at a row, NULL past its end.
fn cell_of(column: &Vec<Key>, row: usize) -> (k: Key)
    ensures
        k@ == value_at(column@, row as int),
{
    if row < column.len() {
        copy_key(&column[row])
    } else {
        Key::Null
    }
}

/// Reads a total query's result, column by column: the aggregates in
/// order, after the count — each the column's first value, NULL for an
/// empty column.
pub fn total_from(columns: &[Vec<Key>]) -> (values: Vec<Key>)
    ensures
        values@.len() == if columns@.len() == 0 {
            0
        } else {
            columns@.len() - 1
        },
        forall|i: int| 0 <= i < values@.len() ==> (#[trigger] values@[i])@ == value_at(columns@[i + 1]@, 0),
{
    let mut values: Vec<Key> = Vec::new();
    if columns.len() == 0 {
        return values;
    }
    let mut i: usize = 1;
    while i < columns.len()
        invariant
            1 <= i <= columns@.len(),
            values@.len() == i - 1,
            forall|j: int| 0 <= j < values@.len() ==> (#[trigger] values@[j])@ == value_at(columns@[j + 1]@, 0),
        decreases columns.len() - i,
    {
        values.push(cell_of(&columns[i], 0));
        i = i + 1;
    }
    values
}

/// Reads a group query's result, column by column: the keys, the row
/// counts, then the aggregates; one group per row that has both a key and
/// a count, in the order the rows came.
pub fn groups_from(columns: &[Vec<Key>]) -> (r: Result<Vec<Group<Key>>, String>)
    ensures
        columns@.len() == 0 ==> r is Err && r->Err_0@ == "the group query answered no key column"@,
        columns@.len() == 1 ==> r is Err && r->Err_0@ == "the group query answered no count"@,
        columns@.len() >= 2 ==> r is Ok && {
            let gs = r->Ok_0@;
            let keys = columns@[0]@;
            let counts = columns@[1]@;
            &&& gs.len() == if keys.len() < counts.len() {
                keys.len()
            } else {
                counts.len()
            }
            &&& forall|g: int|
                0 <= g < gs.len() ==> {
                    &&& (#[trigger] gs[g]).key@ == keys[g]@
                    &&& gs[g].count == count_of(counts[g]@)
                    &&& gs[g].children is None
                    &&& gs[g].aggregates@.len() == columns@.len() - 2
                    &&& forall|a: int|
                        0 <= a < gs[g].aggregates@.len() ==> (#[trigger] gs[g].aggregates@[a])@
                            == value_at(columns@[a + 2]@, g)
                }
        },
{
    if columns.len() == 0 {
        return Err(String::from_str("the group query answered no key column"));
    }
    if columns.len() == 1 {
        return Err(String::from_str("the group query answered no count"));
    }
    let keys = &columns[0];
    let counts = &columns[1];
    let n: usize = if keys.len() < counts.len() {
        keys.len()
    } else {
        counts.len()
    };
    let mut gs: Vec<Group<Key>> = Vec::new();
    let mut row: usize = 0;
    while row < n
        invariant
            columns@.len() >= 2,
            keys == &columns@[0],
            counts == &columns@[1],
            n <= keys@.len(),
            n <= counts@.len(),
            n == if keys@.len() < counts@.len() {
                keys@.len()
            } else {
                counts@.len()
            },
            row <= n,
            gs@.len() == row,
            forall|g: int|
                0 <= g < row ==> {
                    &&& (#[trigger] gs@[g]).key@ == keys@[g]@
                    &&& gs@[g].count == count_of(counts@[g]@)
                    &&& gs@[g].children is None
                    &&& gs@[g].aggregates@.len() == columns@.len() - 2
                    &&& forall|a: int|
                        0 <= a < gs@[g].aggregates@.len() ==> (#[trigger] gs@[g].aggregates@[a])@
                            == value_at(columns@[a + 2]@, g)
                },
        decreases n - row,
    {
        let count: u64 = match &counts[row] {
            Key::Int(c) => if *c < 0 {
                0
            } else {
                *c as u64
            },
            _ => 0,
        };
        let mut group: Group<Key> = Group::new(copy_key(&keys[row]), count);
        let mut a: usize = 2;
        while a < columns.len()
            invariant
                2 <= a <= columns@.len(),
                group.aggregates@.len() == a - 2,
                group.key@ == keys@[row as int]@,
                group.count == count_of(counts@[row as int]@),
                group.children is None,
                forall|j: int|
                    0 <= j < group.aggregates@.len() ==> (#[trigger] group.aggregates@[j])@
                        == value_at(columns@[j + 2]@, row as int),
            decreases columns.len() - a,
        {
            group.aggregates.push(cell_of(&columns[a], row));
            a = a + 1;
        }
        gs.push(group);
        row = row + 1;
    }
    Ok(gs)
}

// ---------------------------------------------------------------------------
// Laws of the display list
// ---------------------------------------------------------------------------
/// Whether two sets of open paths agree on every path under a group key.
pub open spec fn agree_under(o1: Seq<Seq<KeyV>>, o2: Seq<Seq<KeyV>>, k: KeyV) -> bool {
    forall|p: Seq<KeyV>| p.len() > 0 && p[0] == k ==> o1.contains(p) == o2.contains(p)
}

proof fn lemma_children_size_agree<V>(
    o1: Seq<Seq<KeyV>>,
    o2: Seq<Seq<KeyV>>,
    parent: KeyV,
    cs: Seq<Group<V>>,
)
    requires
        agree_under(o1, o2, parent),
    ensures
        children_size(o1, parent, cs) == children_size(o2, parent, cs),
    decreases cs.len(),
{
    if cs.len() > 0 {
        lemma_children_size_agree(o1, o2, parent, cs.drop_last());
        let p = seq![parent, cs.last().key@];
        assert(p[0] == parent);
    }
}

/// The positions some groups take depend only on what is open under their
/// own keys.
pub proof fn lemma_span_agree<V>(levels: nat, o1: Seq<Seq<KeyV>>, o2: Seq<Seq<KeyV>>, gs: Seq<Group<V>>)
    requires
        forall|i: int| 0 <= i < gs.len() ==> agree_under(o1, o2, (#[trigger] gs[i]).key@),
    ensures
        span(levels, o1, gs) == span(levels, o2, gs),
    decreases gs.len(),
{
    if gs.len() > 0 {
        let d = gs.drop_last();
        assert forall|i: int| 0 <= i < d.len() implies agree_under(o1, o2, (#[trigger] d[i]).key@) by {
            assert(d[i] == gs[i]);
        }
        lemma_span_agree(levels, o1, o2, d);
        let g = gs.last();
        assert(agree_under(o1, o2, gs[gs.len() - 1].key@));
        let p = seq![g.key@];
        assert(p[0] == g.key@);
        match g.children {
            Some(cs) => lemma_children_size_agree(o1, o2, g.key@, cs@),
            None => {},
        }
    }
}

/// Opening or closing a group moves nothing before it: after a toggle of a
/// path, every level-1 group that no group of the path's first key precedes
/// starts where it started — which is what keeps the focus on the group
/// that was toggled.
pub proof fn lemma_toggle_keeps_earlier_starts<V>(
    before: Grouping<V>,
    after: Grouping<V>,
    path: Seq<KeyV>,
    j: int,
)
    requires
        path.len() > 0,
        after.groups_spec() == before.groups_spec(),
        after.levels_spec() == before.levels_spec(),
        forall|p: Seq<KeyV>| p != path ==> after.is_open(p) == before.is_open(p),
        0 <= j <= before.group_seq().len(),
        forall|i: int| 0 <= i < j ==> (#[trigger] before.group_seq()[i]).key@ != path[0],
    ensures
        after.start_of(j) == before.start_of(j),
{
    let gs = before.group_seq().take(j);
    assert forall|i: int| 0 <= i < gs.len() implies agree_under(
        after.expanded_view(),
        before.expanded_view(),
        (#[trigger] gs[i]).key@,
    ) by {
        assert(gs[i] == before.group_seq()[i]);
        assert forall|p: Seq<KeyV>| p.len() > 0 && p[0] == gs[i].key@ implies after.expanded_view().contains(p)
            == before.expanded_view().contains(p) by {
            assert(p != path);
            assert(after.is_open(p) == before.is_open(p));
        }
    }
    lemma_span_agree(before.levels_spec(), after.expanded_view(), before.expanded_view(), gs);
}

/// Toggling a group twice leaves the open paths as they were, order and all,
/// so `expanded` answers the same list again — unless another open path has
/// the same key texts.
pub proof fn lemma_toggle_twice_keeps_expanded<V>(
    g0: Grouping<V>,
    g1: Grouping<V>,
    g2: Grouping<V>,
    path: Seq<KeyV>,
)
    requires
        g0.wf(),
        toggled(g0.expanded_view(), g1.expanded_view(), path),
        toggled(g1.expanded_view(), g2.expanded_view(), path),
        no_text_twin(g0.expanded_view(), path),
    ensures
        g2.expanded_view() == g0.expanded_view(),
{
    lemma_toggle_twice_restores(g0.expanded_view(), g1.expanded_view(), g2.expanded_view(), path);
}

/// Closing takes the rows out again: toggling a path twice leaves every
/// group open or closed as it was, and the display list as long as it was.
pub proof fn lemma_toggle_twice<V>(
    s0: Grouping<V>,
    s1: Grouping<V>,
    s2: Grouping<V>,
    path: Seq<KeyV>,
)
    requires
        s1.is_open(path) == !s0.is_open(path),
        s2.is_open(path) == !s1.is_open(path),
        forall|p: Seq<KeyV>| p != path ==> s1.is_open(p) == s0.is_open(p),
        forall|p: Seq<KeyV>| p != path ==> s2.is_open(p) == s1.is_open(p),
        s1.groups_spec() == s0.groups_spec(),
        s2.groups_spec() == s1.groups_spec(),
        s1.levels_spec() == s0.levels_spec(),
        s2.levels_spec() == s1.levels_spec(),
    ensures
        forall|p: Seq<KeyV>| s2.is_open(p) == s0.is_open(p),
        s2.len_spec() == s0.len_spec(),
{
    assert forall|p: Seq<KeyV>| s2.is_open(p) == s0.is_open(p) by {
        if p == path {
        } else {
        }
    }
    let gs = s0.group_seq();
    assert forall|i: int| 0 <= i < gs.len() implies agree_under(
        s2.expanded_view(),
        s0.expanded_view(),
        (#[trigger] gs[i]).key@,
    ) by {
        assert forall|p: Seq<KeyV>| p.len() > 0 && p[0] == gs[i].key@ implies s2.expanded_view().contains(p)
            == s0.expanded_view().contains(p) by {
            assert(s2.is_open(p) == s0.is_open(p));
        }
    }
    lemma_span_agree(s0.levels_spec(), s2.expanded_view(), s0.expanded_view(), gs);
}

/// With nothing open the display list is one header per group and the
/// total row.
pub proof fn lemma_all_closed<V>(s: Grouping<V>)
    requires
        forall|p: Seq<KeyV>| !s.is_open(p),
        s.group_seq().len() > 0,
    ensures
        s.groups_spec() is Some ==> s.len_spec() == s.group_seq().len() + 1,
{
    assert forall|p: Seq<KeyV>| !s.expanded_view().contains(p) by {
        assert(!s.is_open(p));
    }
    lemma_span_all_closed(s.levels_spec(), s.expanded_view(), s.group_seq());
}

proof fn lemma_span_all_closed<V>(levels: nat, open: Seq<Seq<KeyV>>, gs: Seq<Group<V>>)
    requires
        forall|p: Seq<KeyV>| !open.contains(p),
    ensures
        span(levels, open, gs) == gs.len(),
    decreases gs.len(),
{
    if gs.len() > 0 {
        lemma_span_all_closed(levels, open, gs.drop_last());
        assert(!open.contains(seq![gs.last().key@]));
    }
}

/// On one level with every group open the display list is every row, every
/// header, and the total row.
pub proof fn lemma_all_open<V>(s: Grouping<V>)
    requires
        s.levels_spec() == 1,
        forall|i: int|
            0 <= i < s.group_seq().len() ==> s.is_open(seq![(#[trigger] s.group_seq()[i]).key@]),
        s.groups_spec() is Some,
        s.group_seq().len() > 0,
    ensures
        s.len_spec() == count_sum(s.group_seq()) + s.group_seq().len() + 1,
{
    lemma_span_all_open(s.expanded_view(), s.group_seq());
}

proof fn lemma_span_all_open<V>(open: Seq<Seq<KeyV>>, gs: Seq<Group<V>>)
    requires
        forall|i: int| 0 <= i < gs.len() ==> open.contains(seq![(#[trigger] gs[i]).key@]),
    ensures
        span(1, open, gs) == count_sum(gs) + gs.len(),
    decreases gs.len(),
{
    if gs.len() > 0 {
        let d = gs.drop_last();
        assert forall|i: int| 0 <= i < d.len() implies open.contains(seq![(#[trigger] d[i]).key@]) by {
            assert(d[i] == gs[i]);
        }
        lemma_span_all_open(open, d);
        assert(open.contains(seq![gs[gs.len() - 1].key@]));
    }
}

impl<V> Grouping<V> {
    /// A group's position is where its header is shown: the place at the
    /// position of a level-1 group is that group's header.
    pub proof fn lemma_position_is_header(self, k: KeyV)
        ensures
            match self.position_spec(seq![k]) {
                Some(p) => self.place(p) == Some(
                    Place::Header1 { group: first_with(self.group_seq(), k) },
                ),
                None => true,
            },
    {
        let gs = self.group_seq();
        lemma_first_with(gs, k);
        let i = first_with(gs, k);
        if self.groups_spec() is Some && i >= 0 {
            let p = self.start_of(i) as int;
            assert(seq![k][0] == k);
            assert(self.position_spec(seq![k]) == Some(p));
            self.lemma_span_mono(gs, i, i + 1);
            self.lemma_span_mono(gs, i + 1, gs.len() as int);
            assert(gs.take(gs.len() as int) =~= gs);
            assert(self.covers(i, p));
            assert(p < self.groups_end());
            let j = choose|j: int| self.covers(j, p);
            self.lemma_covers_unique(i, j, p);
        }
    }
}

// ---------------------------------------------------------------------------
// What the group queries ask
// ---------------------------------------------------------------------------
/// The alias the group queries count rows under: prefixed so it cannot
/// collide with a column a page is likely to have.
pub const COUNT_ALIAS: &'static str = "__og_rows";

/// The alias the `index`-th aggregate is asked under.
pub open spec fn alias_of(index: nat) -> Seq<char> {
    "__og_a"@ + decimal(index)
}

/// The alias the `index`-th aggregate is asked under: by position, not by
/// column name, so a long column name cannot break the identifier limit.
pub fn aggregate_alias(index: usize) -> (s: String)
    ensures
        s@ == alias_of(index as nat),
{
    let mut s = String::from_str("__og_a");
    crate::text::push_decimal(&mut s, index as u64);
    s
}

/// The functions the chosen aggregates are asked as, in order, with their
/// columns: a range is its `min` and its `max`.
pub open spec fn asked(aggregates: Seq<(Seq<char>, Summary)>) -> Seq<(Seq<char>, AggregateFn)>
    decreases aggregates.len(),
{
    if aggregates.len() == 0 {
        Seq::empty()
    } else {
        let last = aggregates.last();
        asked(aggregates.drop_last()) + last.1.functions_spec().map_values(
            |f: AggregateFn| (last.0, f),
        )
    }
}

/// How many aggregate columns a query asks for: a range is two.
pub fn aggregate_width(aggregates: &[(String, Summary)]) -> (n: usize)
    requires
        aggregates@.len() <= usize::MAX / 2,
    ensures
        n == asked(summaries_view(aggregates@)).len(),
        n <= 2 * aggregates@.len(),
{
    let mut n: usize = 0;
    let mut i: usize = 0;
    let ghost all = summaries_view(aggregates@);
    while i < aggregates.len()
        invariant
            i <= aggregates.len(),
            aggregates@.len() <= usize::MAX / 2,
            all == summaries_view(aggregates@),
            n == asked(all.take(i as int)).len(),
            n <= 2 * i,
        decreases aggregates.len() - i,
    {
        proof {
            assert(all.take(i + 1).drop_last() =~= all.take(i as int));
            assert(all.take(i + 1).last() == all[i as int]);
        }
        n = n + aggregates[i].1.width();
        i = i + 1;
    }
    proof {
        assert(all.take(aggregates.len() as int) =~= all);
    }
    n
}

/// One aggregate a group query asks for.
#[derive(Debug, PartialEq, Eq)]
pub struct Ask {
    pub function: AggregateFn,
    /// The column; `None` for the row count.
    pub field: Option<String>,
    pub alias: String,
}

/// The aggregates a group or total query asks for: the row count under
/// [`COUNT_ALIAS`], then every chosen function under its position's alias.
pub fn aggregate_list(aggregates: &[(String, Summary)]) -> (list: Vec<Ask>)
    requires
        aggregates@.len() <= usize::MAX / 4,
    ensures
        list@.len() == 1 + asked(summaries_view(aggregates@)).len(),
        list@[0].function == AggregateFn::Count,
        list@[0].field is None,
        list@[0].alias@ == COUNT_ALIAS@,
        forall|k: int|
            1 <= k < list@.len() ==> {
                let a = asked(summaries_view(aggregates@))[k - 1];
                &&& (#[trigger] list@[k]).function == a.1
                &&& list@[k].field is Some
                &&& list@[k].field->Some_0@ == a.0
                &&& list@[k].alias@ == alias_of((k - 1) as nat)
            },
{
    let mut list: Vec<Ask> = Vec::new();
    list.push(Ask { function: AggregateFn::Count, field: None, alias: String::from_str(COUNT_ALIAS) });
    let ghost all = summaries_view(aggregates@);
    let mut i: usize = 0;
    let mut index: usize = 0;
    proof {
        assert(all.take(0) =~= Seq::<(Seq<char>, Summary)>::empty());
    }
    while i < aggregates.len()
        invariant
            i <= aggregates.len(),
            aggregates@.len() <= usize::MAX / 4,
            all == summaries_view(aggregates@),
            index == asked(all.take(i as int)).len(),
            index <= 2 * i,
            list@.len() == 1 + index,
            list@[0].function == AggregateFn::Count,
            list@[0].field is None,
            list@[0].alias@ == COUNT_ALIAS@,
            forall|k: int|
                1 <= k < list@.len() ==> {
                    let a = asked(all.take(i as int))[k - 1];
                    &&& (#[trigger] list@[k]).function == a.1
                    &&& list@[k].field is Some
                    &&& list@[k].field->Some_0@ == a.0
                    &&& list@[k].alias@ == alias_of((k - 1) as nat)
                },
        decreases aggregates.len() - i,
    {
        let (column, summary) = &aggregates[i];
        let functions = summary.functions();
        let ghost before = asked(all.take(i as int));
        let ghost added = summary.functions_spec().map_values(|f: AggregateFn| (column@, f));
        proof {
            assert(all.take(i + 1).drop_last() =~= all.take(i as int));
            assert(all.take(i + 1).last() == all[i as int]);
            assert(all[i as int] == (column@, *summary));
            assert(asked(all.take(i + 1)) == before + added);
            assert forall|k: int| 0 <= k < before.len() implies #[trigger] (before + added)[k]
                == before[k] by {}
        }
        let mut j: usize = 0;
        while j < functions.len()
            invariant
                j <= functions.len(),
                added == summary.functions_spec().map_values(|f: AggregateFn| (column@, f)),
                functions@ == summary.functions_spec(),
                functions@.len() <= 2,
                index == before.len() + j,
                index <= 2 * i + j,
                aggregates@.len() <= usize::MAX / 4,
                i < aggregates@.len(),
                list@.len() == 1 + index,
                list@[0].function == AggregateFn::Count,
                list@[0].field is None,
                list@[0].alias@ == COUNT_ALIAS@,
                forall|k: int|
                    1 <= k < list@.len() ==> {
                        let a = (before + added)[k - 1];
                        &&& (#[trigger] list@[k]).function == a.1
                        &&& list@[k].field is Some
                        &&& list@[k].field->Some_0@ == a.0
                        &&& list@[k].alias@ == alias_of((k - 1) as nat)
                    },
            decreases functions.len() - j,
        {
            let alias = aggregate_alias(index);
            let ghost old_list = list@;
            let name = column.clone();
            list.push(Ask { function: functions[j], field: Some(name), alias });
            proof {
                assert(added.len() == functions@.len());
                assert(added[j as int] == (column@, functions@[j as int]));
                assert((before + added)[index as int] == added[j as int]);
                assert forall|k: int| 1 <= k < list@.len() implies {
                    let a = (before + added)[k - 1];
                    &&& (#[trigger] list@[k]).function == a.1
                    &&& list@[k].field is Some
                    &&& list@[k].field->Some_0@ == a.0
                    &&& list@[k].alias@ == alias_of((k - 1) as nat)
                } by {
                    if k < old_list.len() {
                        assert(list@[k] == old_list[k]);
                    }
                }
            }
            index = index + 1;
            j = j + 1;
        }
        i = i + 1;
    }
    proof {
        assert(all.take(aggregates.len() as int) =~= all);
    }
    list
}

/// The columns a group query selects: the key, the row count, then one
/// alias per asked aggregate.
pub fn group_select(column: &str, aggregates: &[(String, Summary)]) -> (select: Vec<String>)
    requires
        aggregates@.len() <= usize::MAX / 4,
    ensures
        select@.len() == 2 + asked(summaries_view(aggregates@)).len(),
        select@[0]@ == column@,
        select@[1]@ == COUNT_ALIAS@,
        forall|k: int| 2 <= k < select@.len() ==> (#[trigger] select@[k])@ == alias_of((k - 2) as nat),
{
    let mut select: Vec<String> = Vec::new();
    select.push(String::from_str(column));
    select.push(String::from_str(COUNT_ALIAS));
    let width = aggregate_width(aggregates);
    let mut i: usize = 0;
    while i < width
        invariant
            i <= width,
            select@.len() == 2 + i,
            select@[0]@ == column@,
            select@[1]@ == COUNT_ALIAS@,
            forall|k: int| 2 <= k < select@.len() ==> (#[trigger] select@[k])@ == alias_of((k - 2) as nat),
        decreases width - i,
    {
        select.push(aggregate_alias(i));
        i = i + 1;
    }
    select
}

/// The columns the total query selects: the row count, then one alias per
/// asked aggregate — no key, because the total is one row, not a group.
pub fn total_select(aggregates: &[(String, Summary)]) -> (select: Vec<String>)
    requires
        aggregates@.len() <= usize::MAX / 4,
    ensures
        select@.len() == 1 + asked(summaries_view(aggregates@)).len(),
        select@[0]@ == COUNT_ALIAS@,
        forall|k: int| 1 <= k < select@.len() ==> (#[trigger] select@[k])@ == alias_of((k - 1) as nat),
{
    let mut select: Vec<String> = Vec::new();
    select.push(String::from_str(COUNT_ALIAS));
    let width = aggregate_width(aggregates);
    let mut i: usize = 0;
    while i < width
        invariant
            i <= width,
            select@.len() == 1 + i,
            select@[0]@ == COUNT_ALIAS@,
            forall|k: int| 1 <= k < select@.len() ==> (#[trigger] select@[k])@ == alias_of((k - 1) as nat),
        decreases width - i,
    {
        select.push(aggregate_alias(i));
        i = i + 1;
    }
    select
}

/// Where the values of summary `i` start in an answer: after the values of
/// every summary before it.
pub open spec fn value_start(aggregates: Seq<(Seq<char>, Summary)>, i: int) -> nat {
    asked(aggregates.take(i)).len()
}

/// A group's aggregate values, one slice per chosen summary — a range answers
/// two values, everything else one. A short answer leaves the missing ones
/// empty instead of shifting the ones after them.
pub fn split<'a, V>(aggregates: &[(String, Summary)], values: &'a [V]) -> (out: Vec<&'a [V]>)
    requires
        aggregates@.len() <= usize::MAX / 4,
    ensures
        out@.len() == aggregates@.len(),
        forall|i: int|
            0 <= i < out@.len() ==> {
                let all = summaries_view(aggregates@);
                let from = value_start(all, i);
                let to = value_start(all, i + 1);
                (#[trigger] out@[i])@ == values@.subrange(
                    crate::window::min_int(from as int, crate::window::min_int(to as int, values@.len() as int)),
                    crate::window::min_int(to as int, values@.len() as int),
                )
            },
{
    let ghost all = summaries_view(aggregates@);
    let mut out: Vec<&'a [V]> = Vec::new();
    let mut at: usize = 0;
    let mut i: usize = 0;
    proof {
        assert(all.take(0) =~= Seq::<(Seq<char>, Summary)>::empty());
    }
    while i < aggregates.len()
        invariant
            i <= aggregates.len(),
            aggregates@.len() <= usize::MAX / 4,
            all == summaries_view(aggregates@),
            at == value_start(all, i as int),
            at <= 2 * i,
            out@.len() == i,
            forall|k: int|
                0 <= k < i ==> {
                    let from = value_start(all, k);
                    let to = value_start(all, k + 1);
                    (#[trigger] out@[k])@ == values@.subrange(
                        crate::window::min_int(from as int, crate::window::min_int(to as int, values@.len() as int)),
                        crate::window::min_int(to as int, values@.len() as int),
                    )
                },
        decreases aggregates.len() - i,
    {
        let width = aggregates[i].1.width();
        proof {
            assert(all.take(i + 1).drop_last() =~= all.take(i as int));
            assert(all.take(i + 1).last() == all[i as int]);
        }
        let end = if at + width < values.len() {
            at + width
        } else {
            values.len()
        };
        let begin = if at < end {
            at
        } else {
            end
        };
        out.push(vstd::slice::slice_subrange(values, begin, end));
        at = at + width;
        i = i + 1;
    }
    out
}

proof fn lemma_keep_step(
    before: Seq<Seq<KeyV>>,
    path: Seq<KeyV>,
    i: int,
    old_kept: Seq<Seq<KeyV>>,
    now: Seq<Seq<KeyV>>,
    pushed: bool,
)
    requires
        0 <= i < before.len(),
        forall|p: Seq<KeyV>| #[trigger]
            old_kept.contains(p) <==> (p != path && before.take(i).contains(p)),
        now == (if pushed {
            old_kept.push(before[i])
        } else {
            old_kept
        }),
        pushed <==> before[i] != path,
    ensures
        forall|p: Seq<KeyV>| #[trigger]
            now.contains(p) <==> (p != path && before.take(i + 1).contains(p)),
{
    let t0 = before.take(i);
    let t1 = before.take(i + 1);
    assert forall|p: Seq<KeyV>| #[trigger] now.contains(p) <==> (p != path && t1.contains(p)) by {
        if t1.contains(p) && p != path {
            let j = choose|j: int| 0 <= j < t1.len() && #[trigger] t1[j] == p;
            if j < i {
                assert(t0[j] == p);
                assert(t0.contains(p));
                assert(old_kept.contains(p));
                let k = choose|k: int| 0 <= k < old_kept.len() && #[trigger] old_kept[k] == p;
                if pushed {
                    assert(now[k] == p);
                }
            } else {
                assert(now[old_kept.len() as int] == p);
            }
        }
        if now.contains(p) {
            let j = choose|j: int| 0 <= j < now.len() && #[trigger] now[j] == p;
            if j < old_kept.len() {
                assert(old_kept[j] == p);
                assert(old_kept.contains(p));
                let m = choose|m: int| 0 <= m < t0.len() && #[trigger] t0[m] == p;
                assert(t1[m] == p);
            } else {
                assert(t1[i] == p);
            }
        }
    }
}

pub proof fn lemma_count_prefix<V>(gs: Seq<Group<V>>, i: int)
    requires
        0 <= i <= gs.len(),
    ensures
        count_sum(gs.take(i)) <= count_sum(gs),
    decreases gs.len(),
{
    if i < gs.len() {
        assert(gs.drop_last().take(i) =~= gs.take(i));
        lemma_count_prefix(gs.drop_last(), i);
    } else {
        assert(gs.take(i) =~= gs);
    }
}

/// The value a grouped window shows at column `col` of window row `i`: what
/// the last fetch answered for that place, NULL where none did. A fetch's
/// rows go to the window rows from its display position on, counted from
/// `offset`.
pub open spec fn page_value(rows: Seq<(u64, Seq<Seq<KeyV>>)>, offset: int, col: int, i: int) -> KeyV
    decreases rows.len(),
{
    if rows.len() == 0 {
        KeyV::Null
    } else {
        let (position, columns) = rows.last();
        let at = i - (position - offset);
        if 0 <= col < columns.len() && 0 <= at < columns[col].len() {
            columns[col][at]
        } else {
            page_value(rows.drop_last(), offset, col, i)
        }
    }
}

/// The answers of a window's fetches as values.
pub open spec fn fetched_view(rows: Seq<(u64, Vec<Vec<Key>>)>) -> Seq<(u64, Seq<Seq<KeyV>>)> {
    rows.map_values(
        |r: (u64, Vec<Vec<Key>>)| (r.0, r.1@.map_values(|c: Vec<Key>| keys_view(c@))),
    )
}

/// How many rows a grouped window holds: the display list from `offset`
/// on, at most `pool` of them.
pub open spec fn page_height(offset: u64, total: u64, pool: u64) -> nat {
    let left = if total > offset {
        (total - offset) as nat
    } else {
        0
    };
    if left < pool {
        left
    } else {
        pool as nat
    }
}

/// The value of one place of the window, the last fetch that answered it
/// winning.
fn page_cell(rows: &[(u64, Vec<Vec<Key>>)], offset: u64, col: usize, i: u64) -> (k: Key)
    requires
        forall|r: int| 0 <= r < rows@.len() ==> rows@[r].0 >= offset,
    ensures
        k@ == page_value(fetched_view(rows@), offset as int, col as int, i as int),
{
    let ghost all = fetched_view(rows@);
    let mut r: usize = rows.len();
    proof {
        assert(all.take(r as int) =~= all);
    }
    while r > 0
        invariant
            r <= rows@.len(),
            all == fetched_view(rows@),
            forall|q: int| 0 <= q < rows@.len() ==> rows@[q].0 >= offset,
            page_value(all, offset as int, col as int, i as int) == page_value(
                all.take(r as int),
                offset as int,
                col as int,
                i as int,
            ),
        decreases r,
    {
        let (position, columns) = &rows[r - 1];
        let first = *position - offset;
        proof {
            assert(all.take(r as int).drop_last() =~= all.take(r - 1));
            assert(all.take(r as int).last() == all[r - 1]);
            assert(all[r - 1].1 == columns@.map_values(|c: Vec<Key>| keys_view(c@)));
        }
        if col < columns.len() && i >= first && i - first < columns[col].len() as u64 {
            let at = (i - first) as usize;
            proof {
                assert(all[r - 1].1[col as int] == keys_view(columns@[col as int]@));
            }
            return copy_key(&columns[col][at]);
        }
        proof {
            if col < columns.len() {
                assert(all[r - 1].1[col as int] == keys_view(columns@[col as int]@));
            }
        }
        r = r - 1;
    }
    proof {
        assert(all.take(0) =~= Seq::<(u64, Seq<Seq<KeyV>>)>::empty());
    }
    Key::Null
}

/// The page a grouped window shows, column by column: `width` columns of
/// the window's rows, each place holding what the last fetch answered for
/// it and NULL where none did.
pub fn page_of_fetches(
    offset: u64,
    total: u64,
    pool: u64,
    width: usize,
    rows: &[(u64, Vec<Vec<Key>>)],
) -> (page: Vec<Vec<Key>>)
    requires
        forall|r: int| 0 <= r < rows@.len() ==> rows@[r].0 >= offset,
        page_height(offset, total, pool) <= usize::MAX,
    ensures
        page@.len() == width,
        forall|c: int|
            0 <= c < width ==> (#[trigger] page@[c])@.len() == page_height(offset, total, pool),
        forall|c: int, i: int|
            0 <= c < width && 0 <= i < page_height(offset, total, pool) ==> (
            #[trigger] page@[c]@[i])@ == page_value(fetched_view(rows@), offset as int, c, i),
{
    let left: u64 = if total > offset {
        total - offset
    } else {
        0
    };
    let height: u64 = if left < pool {
        left
    } else {
        pool
    };
    let mut page: Vec<Vec<Key>> = Vec::new();
    let mut c: usize = 0;
    while c < width
        invariant
            c <= width,
            height == page_height(offset, total, pool),
            forall|r: int| 0 <= r < rows@.len() ==> rows@[r].0 >= offset,
            page@.len() == c,
            forall|k: int| 0 <= k < c ==> (#[trigger] page@[k])@.len() == height,
            forall|k: int, i: int|
                0 <= k < c && 0 <= i < height ==> (#[trigger] page@[k]@[i])@ == page_value(
                    fetched_view(rows@),
                    offset as int,
                    k,
                    i,
                ),
        decreases width - c,
    {
        let mut column: Vec<Key> = Vec::new();
        let mut i: u64 = 0;
        while i < height
            invariant
                i <= height,
                forall|r: int| 0 <= r < rows@.len() ==> rows@[r].0 >= offset,
                column@.len() == i,
                forall|j: int|
                    0 <= j < i ==> (#[trigger] column@[j])@ == page_value(
                        fetched_view(rows@),
                        offset as int,
                        c as int,
                        j,
                    ),
            decreases height - i,
        {
            column.push(page_cell(rows, offset, c, i));
            i = i + 1;
        }
        page.push(column);
        c = c + 1;
    }
    page
}

impl<V> Grouping<V> {
    /// The filter `filter_for` answers for a path of keys, when every
    /// grouped column has a valid name and there is no base filter: nothing
    /// for no level; the one level's test alone; for more levels, their
    /// conjunction — one test per level `i`, on column `by[i]` and key
    /// `keys[i]`. With a base, the base leads the conjunction and the level
    /// tests follow it.
    pub proof fn lemma_group_filter(self, keys: Seq<KeyV>, base: Option<FilterExprView>)
        requires
            forall|i: int| 0 <= i < self.by_view().len() ==> valid_name(#[trigger] self.by_view()[i]),
        ensures
            ({
                let by = self.by_view();
                let n = if by.len() < keys.len() {
                    by.len() as int
                } else {
                    keys.len() as int
                };
                let r = all_of(
                    (match base {
                        Some(b) => seq![b],
                        None => Seq::<FilterExprView>::empty(),
                    }) + path_tests(by, keys, n),
                );
                &&& (base is None && n == 0) ==> r is None
                &&& (base is None && n == 1) ==> r == Some(level_test(by[0], keys[0]))
                &&& (base is None && n >= 2) ==> (r matches Some(FilterExprView::And(parts))
                    && parts.len() == n && forall|i: int|
                    0 <= i < n ==> #[trigger] parts[i] == level_test(by[i], keys[i]))
                &&& (base is Some && n >= 1) ==> (r matches Some(FilterExprView::And(parts))
                    && parts.len() == n + 1 && parts[0] == base->0 && forall|i: int|
                    0 <= i < n ==> #[trigger] parts[i + 1] == level_test(by[i], keys[i]))
            }),
    {
        let by = self.by_view();
        let n = if by.len() < keys.len() {
            by.len() as int
        } else {
            keys.len() as int
        };
        lemma_path_tests(by, keys, n);
        let tests = path_tests(by, keys, n);
        assert forall|i: int| 0 <= i < n implies #[trigger] tests[i] == level_test(by[i], keys[i]) by {}
        match base {
            Some(b) => {
                let parts = seq![b] + tests;
                assert forall|i: int| 0 <= i < n implies #[trigger] parts[i + 1] == level_test(by[i], keys[i]) by {
                    assert(parts[i + 1] == tests[i]);
                }
            },
            None => {
                assert(Seq::<FilterExprView>::empty() + tests =~= tests);
            },
        }
    }
}

} // verus!
