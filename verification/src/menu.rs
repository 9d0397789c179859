//! The column menu: what it offers, as data.
//!
//! Everything in the menu can be done without it — sorting from the header,
//! filtering in the filter row, hiding in the column list, grouping through
//! `group-by` — so the menu is a second way in. It holds no form: "Filter"
//! jumps to the column's field in the filter row, and the menu stays a menu.
//!
//! An entry that would do nothing is not shown: no aggregate choice where only
//! one would fit, no grouping by a column whose values do not repeat, no
//! "hide" on the last visible column.

use vstd::prelude::*;

use crate::filters::DataType;
use crate::grouping::{groupable, groupable_spec, MAX_LEVELS};
use crate::summary::{aggregates_for, aggregates_for_spec, AggregateFn, Summary};
use crate::text::{contains_text, same_text, views};

verus! {

/// One entry of the menu.
#[derive(Debug, PartialEq, Eq)]
pub enum Entry {
    /// A `menuitem`, or a `menuitemradio` when `checked` is `Some`.
    Item {
        /// What activating it does, as the element reads it back.
        action: String,
        label: String,
        checked: Option<bool>,
    },
    /// A `separator`.
    Separator,
    /// A labelled `group` of entries.
    Group { label: String, entries: Vec<Entry> },
}

/// An entry as a value.
pub enum EntryV {
    Item { action: Seq<char>, label: Seq<char>, checked: Option<bool> },
    Separator,
    Group { label: Seq<char>, entries: Seq<EntryV> },
}

/// The value of an entry.
pub open spec fn entry_view(e: Entry) -> EntryV
    decreases e,
{
    match e {
        Entry::Item { action, label, checked } => EntryV::Item {
            action: action@,
            label: label@,
            checked,
        },
        Entry::Separator => EntryV::Separator,
        Entry::Group { label, entries } => EntryV::Group {
            label: label@,
            entries: Seq::new(
                entries@.len(),
                |i: int|
                    if 0 <= i < entries@.len() {
                        entry_view(entries@[i])
                    } else {
                        EntryV::Separator
                    },
            ),
        },
    }
}

/// The values of some entries.
pub open spec fn entries_view(s: Seq<Entry>) -> Seq<EntryV> {
    s.map_values(|e: Entry| entry_view(e))
}

/// A plain item.
pub open spec fn item_v(action: Seq<char>, label: Seq<char>) -> EntryV {
    EntryV::Item { action, label, checked: None }
}

/// A radio item.
pub open spec fn radio_v(action: Seq<char>, label: Seq<char>, checked: bool) -> EntryV {
    EntryV::Item { action, label, checked: Some(checked) }
}

impl Entry {
    /// A plain `menuitem`.
    pub fn item(action: String, label: &str) -> (e: Entry)
        ensures
            entry_view(e) == item_v(action@, label@),
    {
        Entry::Item { action, label: label.to_string(), checked: None }
    }

    /// A `menuitemradio`, checked or not.
    pub fn radio(action: String, label: &str, checked: bool) -> (e: Entry)
        ensures
            entry_view(e) == radio_v(action@, label@, checked),
    {
        Entry::Item { action, label: label.to_string(), checked: Some(checked) }
    }
}

/// The labels of the menu, in the page's language.
pub struct MenuTexts {
    pub sort_ascending: String,
    pub sort_descending: String,
    pub filter_column: String,
    pub aggregate_none: String,
    pub aggregate_group: String,
    pub ungroup_column: String,
    pub group_by_column: String,
    pub group_second_level: String,
    pub hide_column: String,
    pub aggregate_count: String,
    pub aggregate_sum: String,
    pub aggregate_avg: String,
    pub aggregate_min: String,
    pub aggregate_max: String,
    pub aggregate_range: String,
}

/// The label of a summary in the menu.
pub open spec fn label_spec(t: MenuTexts, s: Summary) -> Seq<char> {
    match s {
        Summary::Fn(AggregateFn::Count) => t.aggregate_count@,
        Summary::Fn(AggregateFn::Sum) => t.aggregate_sum@,
        Summary::Fn(AggregateFn::Avg) => t.aggregate_avg@,
        Summary::Fn(AggregateFn::Min) => t.aggregate_min@,
        Summary::Fn(AggregateFn::Max) => t.aggregate_max@,
        Summary::Range => t.aggregate_range@,
    }
}

/// The summaries a column of type `d` offers, each with its label.
pub open spec fn offered_spec(d: DataType, t: MenuTexts) -> Seq<(Summary, Seq<char>)> {
    aggregates_for_spec(d).map_values(|s: Summary| (s, label_spec(t, s)))
}

impl MenuTexts {
    /// The label of a summary.
    pub fn aggregate_name(&self, summary: Summary) -> (l: &str)
        ensures
            l@ == label_spec(*self, summary),
    {
        match summary {
            Summary::Fn(AggregateFn::Count) => self.aggregate_count.as_str(),
            Summary::Fn(AggregateFn::Sum) => self.aggregate_sum.as_str(),
            Summary::Fn(AggregateFn::Avg) => self.aggregate_avg.as_str(),
            Summary::Fn(AggregateFn::Min) => self.aggregate_min.as_str(),
            Summary::Fn(AggregateFn::Max) => self.aggregate_max.as_str(),
            Summary::Range => self.aggregate_range.as_str(),
        }
    }
}

/// What the menu needs to know about its column and the grid.
pub struct Column<'a> {
    pub name: &'a str,
    pub data_type: DataType,
    /// `Some("asc" | "desc")` when this column is the sort.
    pub sort: Option<&'a str>,
    /// The aggregate this column shows in groups.
    pub aggregate: Option<Summary>,
    /// The columns grouped by now.
    pub group_by: &'a [String],
    /// Whether grouping is possible at all — not while paging.
    pub can_group: bool,
    /// How many columns are visible.
    pub visible: usize,
}

/// Whether the column is sorted in direction `dir`.
pub open spec fn sorted_as(c: Column, dir: Seq<char>) -> bool {
    match c.sort {
        Some(s) => s@ == dir,
        None => false,
    }
}

/// The choices of the aggregate group: "none", then each allowed summary
/// with its label.
pub open spec fn aggregate_choices(
    c: Column,
    t: MenuTexts,
    allowed: Seq<(Summary, Seq<char>)>,
) -> Seq<EntryV> {
    seq![radio_v("aggregate:none"@, t.aggregate_none@, c.aggregate is None)] + Seq::new(
        allowed.len(),
        |i: int|
            radio_v(
                "aggregate:"@ + allowed[i].0.name(),
                allowed[i].1,
                c.aggregate == Some(allowed[i].0),
            ),
    )
}

/// The grouping entries: ungroup a grouped column; otherwise group by it,
/// and, under an existing grouping, add it as the second level.
pub open spec fn grouping_choices(c: Column, t: MenuTexts) -> Seq<EntryV> {
    if c.can_group && groupable_spec(c.data_type) {
        if views(c.group_by@).contains(c.name@) {
            seq![item_v("group:remove"@, t.ungroup_column@)]
        } else if c.group_by@.len() > 0 {
            seq![
                item_v("group:first"@, t.group_by_column@),
                item_v("group:second"@, t.group_second_level@),
            ]
        } else {
            seq![item_v("group:first"@, t.group_by_column@)]
        }
    } else {
        Seq::empty()
    }
}

/// The entries of one column's menu, in order. `allowed` are the summaries
/// the column's type offers, each with its label.
pub open spec fn entries_spec(
    c: Column,
    t: MenuTexts,
    allowed: Seq<(Summary, Seq<char>)>,
) -> Seq<EntryV> {
    let head = seq![
        radio_v("sort:asc"@, t.sort_ascending@, sorted_as(c, "asc"@)),
        radio_v("sort:desc"@, t.sort_descending@, sorted_as(c, "desc"@)),
        EntryV::Separator,
        item_v("filter"@, t.filter_column@),
    ];
    let aggregates = if allowed.len() > 1 {
        seq![
            EntryV::Separator,
            EntryV::Group { label: t.aggregate_group@, entries: aggregate_choices(c, t, allowed) },
        ]
    } else {
        Seq::empty()
    };
    let rest = grouping_choices(c, t) + (if c.visible > 1 {
        seq![item_v("hide"@, t.hide_column@)]
    } else {
        Seq::empty()
    });
    head + aggregates + (if rest.len() > 0 {
        seq![EntryV::Separator] + rest
    } else {
        Seq::empty()
    })
}

/// The summaries allowed and their labels, as values.
pub open spec fn allowed_view(a: Seq<(Summary, String)>) -> Seq<(Summary, Seq<char>)> {
    a.map_values(|p: (Summary, String)| (p.0, p.1@))
}

/// Whether the column is sorted in direction `dir`.
fn is_sorted_as(c: &Column, dir: &str) -> (b: bool)
    ensures
        b == sorted_as(*c, dir@),
{
    match c.sort {
        Some(s) => same_text(s, dir),
        None => false,
    }
}

/// The text `a` followed by `b`.
fn concat_text(a: &str, b: &str) -> (s: String)
    ensures
        s@ == a@ + b@,
{
    let mut s = a.to_string();
    s.append(b);
    s
}

/// Whether two summaries are the same choice.
fn same_summary(a: Option<Summary>, b: Summary) -> (r: bool)
    ensures
        r == (a == Some(b)),
{
    match a {
        Some(x) => x == b,
        None => false,
    }
}

/// The summaries a column of type `data_type` offers, each with its label.
fn offered(data_type: DataType, texts: &MenuTexts) -> (v: Vec<(Summary, String)>)
    ensures
        allowed_view(v@) == offered_spec(data_type, *texts),
{
    let all = aggregates_for(data_type);
    let mut v: Vec<(Summary, String)> = Vec::new();
    let mut i: usize = 0;
    while i < all.len()
        invariant
            i <= all@.len(),
            all@ == aggregates_for_spec(data_type),
            allowed_view(v@) == offered_spec(data_type, *texts).take(i as int),
        decreases all.len() - i,
    {
        let s = all[i];
        let ghost before = allowed_view(v@);
        v.push((s, texts.aggregate_name(s).to_string()));
        proof {
            assert(allowed_view(v@) =~= before.push((s, label_spec(*texts, s))));
            assert(offered_spec(data_type, *texts).take(i + 1) =~= offered_spec(
                data_type,
                *texts,
            ).take(i as int).push(offered_spec(data_type, *texts)[i as int]));
        }
        i = i + 1;
    }
    proof {
        assert(offered_spec(data_type, *texts).take(i as int) =~= offered_spec(data_type, *texts));
    }
    v
}

/// The entries of one column's menu, in order, with the summaries its type
/// offers.
pub fn entries(column: &Column, texts: &MenuTexts) -> (out: Vec<Entry>)
    ensures
        entries_view(out@) == entries_spec(*column, *texts, offered_spec(column.data_type, *texts)),
{
    let offered_list = offered(column.data_type, texts);
    let allowed = offered_list.as_slice();
    let ghost c = *column;
    let ghost t = *texts;
    let ghost al = allowed_view(allowed@);
    let mut out: Vec<Entry> = Vec::new();
    out.push(Entry::radio("sort:asc".to_string(), texts.sort_ascending.as_str(), is_sorted_as(column, "asc")));
    out.push(Entry::radio("sort:desc".to_string(), texts.sort_descending.as_str(), is_sorted_as(column, "desc")));
    out.push(Entry::Separator);
    out.push(Entry::item("filter".to_string(), texts.filter_column.as_str()));
    let ghost head = entries_view(out@);
    proof {
        assert(head =~= seq![
            radio_v("sort:asc"@, t.sort_ascending@, sorted_as(c, "asc"@)),
            radio_v("sort:desc"@, t.sort_descending@, sorted_as(c, "desc"@)),
            EntryV::Separator,
            item_v("filter"@, t.filter_column@),
        ]);
    }
    if allowed.len() > 1 {
        let mut group: Vec<Entry> = Vec::new();
        group.push(Entry::radio("aggregate:none".to_string(), texts.aggregate_none.as_str(), column.aggregate.is_none()));
        let mut i: usize = 0;
        while i < allowed.len()
            invariant
                i <= allowed@.len(),
                al == allowed_view(allowed@),
                c == *column,
                t == *texts,
                entries_view(group@) == aggregate_choices(c, t, al).take(i + 1),
            decreases allowed.len() - i,
        {
            let summary = allowed[i].0;
            let action = concat_text("aggregate:", summary.as_str());
            let e = Entry::radio(action, allowed[i].1.as_str(), same_summary(column.aggregate, summary));
            let ghost before = entries_view(group@);
            group.push(e);
            proof {
                assert(entries_view(group@) =~= before.push(entry_view(e)));
                assert(aggregate_choices(c, t, al).take(i + 2) =~= aggregate_choices(c, t, al).take(
                    i + 1,
                ).push(aggregate_choices(c, t, al)[i + 1]));
            }
            i = i + 1;
        }
        let ghost choices = entries_view(group@);
        proof {
            assert(aggregate_choices(c, t, al).take(i + 1) =~= aggregate_choices(c, t, al));
        }
        let g = Entry::Group { label: texts.aggregate_group.clone(), entries: group };
        proof {
            assert(entry_view(g) == EntryV::Group { label: t.aggregate_group@, entries: choices })
                by {
                if let EntryV::Group { label, entries } = entry_view(g) {
                    assert(entries =~= choices);
                }
            }
        }
        out.push(Entry::Separator);
        out.push(g);
    }
    let ghost upto = entries_view(out@);
    proof {
        let aggregates = if al.len() > 1 {
            seq![
                EntryV::Separator,
                EntryV::Group { label: t.aggregate_group@, entries: aggregate_choices(c, t, al) },
            ]
        } else {
            Seq::empty()
        };
        assert(upto =~= head + aggregates);
    }
    let grouping = column.can_group && groupable(column.data_type);
    let hide = column.visible > 1;
    proof {
        assert(grouping ==> grouping_choices(c, t).len() > 0);
    }
    if grouping || hide {
        out.push(Entry::Separator);
    }
    let ghost before_rest = entries_view(out@);
    if grouping {
        if contains_text(column.group_by, column.name) {
            out.push(Entry::item("group:remove".to_string(), texts.ungroup_column.as_str()));
        } else {
            out.push(Entry::item("group:first".to_string(), texts.group_by_column.as_str()));
            if column.group_by.len() > 0 {
                out.push(Entry::item("group:second".to_string(), texts.group_second_level.as_str()));
            }
        }
    }
    proof {
        assert(entries_view(out@) =~= before_rest + grouping_choices(c, t));
    }
    let ghost before_hide = entries_view(out@);
    if hide {
        out.push(Entry::item("hide".to_string(), texts.hide_column.as_str()));
    }
    proof {
        let h = if c.visible > 1 {
            seq![item_v("hide"@, t.hide_column@)]
        } else {
            Seq::<EntryV>::empty()
        };
        assert(entries_view(out@) =~= before_hide + h);
        let rest = grouping_choices(c, t) + h;
        let tail = if rest.len() > 0 {
            seq![EntryV::Separator] + rest
        } else {
            Seq::<EntryV>::empty()
        };
        assert(entries_view(out@) =~= upto + tail);
    }
    out
}

/// The grouping a `group:*` action leaves behind: `first` makes this column
/// the only level, `second` keeps the outermost level and puts this column
/// under it, `remove` takes it out; anything else changes nothing.
pub open spec fn regrouped_spec(
    action: Seq<char>,
    column: Seq<char>,
    group_by: Seq<Seq<char>>,
) -> Seq<Seq<char>> {
    if action == "group:first"@ {
        seq![column]
    } else if action == "group:second"@ {
        if group_by.len() == 0 {
            seq![column]
        } else if group_by[0] == column {
            seq![group_by[0]]
        } else {
            seq![group_by[0], column]
        }
    } else if action == "group:remove"@ {
        group_by.filter(|n: Seq<char>| n != column)
    } else {
        group_by
    }
}

/// The grouping a `group:*` action leaves behind.
pub fn regrouped(action: &str, column: &str, group_by: &[String]) -> (out: Vec<String>)
    ensures
        views(out@) == regrouped_spec(action@, column@, views(group_by@)),
{
    let ghost by = views(group_by@);
    if same_text(action, "group:first") {
        let out = vec![column.to_string()];
        proof {
            assert(views(out@) =~= seq![column@]);
        }
        return out;
    }
    if same_text(action, "group:second") {
        let mut out: Vec<String> = Vec::new();
        if group_by.len() > 0 {
            out.push(group_by[0].clone());
        }
        if out.len() == 0 || !same_text(out[0].as_str(), column) {
            out.push(column.to_string());
        }
        proof {
            if group_by.len() == 0 {
                assert(views(out@) =~= seq![column@]);
            } else if by[0] == column@ {
                assert(views(out@) =~= seq![by[0]]);
            } else {
                assert(views(out@) =~= seq![by[0], column@]);
            }
        }
        return out;
    }
    if same_text(action, "group:remove") {
        let mut out: Vec<String> = Vec::new();
        let mut i: usize = 0;
        while i < group_by.len()
            invariant
                i <= group_by@.len(),
                by == views(group_by@),
                views(out@) == by.take(i as int).filter(|n: Seq<char>| n != column@),
            decreases group_by.len() - i,
        {
            proof {
                reveal(Seq::filter);
                assert(by.take(i + 1).drop_last() =~= by.take(i as int));
                assert(by.take(i + 1).last() == group_by@[i as int]@);
            }
            if !same_text(group_by[i].as_str(), column) {
                let ghost before = views(out@);
                out.push(group_by[i].clone());
                proof {
                    assert(views(out@) =~= before.push(group_by@[i as int]@));
                }
            }
            i = i + 1;
        }
        proof {
            assert(by.take(i as int) =~= by);
        }
        return out;
    }
    let mut out: Vec<String> = Vec::new();
    let mut i: usize = 0;
    while i < group_by.len()
        invariant
            i <= group_by@.len(),
            by == views(group_by@),
            views(out@) == by.take(i as int),
        decreases group_by.len() - i,
    {
        let ghost before = views(out@);
        out.push(group_by[i].clone());
        proof {
            assert(views(out@) =~= before.push(group_by@[i as int]@));
            assert(by.take(i + 1) =~= by.take(i as int).push(by[i as int]));
        }
        i = i + 1;
    }
    proof {
        assert(by.take(i as int) =~= by);
    }
    out
}

/// No action takes a grouping past two levels.
pub proof fn lemma_regrouped_at_most_two(
    action: Seq<char>,
    column: Seq<char>,
    group_by: Seq<Seq<char>>,
)
    requires
        group_by.len() <= MAX_LEVELS,
    ensures
        regrouped_spec(action, column, group_by).len() <= MAX_LEVELS,
{
    group_by.lemma_filter_len(|n: Seq<char>| n != column);
}

} // verus!
