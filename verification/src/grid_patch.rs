//! One frame of the grid, as patches on the skeleton's nodes: the role, the
//! sizer and `aria-rowcount`, the pager, the select-all header, the status
//! line, the filter row's controls, the header cells and the pooled rows.
//!
//! Counting rules: `aria-rowcount` is the rendered rows plus one, because
//! the header row counts, and a row's `aria-rowindex` is its place in the
//! rendered area plus two. Focus: exactly the active cell gets
//! `tabindex="0"`; the pinned slot — the one holding the focused cell — keeps
//! its position, its row and its text, and only its selection (or, on a
//! group header, its label and state) follows.

use vstd::prelude::*;

use crate::display::{
    aria_sort, aria_sort_spec, check_glyph, direction_glyph, direction_glyph_spec, glyph_spec,
    row_style, row_style_spec, select_all_spec, select_all_state, sort_position,
    sort_position_spec, sorts_view, tabindex_for, CheckState,
};
use crate::filters::{
    input_step, input_step_spec, input_type, input_type_spec, operators_for, operators_spec,
    tokens_view, DataType,
};
use crate::keys::{ActiveCell, CellRef};
use crate::patch::{attr, remove, text, PatchList, PatchV};
use crate::query::{status_state, GridStatus};
use crate::summary::Summary;
use crate::text::{decimal, push_decimal, same_text, trim, trimmed, views};
use crate::window::Paging;

verus! {

/// The paging controls.
#[derive(Clone, Copy, Debug, PartialEq, Eq)]
pub struct PagerNodes {
    pub container: u64,
    pub first: u64,
    pub previous: u64,
    pub next: u64,
    pub last: u64,
    pub label: u64,
}

/// The nodes of one header cell: the `<th>`, its sort direction mark and
/// its multi-sort index.
#[derive(Clone, Copy, Debug, PartialEq, Eq)]
pub struct HeaderNodes {
    pub cell: u64,
    pub direction: u64,
    pub index: u64,
}

/// The controls of one column's filter group: the operator `<select>`, one
/// `<option>` per operator and the value `<input>`.
#[derive(Clone, Debug, PartialEq, Eq)]
pub struct FilterColumnNodes {
    pub select: u64,
    pub options: Vec<u64>,
    pub input: u64,
}

/// The nodes of one pooled row: the `<tr>`, the selection cell with its
/// mark when the column is shown, and one `<td>` per column.
#[derive(Clone, Debug, PartialEq, Eq)]
pub struct RowNodes {
    pub row: u64,
    pub select: Option<(u64, u64)>,
    pub cells: Vec<u64>,
}

/// The nodes a frame patches.
#[derive(Clone, Debug, PartialEq, Eq)]
pub struct GridNodes {
    pub table: u64,
    pub tbody: u64,
    pub status: u64,
    /// The mark in the header above the selection column, when shown.
    pub select_all_mark: Option<u64>,
    pub filter_columns: Vec<FilterColumnNodes>,
    pub header_cells: Vec<HeaderNodes>,
    pub rows: Vec<RowNodes>,
    pub pager: PagerNodes,
}

/// One cell of a group header or of the total row, as the page's words
/// and format make it: its text, and the summary it shows with the
/// accessible name that says it.
#[derive(Clone, Debug, PartialEq, Eq)]
pub struct GroupCell {
    pub text: String,
    pub aggregate: Option<(Summary, String)>,
}

/// A group header or the total row.
#[derive(Clone, Debug, PartialEq, Eq)]
pub struct GroupRow {
    /// The total rather than a group.
    pub total: bool,
    pub level: usize,
    /// Whether the group is open; `None` for the total.
    pub expanded: Option<bool>,
    /// The sentence of the first cell ("country: DE (52 rows)").
    pub label: String,
    /// The cells by column; the first is the label's.
    pub cells: Vec<GroupCell>,
}

/// What a pooled slot shows.
#[derive(Clone, Debug, PartialEq, Eq)]
pub enum SlotContent {
    /// A data row: whether it is selected, which cells are changed, the cell
    /// being edited, and the cells' text in the column's format.
    Data { selected: bool, changed: Vec<bool>, editing: Option<usize>, texts: Vec<String> },
    /// A group header or the total row.
    Group(GroupRow),
}

/// Everything one frame is drawn from.
pub struct GridFrame<'a> {
    /// The grid is grouped, with this many levels.
    pub grouped: bool,
    pub levels: usize,
    pub paging: Paging,
    pub total_count: u64,
    /// "Page 3 of 12", in the page's words.
    pub page_label: String,
    pub row_height: u64,
    /// How many rows are selected.
    pub selected: usize,
    pub status: GridStatus,
    pub status_text: String,
    /// The page's language, or empty.
    pub lang: String,
    /// The schema: each column's name, type and whether it holds NULL.
    pub fields: Vec<(String, DataType, bool)>,
    /// The operator each `<option>` of the filter row stands for.
    pub operators: Vec<String>,
    pub sorts: &'a [(String, &'a str)],
    /// The aggregates the groups show, as `(column, summary)`.
    pub aggregates: Vec<(String, Summary)>,
    pub active: ActiveCell,
    /// The logical row of each slot, and the slot holding the focus.
    pub slots: Vec<Option<u64>>,
    pub pinned_slot: Option<usize>,
    /// What each slot shows.
    pub contents: Vec<SlotContent>,
}

/// `tabindex` as a text.
pub open spec fn tabindex_spec(is_active: bool) -> Seq<char> {
    if is_active {
        "0"@
    } else {
        "-1"@
    }
}

/// A boolean as its text.
pub open spec fn bool_text(b: bool) -> Seq<char> {
    if b {
        "true"@
    } else {
        "false"@
    }
}

/// The role, the sizer and the row count.
pub open spec fn head_spec(n: GridNodes, grouped: bool, rows: u64, row_height: u64) -> Seq<PatchV> {
    seq![
        attr(
            n.table as nat,
            "role"@,
            if grouped {
                "treegrid"@
            } else {
                "grid"@
            },
        ),
        attr(
            n.tbody as nat,
            "style"@,
            "position: relative; height: "@ + decimal((rows * row_height) as nat) + "px;"@,
        ),
        attr(n.table as nat, "aria-rowcount"@, decimal((rows + 1) as nat)),
    ]
}

/// The page shown, counted from 0.
pub open spec fn page_index(p: Paging) -> nat {
    match p.size {
        Some(s) => if s > 0 {
            (p.base / s) as nat
        } else {
            0
        },
        None => 0,
    }
}

/// Whether the page shown is the last one.
pub open spec fn at_last_page(p: Paging, total: u64) -> bool {
    match p.size {
        Some(s) => s == 0 || (page_index(p) + 1) * s >= total,
        None => true,
    }
}

/// A paging button, disabled or not.
pub open spec fn disabled_spec(node: u64, disabled: bool) -> PatchV {
    if disabled {
        attr(node as nat, "disabled"@, ""@)
    } else {
        remove(node as nat, "disabled"@)
    }
}

/// The pager: hidden while the grid virtualizes; else where the reader is,
/// with the buttons that cannot move disabled.
pub open spec fn pager_spec(p: PagerNodes, paging: Paging, total: u64, label: Seq<char>) -> Seq<
    PatchV,
> {
    match paging.size {
        None => seq![attr(p.container as nat, "hidden"@, ""@)],
        Some(_) => {
            let first = page_index(paging) == 0;
            let last = at_last_page(paging, total);
            seq![
                remove(p.container as nat, "hidden"@),
                attr(p.container as nat, "aria-label"@, label),
                text(p.label as nat, label),
                disabled_spec(p.first, first),
                disabled_spec(p.previous, first),
                disabled_spec(p.next, last),
                disabled_spec(p.last, last),
            ]
        },
    }
}

/// The select-all header, in its three states.
pub open spec fn select_all_patches(
    mark: Option<u64>,
    active: ActiveCell,
    selected: usize,
    total: u64,
) -> Seq<PatchV> {
    match mark {
        Some(m) => {
            let all = select_all_spec(selected as int, total as int);
            seq![
                attr(m as nat, "tabindex"@, tabindex_spec(active == ActiveCell::SelectAll)),
                attr(m as nat, "aria-checked"@, all.name()),
                text(m as nat, glyph_spec(all)),
            ]
        },
        None => Seq::empty(),
    }
}

/// The status line: its state and its sentence.
pub open spec fn status_patches(node: u64, status: GridStatus, sentence: Seq<char>) -> Seq<PatchV> {
    seq![
        attr(
            node as nat,
            "data-state"@,
            match status {
                GridStatus::Loading => "loading"@,
                GridStatus::Ready => "ready"@,
                GridStatus::Empty => "empty"@,
                GridStatus::Error(_) => "error"@,
            },
        ),
        text(node as nat, sentence),
    ]
}

/// Sets or takes off the attributes of a paging button.
fn set_disabled(list: &mut PatchList, node: u64, disabled: bool)
    ensures
        final(list).next == old(list).next,
        final(list).view_patches() == old(list).view_patches().push(disabled_spec(node, disabled)),
{
    if disabled {
        list.attribute(node, "disabled", "");
    } else {
        list.remove_attribute(node, "disabled");
    }
}

/// Updates the paging controls, or hides them while the grid virtualizes.
fn patch_pager(list: &mut PatchList, p: &PagerNodes, paging: Paging, total: u64, label: &str)
    ensures
        final(list).next == old(list).next,
        final(list).view_patches() == old(list).view_patches() + pager_spec(
            *p,
            paging,
            total,
            label@,
        ),
{
    let ghost before = list.view_patches();
    match paging.size {
        None => {
            list.attribute(p.container, "hidden", "");
            proof {
                reveal_strlit("");
                assert(list.view_patches() =~= before + pager_spec(*p, paging, total, label@));
            }
        },
        Some(size) => {
            list.remove_attribute(p.container, "hidden");
            list.attribute(p.container, "aria-label", label);
            list.set_text(p.label, label);
            let page = paging.index();
            let last = if size == 0 {
                true
            } else {
                match page.checked_add(1) {
                    Some(next) => match next.checked_mul(size) {
                        Some(reach) => reach >= total,
                        None => true,
                    },
                    None => true,
                }
            };
            proof {
                assert(page == page_index(paging));
                if size > 0 {
                    assert((page + 1) * size >= page + 1) by (nonlinear_arith)
                        requires
                            size > 0,
                    ;
                }
                assert(last == at_last_page(paging, total));
            }
            set_disabled(list, p.first, page == 0);
            set_disabled(list, p.previous, page == 0);
            set_disabled(list, p.next, last);
            set_disabled(list, p.last, last);
            proof {
                assert(list.view_patches() =~= before + pager_spec(*p, paging, total, label@));
            }
        },
    }
}

/// Whether an operator option applies to its column's type.
pub open spec fn option_fits(ops: Seq<Seq<char>>, index: int, allowed: Seq<Seq<char>>) -> bool {
    0 <= index < ops.len() && allowed.contains(ops[index])
}

/// An operator option: hidden and disabled unless it applies.
pub open spec fn option_patches(node: u64, fits: bool) -> Seq<PatchV> {
    if fits {
        seq![remove(node as nat, "hidden"@), remove(node as nat, "disabled"@)]
    } else {
        seq![attr(node as nat, "hidden"@, ""@), attr(node as nat, "disabled"@, ""@)]
    }
}

/// The first `k` operator options of a column.
pub open spec fn options_spec(
    options: Seq<u64>,
    ops: Seq<Seq<char>>,
    allowed: Seq<Seq<char>>,
    k: nat,
) -> Seq<PatchV>
    decreases k,
{
    if k == 0 {
        Seq::empty()
    } else {
        options_spec(options, ops, allowed, (k - 1) as nat) + option_patches(
            options[k - 1],
            option_fits(ops, k - 1, allowed),
        )
    }
}

/// One column's filter controls, by its type: the operators that apply, the
/// input's type and its step.
pub open spec fn filter_column_spec(
    c: FilterColumnNodes,
    ops: Seq<Seq<char>>,
    data_type: DataType,
    nullable: bool,
) -> Seq<PatchV> {
    options_spec(c.options@, ops, operators_spec(data_type, nullable), c.options@.len())
        + seq![attr(c.input as nat, "type"@, input_type_spec(data_type))] + match input_step_spec(
        data_type,
    ) {
        Some(step) => seq![attr(c.input as nat, "step"@, step)],
        None => seq![remove(c.input as nat, "step"@)],
    }
}

/// The filter controls of the first `k` columns; a column the schema does
/// not have is left alone.
pub open spec fn filter_spec(
    cols: Seq<FilterColumnNodes>,
    ops: Seq<Seq<char>>,
    fields: Seq<(String, DataType, bool)>,
    k: nat,
) -> Seq<PatchV>
    decreases k,
{
    if k == 0 {
        Seq::empty()
    } else {
        filter_spec(cols, ops, fields, (k - 1) as nat) + if k - 1 < fields.len() {
            filter_column_spec(cols[k - 1], ops, fields[k - 1].1, fields[k - 1].2)
        } else {
            Seq::empty()
        }
    }
}

/// Whether a token is among some tokens.
fn has_token(tokens: &[&'static str], t: &str) -> (b: bool)
    ensures
        b == tokens_view(tokens@).contains(t@),
{
    let mut i: usize = 0;
    while i < tokens.len()
        invariant
            i <= tokens@.len(),
            forall|j: int| 0 <= j < i ==> tokens_view(tokens@)[j] != t@,
        decreases tokens.len() - i,
    {
        if same_text(tokens[i], t) {
            proof {
                assert(tokens_view(tokens@)[i as int] == t@);
            }
            return true;
        }
        i = i + 1;
    }
    false
}

/// One column's filter controls.
fn patch_filter_column(
    list: &mut PatchList,
    c: &FilterColumnNodes,
    ops: &Vec<String>,
    data_type: DataType,
    nullable: bool,
)
    ensures
        final(list).next == old(list).next,
        final(list).view_patches() == old(list).view_patches() + filter_column_spec(
            *c,
            views(ops@),
            data_type,
            nullable,
        ),
{
    let ghost before = list.view_patches();
    let ghost vops = views(ops@);
    let allowed = operators_for(data_type, nullable);
    let ghost al = tokens_view(allowed@);
    let mut i: usize = 0;
    while i < c.options.len()
        invariant
            i <= c.options@.len(),
            list.next == old(list).next,
            al == operators_spec(data_type, nullable),
            al == tokens_view(allowed@),
            vops == views(ops@),
            list.view_patches() == before + options_spec(c.options@, vops, al, i as nat),
        decreases c.options.len() - i,
    {
        let fits = i < ops.len() && has_token(allowed.as_slice(), ops[i].as_str());
        let ghost at = list.view_patches();
        if fits {
            list.remove_attribute(c.options[i], "hidden");
            list.remove_attribute(c.options[i], "disabled");
        } else {
            list.attribute(c.options[i], "hidden", "");
            list.attribute(c.options[i], "disabled", "");
        }
        proof {
            reveal_strlit("");
            assert(fits == option_fits(vops, i as int, al));
            assert(list.view_patches() =~= at + option_patches(c.options@[i as int], fits));
        }
        i = i + 1;
    }
    let ghost mid = list.view_patches();
    list.attribute(c.input, "type", input_type(data_type));
    match input_step(data_type) {
        Some(step) => list.attribute(c.input, "step", step.as_str()),
        None => list.remove_attribute(c.input, "step"),
    }
    proof {
        assert(list.view_patches() =~= before + filter_column_spec(*c, vops, data_type, nullable));
    }
}

/// The filter row follows the schema: which operators a column offers and
/// what kind of input it takes are decided by its type.
fn patch_filter(
    list: &mut PatchList,
    cols: &Vec<FilterColumnNodes>,
    ops: &Vec<String>,
    fields: &Vec<(String, DataType, bool)>,
)
    ensures
        final(list).next == old(list).next,
        final(list).view_patches() == old(list).view_patches() + filter_spec(
            cols@,
            views(ops@),
            fields@,
            cols@.len() as nat,
        ),
{
    let ghost before = list.view_patches();
    let mut col: usize = 0;
    while col < cols.len()
        invariant
            col <= cols@.len(),
            list.next == old(list).next,
            list.view_patches() == before + filter_spec(cols@, views(ops@), fields@, col as nat),
        decreases cols.len() - col,
    {
        let ghost at = list.view_patches();
        if col < fields.len() {
            patch_filter_column(list, &cols[col], ops, fields[col].1, fields[col].2);
        }
        proof {
            assert(list.view_patches() =~= at + (if col < fields@.len() {
                filter_column_spec(cols@[col as int], views(ops@), fields@[col as int].1, fields@[col as int].2)
            } else {
                Seq::empty()
            }));
        }
        col = col + 1;
    }
}

/// The summary the column named `name` shows in groups: the first chosen
/// for it.
pub open spec fn first_aggregate(aggs: Seq<(String, Summary)>, name: Seq<char>) -> Option<Summary>
    decreases aggs.len(),
{
    if aggs.len() == 0 {
        None
    } else if aggs[0].0@ == name {
        Some(aggs[0].1)
    } else {
        first_aggregate(aggs.drop_first(), name)
    }
}

/// The summary a column shows in groups.
fn aggregate_of(aggs: &Vec<(String, Summary)>, name: &str) -> (r: Option<Summary>)
    ensures
        r == first_aggregate(aggs@, name@),
{
    let mut i: usize = 0;
    proof {
        assert(aggs@.skip(0) =~= aggs@);
    }
    while i < aggs.len()
        invariant
            i <= aggs@.len(),
            first_aggregate(aggs@, name@) == first_aggregate(aggs@.skip(i as int), name@),
        decreases aggs.len() - i,
    {
        proof {
            assert(aggs@.skip(i as int)[0] == aggs@[i as int]);
            assert(aggs@.skip(i as int).drop_first() =~= aggs@.skip(i + 1));
        }
        if same_text(aggs[i].0.as_str(), name) {
            return Some(aggs[i].1);
        }
        i = i + 1;
    }
    proof {
        assert(aggs@.skip(i as int).len() == 0);
    }
    None
}

/// Where a name stands among the sort keys lies inside them.
proof fn lemma_position_inside(fields: Seq<Seq<char>>, name: Seq<char>)
    ensures
        sort_position_spec(fields, name) matches Some(i) ==> 0 <= i < fields.len(),
    decreases fields.len(),
{
    if fields.len() > 0 {
        lemma_position_inside(fields.drop_first(), name);
    }
}

/// The sort key a header stands for, if any.
pub open spec fn header_key(
    fields: Seq<(String, DataType, bool)>,
    sorts: Seq<(String, &str)>,
    col: int,
) -> Option<int> {
    if 0 <= col < fields.len() {
        sort_position_spec(sorts_view(sorts), fields[col].0@)
    } else {
        None
    }
}

/// One header cell: `aria-sort` and the two marks from the same key, so what
/// is seen and what is announced cannot drift apart; the roving tabindex;
/// the summary the column shows in groups.
pub open spec fn header_patches(
    h: HeaderNodes,
    col: int,
    fields: Seq<(String, DataType, bool)>,
    sorts: Seq<(String, &str)>,
    grouped: bool,
    aggs: Seq<(String, Summary)>,
    active: ActiveCell,
) -> Seq<PatchV> {
    let key = header_key(fields, sorts, col);
    let agg = if grouped && 0 <= col < fields.len() {
        first_aggregate(aggs, fields[col].0@)
    } else {
        None
    };
    seq![
        attr(
            h.cell as nat,
            "aria-sort"@,
            match key {
                Some(p) => aria_sort_spec(sorts[p].1@),
                None => "none"@,
            },
        ),
        attr(h.cell as nat, "tabindex"@, tabindex_spec(active == ActiveCell::Header { col: col as usize })),
        match agg {
            Some(s) => attr(h.cell as nat, "data-aggregate"@, s.name()),
            None => remove(h.cell as nat, "data-aggregate"@),
        },
        text(
            h.direction as nat,
            match key {
                Some(p) => direction_glyph_spec(sorts[p].1@),
                None => Seq::empty(),
            },
        ),
        text(
            h.index as nat,
            if sorts.len() > 1 {
                match key {
                    Some(p) => decimal((p + 1) as nat),
                    None => Seq::empty(),
                }
            } else {
                Seq::empty()
            },
        ),
    ]
}

/// The first `k` header cells.
pub open spec fn headers_spec(
    hs: Seq<HeaderNodes>,
    fields: Seq<(String, DataType, bool)>,
    sorts: Seq<(String, &str)>,
    grouped: bool,
    aggs: Seq<(String, Summary)>,
    active: ActiveCell,
    k: nat,
) -> Seq<PatchV>
    decreases k,
{
    if k == 0 {
        Seq::empty()
    } else {
        headers_spec(hs, fields, sorts, grouped, aggs, active, (k - 1) as nat) + header_patches(
            hs[k - 1],
            k - 1,
            fields,
            sorts,
            grouped,
            aggs,
            active,
        )
    }
}

/// One header cell.
#[verifier::rlimit(30)]
fn patch_header(
    list: &mut PatchList,
    h: HeaderNodes,
    col: usize,
    fields: &Vec<(String, DataType, bool)>,
    sorts: &[(String, &str)],
    grouped: bool,
    aggs: &Vec<(String, Summary)>,
    active: ActiveCell,
)
    ensures
        final(list).next == old(list).next,
        final(list).view_patches() == old(list).view_patches() + header_patches(
            h,
            col as int,
            fields@,
            sorts@,
            grouped,
            aggs@,
            active,
        ),
{
    let ghost at = list.view_patches();
    let key: Option<usize> = if col < fields.len() {
        sort_position(sorts, fields[col].0.as_str())
    } else {
        None
    };
    proof {
        if col < fields@.len() {
            lemma_position_inside(sorts_view(sorts@), fields@[col as int].0@);
        }
        assert(key matches Some(p) ==> header_key(fields@, sorts@, col as int) == Some(p as int));
        assert(key is None ==> header_key(fields@, sorts@, col as int) is None);
    }
    match key {
        Some(p) => list.attribute(h.cell, "aria-sort", aria_sort(sorts[p].1)),
        None => list.attribute(h.cell, "aria-sort", "none"),
    }
    list.attribute(h.cell, "tabindex", tabindex_for(active == ActiveCell::Header { col }));
    let agg = if grouped && col < fields.len() {
        aggregate_of(aggs, fields[col].0.as_str())
    } else {
        None
    };
    match agg {
        Some(s) => list.attribute(h.cell, "data-aggregate", s.as_str()),
        None => list.remove_attribute(h.cell, "data-aggregate"),
    }
    match key {
        Some(p) => list.set_text(h.direction, direction_glyph(sorts[p].1)),
        None => list.set_text(h.direction, ""),
    }
    if sorts.len() > 1 {
        match key {
            Some(p) => {
                let mut n = String::new();
                push_decimal(&mut n, (p + 1) as u64);
                list.set_text(h.index, n.as_str());
            },
            None => list.set_text(h.index, ""),
        }
    } else {
        list.set_text(h.index, "");
    }
    proof {
        reveal_strlit("");
        assert(""@ =~= Seq::<char>::empty());
        assert(list.view_patches() =~= at + header_patches(
            h,
            col as int,
            fields@,
            sorts@,
            grouped,
            aggs@,
            active,
        ));
    }
}

/// The header cells.
fn patch_headers(
    list: &mut PatchList,
    hs: &Vec<HeaderNodes>,
    fields: &Vec<(String, DataType, bool)>,
    sorts: &[(String, &str)],
    grouped: bool,
    aggs: &Vec<(String, Summary)>,
    active: ActiveCell,
)
    ensures
        final(list).next == old(list).next,
        final(list).view_patches() == old(list).view_patches() + headers_spec(
            hs@,
            fields@,
            sorts@,
            grouped,
            aggs@,
            active,
            hs@.len() as nat,
        ),
{
    let ghost before = list.view_patches();
    let mut col: usize = 0;
    while col < hs.len()
        invariant
            col <= hs@.len(),
            list.next == old(list).next,
            list.view_patches() == before + headers_spec(
                hs@,
                fields@,
                sorts@,
                grouped,
                aggs@,
                active,
                col as nat,
            ),
        decreases hs.len() - col,
    {
        let ghost at = list.view_patches();
        patch_header(list, hs[col], col, fields, sorts, grouped, aggs, active);
        proof {
            assert(list.view_patches() =~= at + header_patches(
                hs@[col as int],
                col as int,
                fields@,
                sorts@,
                grouped,
                aggs@,
                active,
            ));
        }
        col = col + 1;
    }
}

/// A row's selection: the announcement and the styling hook.
pub open spec fn selection_patches(row: u64, selected: bool) -> Seq<PatchV> {
    seq![attr(row as nat, "aria-selected"@, bool_text(selected))] + if selected {
        seq![attr(row as nat, "data-selected"@, "true"@)]
    } else {
        seq![remove(row as nat, "data-selected"@)]
    }
}

/// The selection cell of a row: its tabindex and its mark.
pub open spec fn select_cell_patches(
    select: Option<(u64, u64)>,
    active: ActiveCell,
    row: u64,
    mark: Seq<char>,
) -> Seq<PatchV> {
    match select {
        Some((cell, m)) => seq![
            attr(cell as nat, "tabindex"@, tabindex_spec(active == ActiveCell::Select { row })),
            text(m as nat, mark),
        ],
        None => Seq::empty(),
    }
}

/// The mark of a row's selection cell.
pub open spec fn row_mark(selected: bool) -> Seq<char> {
    glyph_spec(
        if selected {
            CheckState::On
        } else {
            CheckState::Off
        },
    )
}

/// The text and summary of cell `col` of a group row.
pub open spec fn group_cell_of(g: GroupRow, col: int) -> (Seq<char>, Option<(Summary, Seq<char>)>) {
    if 0 <= col < g.cells@.len() {
        let c = g.cells@[col];
        (
            c.text@,
            match c.aggregate {
                Some((s, aria)) => Some((s, aria@)),
                None => None,
            },
        )
    } else {
        (Seq::empty(), None)
    }
}

/// Cell `col` of a group row: the first holds the label (in the page's
/// language on the total, which is all ours); the others their summary,
/// named in words, or nothing.
pub open spec fn group_cell_patches(cell: u64, col: int, g: GroupRow, lang: Seq<char>) -> Seq<
    PatchV,
> {
    if col == 0 {
        (if g.total && trim(lang).len() > 0 {
            seq![attr(cell as nat, "lang"@, lang)]
        } else {
            seq![remove(cell as nat, "lang"@)]
        }) + seq![
            remove(cell as nat, "data-aggregate"@),
            remove(cell as nat, "aria-label"@),
            text(cell as nat, g.label@),
        ]
    } else {
        let (t, agg) = group_cell_of(g, col);
        (match agg {
            Some((s, aria)) => if t.len() == 0 {
                seq![remove(cell as nat, "data-aggregate"@), attr(cell as nat, "aria-label"@, aria)]
            } else {
                seq![
                    attr(cell as nat, "data-aggregate"@, s.name()),
                    attr(cell as nat, "aria-label"@, aria),
                ]
            },
            None => seq![remove(cell as nat, "data-aggregate"@), remove(cell as nat, "aria-label"@)],
        }) + seq![text(cell as nat, t)]
    }
}

/// The first `k` cells of a group row.
pub open spec fn group_cells_spec(cells: Seq<u64>, g: GroupRow, lang: Seq<char>, k: nat) -> Seq<
    PatchV,
>
    decreases k,
{
    if k == 0 {
        Seq::empty()
    } else {
        group_cells_spec(cells, g, lang, (k - 1) as nat) + group_cell_patches(
            cells[k - 1],
            k - 1,
            g,
            lang,
        )
    }
}

/// A group header or the total written into a pooled row: what it is, its
/// level and state, no selection, and its cells.
pub open spec fn group_row_patches(rn: RowNodes, g: GroupRow, lang: Seq<char>) -> Seq<PatchV> {
    let r = rn.row as nat;
    seq![
        attr(
            r,
            "data-kind"@,
            if g.total {
                "total"@
            } else {
                "group"@
            },
        ),
        attr(r, "data-level"@, decimal(g.level as nat)),
        attr(r, "aria-level"@, decimal(g.level as nat)),
        match g.expanded {
            Some(e) => attr(r, "aria-expanded"@, bool_text(e)),
            None => remove(r, "aria-expanded"@),
        },
        remove(r, "aria-selected"@),
        remove(r, "data-selected"@),
    ] + group_cells_spec(rn.cells@, g, lang, rn.cells@.len() as nat)
}

/// Cell `col` of a data row.
pub open spec fn data_cell_patches(
    cell: u64,
    row: u64,
    col: int,
    grouped: bool,
    changed: Seq<bool>,
    editing: Option<usize>,
    texts: Seq<String>,
    active: ActiveCell,
) -> Seq<PatchV> {
    seq![attr(cell as nat, "data-row"@, decimal(row as nat))] + (if grouped {
        seq![remove(cell as nat, "data-aggregate"@), remove(cell as nat, "aria-label"@)]
    } else {
        Seq::empty()
    }) + seq![
        attr(
            cell as nat,
            "tabindex"@,
            tabindex_spec(active == ActiveCell::Data(CellRef { row, col: col as usize })),
        ),
    ] + (if 0 <= col < changed.len() && changed[col] {
        seq![attr(cell as nat, "data-changed"@, "true"@)]
    } else {
        seq![remove(cell as nat, "data-changed"@)]
    }) + (if editing == Some(col as usize) {
        Seq::empty()
    } else {
        seq![
            text(
                cell as nat,
                if 0 <= col < texts.len() {
                    texts[col]@
                } else {
                    Seq::empty()
                },
            ),
        ]
    })
}

/// The first `k` cells of a data row.
pub open spec fn data_cells_spec(
    cells: Seq<u64>,
    row: u64,
    grouped: bool,
    changed: Seq<bool>,
    editing: Option<usize>,
    texts: Seq<String>,
    active: ActiveCell,
    k: nat,
) -> Seq<PatchV>
    decreases k,
{
    if k == 0 {
        Seq::empty()
    } else {
        data_cells_spec(cells, row, grouped, changed, editing, texts, active, (k - 1) as nat)
            + data_cell_patches(cells[k - 1], row, k - 1, grouped, changed, editing, texts, active)
    }
}

/// A data row written into a pooled row: one level below the groups, no
/// group marks, its selection, and its cells — the one being edited keeps
/// its editor.
pub open spec fn data_row_patches(
    rn: RowNodes,
    row: u64,
    grouped: bool,
    levels: usize,
    selected: bool,
    changed: Seq<bool>,
    editing: Option<usize>,
    texts: Seq<String>,
    active: ActiveCell,
) -> Seq<PatchV> {
    let r = rn.row as nat;
    (if grouped {
        seq![attr(r, "aria-level"@, decimal((levels + 1) as nat))]
    } else {
        seq![remove(r, "aria-level"@)]
    }) + seq![remove(r, "aria-expanded"@), remove(r, "data-kind"@), remove(r, "data-level"@)] + (
    if rn.cells@.len() > 0 {
        seq![remove(rn.cells@[0] as nat, "lang"@)]
    } else {
        Seq::empty()
    }) + selection_patches(rn.row, selected) + select_cell_patches(
        rn.select,
        active,
        row,
        row_mark(selected),
    ) + data_cells_spec(rn.cells@, row, grouped, changed, editing, texts, active, rn.cells@.len() as nat)
}

/// The first `k` cells of a pooled row that shows a group: where it is and
/// the roving tabindex, nothing changed.
pub open spec fn group_slot_cells_spec(cells: Seq<u64>, row: u64, active: ActiveCell, k: nat) -> Seq<
    PatchV,
>
    decreases k,
{
    if k == 0 {
        Seq::empty()
    } else {
        group_slot_cells_spec(cells, row, active, (k - 1) as nat) + seq![
            attr(cells[k - 1] as nat, "data-row"@, decimal(row as nat)),
            attr(
                cells[k - 1] as nat,
                "tabindex"@,
                tabindex_spec(active == ActiveCell::Data(CellRef { row, col: (k - 1) as usize })),
            ),
            remove(cells[k - 1] as nat, "data-changed"@),
        ]
    }
}

/// The place of a logical row in the rendered area.
pub open spec fn local_row(row: u64, base: u64) -> u64 {
    if row >= base {
        (row - base) as u64
    } else {
        0
    }
}

/// The logical row of slot `slot`, if any.
pub open spec fn slot_row(slots: Seq<Option<u64>>, slot: int) -> Option<u64> {
    if 0 <= slot < slots.len() {
        slots[slot]
    } else {
        None
    }
}

/// One pooled slot. The pinned slot keeps its position, its row and its
/// text: only its selection follows, or on a group header its label and
/// state. Any other slot with a row is placed (`aria-rowindex` is its place
/// plus two) and drawn; a slot without one is hidden.
pub open spec fn slot_patches(rn: RowNodes, slot: int, f: GridFrame) -> Seq<PatchV> {
    let content = f.contents@[slot];
    match slot_row(f.slots@, slot) {
        Some(row) => if f.pinned_slot == Some(slot as usize) {
            match content {
                SlotContent::Group(g) => group_row_patches(rn, g, f.lang@),
                SlotContent::Data { selected, .. } => selection_patches(rn.row, selected)
                    + select_cell_patches(rn.select, f.active, row, row_mark(selected)),
            }
        } else {
            let local = local_row(row, f.paging.base);
            seq![
                attr(rn.row as nat, "style"@, row_style_spec(local, f.row_height)),
                attr(rn.row as nat, "aria-rowindex"@, decimal((local + 2) as nat)),
            ] + match content {
                SlotContent::Group(g) => group_slot_cells_spec(
                    rn.cells@,
                    row,
                    f.active,
                    rn.cells@.len() as nat,
                ) + select_cell_patches(rn.select, f.active, row, Seq::empty()) + group_row_patches(
                    rn,
                    g,
                    f.lang@,
                ),
                SlotContent::Data { selected, changed, editing, texts } => data_row_patches(
                    rn,
                    row,
                    f.grouped,
                    f.levels,
                    selected,
                    changed@,
                    editing,
                    texts@,
                    f.active,
                ),
            }
        },
        None => if f.pinned_slot == Some(slot as usize) {
            Seq::empty()
        } else {
            seq![
                attr(rn.row as nat, "style"@, "display: none;"@),
                remove(rn.row as nat, "aria-rowindex"@),
                remove(rn.row as nat, "aria-selected"@),
                remove(rn.row as nat, "data-selected"@),
            ]
        },
    }
}

/// The first `k` pooled slots.
pub open spec fn slots_spec(rows: Seq<RowNodes>, f: GridFrame, k: nat) -> Seq<PatchV>
    decreases k,
{
    if k == 0 {
        Seq::empty()
    } else {
        slots_spec(rows, f, (k - 1) as nat) + slot_patches(rows[k - 1], k - 1, f)
    }
}

/// Whether the rows of a frame fit the numbers they are placed with.
pub open spec fn rows_fit(n: GridNodes, f: GridFrame) -> bool {
    &&& f.contents@.len() >= n.rows@.len()
    &&& f.levels < usize::MAX
    &&& forall|slot: int|
        0 <= slot < n.rows@.len() ==> match #[trigger] slot_row(f.slots@, slot) {
            Some(row) => local_row(row, f.paging.base) * f.row_height <= u64::MAX && local_row(
                row,
                f.paging.base,
            ) + 2 <= u64::MAX,
            None => true,
        }
}

/// A row's selection.
fn patch_selection(list: &mut PatchList, row: u64, selected: bool)
    ensures
        final(list).next == old(list).next,
        final(list).view_patches() == old(list).view_patches() + selection_patches(row, selected),
{
    let ghost before = list.view_patches();
    if selected {
        list.attribute(row, "aria-selected", "true");
        list.attribute(row, "data-selected", "true");
    } else {
        list.attribute(row, "aria-selected", "false");
        list.remove_attribute(row, "data-selected");
    }
    proof {
        assert(list.view_patches() =~= before + selection_patches(row, selected));
    }
}

/// The selection cell of a row.
fn patch_select_cell(
    list: &mut PatchList,
    select: Option<(u64, u64)>,
    active: ActiveCell,
    row: u64,
    mark: &str,
)
    ensures
        final(list).next == old(list).next,
        final(list).view_patches() == old(list).view_patches() + select_cell_patches(
            select,
            active,
            row,
            mark@,
        ),
{
    let ghost before = list.view_patches();
    if let Some((cell, m)) = select {
        list.attribute(cell, "tabindex", tabindex_for(active == ActiveCell::Select { row }));
        list.set_text(m, mark);
    }
    proof {
        assert(list.view_patches() =~= before + select_cell_patches(select, active, row, mark@));
    }
}

/// The mark of a row's selection cell.
fn row_mark_text(selected: bool) -> (s: &'static str)
    ensures
        s@ == row_mark(selected),
{
    check_glyph(
        if selected {
            CheckState::On
        } else {
            CheckState::Off
        },
    )
}

/// One cell of a group row.
fn patch_group_cell(list: &mut PatchList, cell: u64, col: usize, g: &GroupRow, lang: &str)
    ensures
        final(list).next == old(list).next,
        final(list).view_patches() == old(list).view_patches() + group_cell_patches(
            cell,
            col as int,
            *g,
            lang@,
        ),
{
    let ghost before = list.view_patches();
    if col == 0 {
        if g.total && trimmed(lang).unicode_len() > 0 {
            list.attribute(cell, "lang", lang);
        } else {
            list.remove_attribute(cell, "lang");
        }
        list.remove_attribute(cell, "data-aggregate");
        list.remove_attribute(cell, "aria-label");
        list.set_text(cell, g.label.as_str());
    } else if col < g.cells.len() {
        let c = &g.cells[col];
        match &c.aggregate {
            Some((s, aria)) => {
                if c.text.unicode_len() == 0 {
                    list.remove_attribute(cell, "data-aggregate");
                } else {
                    list.attribute(cell, "data-aggregate", s.as_str());
                }
                list.attribute(cell, "aria-label", aria.as_str());
            },
            None => {
                list.remove_attribute(cell, "data-aggregate");
                list.remove_attribute(cell, "aria-label");
            },
        }
        list.set_text(cell, c.text.as_str());
    } else {
        list.remove_attribute(cell, "data-aggregate");
        list.remove_attribute(cell, "aria-label");
        list.set_text(cell, "");
        proof {
            reveal_strlit("");
            assert(""@ =~= Seq::<char>::empty());
        }
    }
    proof {
        assert(list.view_patches() =~= before + group_cell_patches(cell, col as int, *g, lang@));
    }
}

/// Writes a group header, or the total, into a pooled row.
pub fn patch_group_row(list: &mut PatchList, rn: &RowNodes, g: &GroupRow, lang: &str)
    ensures
        final(list).next == old(list).next,
        final(list).view_patches() == old(list).view_patches() + group_row_patches(*rn, *g, lang@),
{
    let ghost before = list.view_patches();
    let r = rn.row;
    if g.total {
        list.attribute(r, "data-kind", "total");
    } else {
        list.attribute(r, "data-kind", "group");
    }
    list.number_attribute(r, "data-level", g.level as u64);
    list.number_attribute(r, "aria-level", g.level as u64);
    match g.expanded {
        Some(e) => if e {
            list.attribute(r, "aria-expanded", "true");
        } else {
            list.attribute(r, "aria-expanded", "false");
        },
        None => list.remove_attribute(r, "aria-expanded"),
    }
    list.remove_attribute(r, "aria-selected");
    list.remove_attribute(r, "data-selected");
    let ghost head = list.view_patches();
    proof {
        assert(head =~= before + seq![
            attr(
                r as nat,
                "data-kind"@,
                if g.total {
                    "total"@
                } else {
                    "group"@
                },
            ),
            attr(r as nat, "data-level"@, decimal(g.level as nat)),
            attr(r as nat, "aria-level"@, decimal(g.level as nat)),
            match g.expanded {
                Some(e) => attr(r as nat, "aria-expanded"@, bool_text(e)),
                None => remove(r as nat, "aria-expanded"@),
            },
            remove(r as nat, "aria-selected"@),
            remove(r as nat, "data-selected"@),
        ]);
    }
    let mut col: usize = 0;
    while col < rn.cells.len()
        invariant
            col <= rn.cells@.len(),
            list.next == old(list).next,
            list.view_patches() == head + group_cells_spec(rn.cells@, *g, lang@, col as nat),
        decreases rn.cells.len() - col,
    {
        patch_group_cell(list, rn.cells[col], col, g, lang);
        col = col + 1;
    }
}

/// One cell of a data row.
fn patch_data_cell(
    list: &mut PatchList,
    cell: u64,
    row: u64,
    col: usize,
    grouped: bool,
    changed: &Vec<bool>,
    editing: Option<usize>,
    texts: &Vec<String>,
    active: ActiveCell,
)
    ensures
        final(list).next == old(list).next,
        final(list).view_patches() == old(list).view_patches() + data_cell_patches(
            cell,
            row,
            col as int,
            grouped,
            changed@,
            editing,
            texts@,
            active,
        ),
{
    let ghost before = list.view_patches();
    list.number_attribute(cell, "data-row", row);
    if grouped {
        list.remove_attribute(cell, "data-aggregate");
        list.remove_attribute(cell, "aria-label");
    }
    list.attribute(cell, "tabindex", tabindex_for(active == ActiveCell::Data(CellRef { row, col })));
    if col < changed.len() && changed[col] {
        list.attribute(cell, "data-changed", "true");
    } else {
        list.remove_attribute(cell, "data-changed");
    }
    let skip = match editing {
        Some(e) => e == col,
        None => false,
    };
    if !skip {
        if col < texts.len() {
            list.set_text(cell, texts[col].as_str());
        } else {
            list.set_text(cell, "");
            proof {
                reveal_strlit("");
                assert(""@ =~= Seq::<char>::empty());
            }
        }
    }
    proof {
        assert(list.view_patches() =~= before + data_cell_patches(
            cell,
            row,
            col as int,
            grouped,
            changed@,
            editing,
            texts@,
            active,
        ));
    }
}

/// Writes a data row into a pooled row.
fn patch_data_row(
    list: &mut PatchList,
    rn: &RowNodes,
    row: u64,
    grouped: bool,
    levels: usize,
    selected: bool,
    changed: &Vec<bool>,
    editing: Option<usize>,
    texts: &Vec<String>,
    active: ActiveCell,
)
    requires
        levels < usize::MAX,
    ensures
        final(list).next == old(list).next,
        final(list).view_patches() == old(list).view_patches() + data_row_patches(
            *rn,
            row,
            grouped,
            levels,
            selected,
            changed@,
            editing,
            texts@,
            active,
        ),
{
    let ghost before = list.view_patches();
    let r = rn.row;
    if grouped {
        list.number_attribute(r, "aria-level", (levels + 1) as u64);
    } else {
        list.remove_attribute(r, "aria-level");
    }
    list.remove_attribute(r, "aria-expanded");
    list.remove_attribute(r, "data-kind");
    list.remove_attribute(r, "data-level");
    if rn.cells.len() > 0 {
        list.remove_attribute(rn.cells[0], "lang");
    }
    patch_selection(list, r, selected);
    patch_select_cell(list, rn.select, active, row, row_mark_text(selected));
    let ghost head = list.view_patches();
    proof {
        assert(head =~= before + ((if grouped {
            seq![attr(r as nat, "aria-level"@, decimal((levels + 1) as nat))]
        } else {
            seq![remove(r as nat, "aria-level"@)]
        }) + seq![
            remove(r as nat, "aria-expanded"@),
            remove(r as nat, "data-kind"@),
            remove(r as nat, "data-level"@),
        ] + (if rn.cells@.len() > 0 {
            seq![remove(rn.cells@[0] as nat, "lang"@)]
        } else {
            Seq::empty()
        }) + selection_patches(r, selected) + select_cell_patches(
            rn.select,
            active,
            row,
            row_mark(selected),
        )));
    }
    let mut col: usize = 0;
    while col < rn.cells.len()
        invariant
            col <= rn.cells@.len(),
            list.next == old(list).next,
            list.view_patches() == head + data_cells_spec(
                rn.cells@,
                row,
                grouped,
                changed@,
                editing,
                texts@,
                active,
                col as nat,
            ),
        decreases rn.cells.len() - col,
    {
        patch_data_cell(list, rn.cells[col], row, col, grouped, changed, editing, texts, active);
        col = col + 1;
    }
    proof {
        assert(list.view_patches() =~= before + data_row_patches(
            *rn,
            row,
            grouped,
            levels,
            selected,
            changed@,
            editing,
            texts@,
            active,
        ));
    }
}

/// The cells of a pooled row that shows a group.
fn patch_group_slot_cells(list: &mut PatchList, cells: &Vec<u64>, row: u64, active: ActiveCell)
    ensures
        final(list).next == old(list).next,
        final(list).view_patches() == old(list).view_patches() + group_slot_cells_spec(
            cells@,
            row,
            active,
            cells@.len() as nat,
        ),
{
    let ghost before = list.view_patches();
    let mut col: usize = 0;
    while col < cells.len()
        invariant
            col <= cells@.len(),
            list.next == old(list).next,
            list.view_patches() == before + group_slot_cells_spec(cells@, row, active, col as nat),
        decreases cells.len() - col,
    {
        let ghost at = list.view_patches();
        list.number_attribute(cells[col], "data-row", row);
        list.attribute(
            cells[col],
            "tabindex",
            tabindex_for(active == ActiveCell::Data(CellRef { row, col })),
        );
        list.remove_attribute(cells[col], "data-changed");
        proof {
            assert(list.view_patches() =~= at + seq![
                attr(cells@[col as int] as nat, "data-row"@, decimal(row as nat)),
                attr(
                    cells@[col as int] as nat,
                    "tabindex"@,
                    tabindex_spec(active == ActiveCell::Data(CellRef { row, col })),
                ),
                remove(cells@[col as int] as nat, "data-changed"@),
            ]);
        }
        col = col + 1;
    }
}

/// One pooled slot.
#[verifier::rlimit(40)]
fn patch_slot(list: &mut PatchList, rn: &RowNodes, slot: usize, f: &GridFrame)
    requires
        slot < f.contents@.len(),
        f.levels < usize::MAX,
        match slot_row(f.slots@, slot as int) {
            Some(row) => local_row(row, f.paging.base) * f.row_height <= u64::MAX && local_row(
                row,
                f.paging.base,
            ) + 2 <= u64::MAX,
            None => true,
        },
    ensures
        final(list).next == old(list).next,
        final(list).view_patches() == old(list).view_patches() + slot_patches(*rn, slot as int, *f),
{
    let ghost before = list.view_patches();
    let pinned = match f.pinned_slot {
        Some(p) => p == slot,
        None => false,
    };
    let row_opt: Option<u64> = if slot < f.slots.len() {
        f.slots[slot]
    } else {
        None
    };
    match row_opt {
        Some(row) => {
            if pinned {
                match &f.contents[slot] {
                    SlotContent::Group(g) => {
                        patch_group_row(list, rn, g, f.lang.as_str());
                    },
                    SlotContent::Data { selected, .. } => {
                        patch_selection(list, rn.row, *selected);
                        patch_select_cell(list, rn.select, f.active, row, row_mark_text(*selected));
                    },
                }
            } else {
                let local = if row >= f.paging.base {
                    row - f.paging.base
                } else {
                    0
                };
                let style = row_style(local, f.row_height);
                list.attribute(rn.row, "style", style.as_str());
                list.number_attribute(rn.row, "aria-rowindex", local + 2);
                match &f.contents[slot] {
                    SlotContent::Group(g) => {
                        patch_group_slot_cells(list, &rn.cells, row, f.active);
                        patch_select_cell(list, rn.select, f.active, row, "");
                        proof {
                            reveal_strlit("");
                            assert(""@ =~= Seq::<char>::empty());
                        }
                        patch_group_row(list, rn, g, f.lang.as_str());
                    },
                    SlotContent::Data { selected, changed, editing, texts } => {
                        patch_data_row(
                            list,
                            rn,
                            row,
                            f.grouped,
                            f.levels,
                            *selected,
                            changed,
                            *editing,
                            texts,
                            f.active,
                        );
                    },
                }
            }
        },
        None => {
            if !pinned {
                list.attribute(rn.row, "style", "display: none;");
                list.remove_attribute(rn.row, "aria-rowindex");
                list.remove_attribute(rn.row, "aria-selected");
                list.remove_attribute(rn.row, "data-selected");
            }
        },
    }
    proof {
        assert(list.view_patches() =~= before + slot_patches(*rn, slot as int, *f));
    }
}

/// The select-all header.
fn patch_select_all(
    list: &mut PatchList,
    mark: Option<u64>,
    active: ActiveCell,
    selected: usize,
    total: u64,
)
    ensures
        final(list).next == old(list).next,
        final(list).view_patches() == old(list).view_patches() + select_all_patches(
            mark,
            active,
            selected,
            total,
        ),
{
    let ghost before = list.view_patches();
    if let Some(m) = mark {
        let all = select_all_state(selected, total);
        list.attribute(m, "tabindex", tabindex_for(active == ActiveCell::SelectAll));
        list.attribute(m, "aria-checked", all.as_str());
        list.set_text(m, check_glyph(all));
    }
    proof {
        assert(list.view_patches() =~= before + select_all_patches(mark, active, selected, total));
    }
}

/// The status line.
fn patch_status(list: &mut PatchList, node: u64, status: &GridStatus, sentence: &str)
    ensures
        final(list).next == old(list).next,
        final(list).view_patches() == old(list).view_patches() + status_patches(
            node,
            *status,
            sentence@,
        ),
{
    let ghost before = list.view_patches();
    list.attribute(node, "data-state", status_state(status));
    list.set_text(node, sentence);
    proof {
        assert(list.view_patches() =~= before + status_patches(node, *status, sentence@));
    }
}

/// The pooled slots.
fn patch_slots(list: &mut PatchList, rows: &Vec<RowNodes>, f: &GridFrame)
    requires
        f.contents@.len() >= rows@.len(),
        f.levels < usize::MAX,
        forall|slot: int|
            0 <= slot < rows@.len() ==> match #[trigger] slot_row(f.slots@, slot) {
                Some(row) => local_row(row, f.paging.base) * f.row_height <= u64::MAX
                    && local_row(row, f.paging.base) + 2 <= u64::MAX,
                None => true,
            },
    ensures
        final(list).next == old(list).next,
        final(list).view_patches() == old(list).view_patches() + slots_spec(
            rows@,
            *f,
            rows@.len() as nat,
        ),
{
    let ghost before = list.view_patches();
    let mut slot: usize = 0;
    while slot < rows.len()
        invariant
            slot <= rows@.len(),
            f.contents@.len() >= rows@.len(),
            f.levels < usize::MAX,
            forall|s: int|
                0 <= s < rows@.len() ==> match #[trigger] slot_row(f.slots@, s) {
                    Some(row) => local_row(row, f.paging.base) * f.row_height <= u64::MAX
                        && local_row(row, f.paging.base) + 2 <= u64::MAX,
                    None => true,
                },
            list.next == old(list).next,
            list.view_patches() == before + slots_spec(rows@, *f, slot as nat),
        decreases rows.len() - slot,
    {
        let ghost at = list.view_patches();
        proof {
            let _ = slot_row(f.slots@, slot as int);
        }
        patch_slot(list, &rows[slot], slot, f);
        proof {
            assert(list.view_patches() =~= before + slots_spec(rows@, *f, (slot + 1) as nat));
        }
        slot = slot + 1;
    }
}

/// Everything one frame patches, in order: the role, the sizer and the row
/// count; the pager; the select-all header; the status line; the filter
/// row; the header cells; the pooled slots.
pub open spec fn frame_spec(n: GridNodes, f: GridFrame) -> Seq<PatchV> {
    head_spec(n, f.grouped, f.paging.rows, f.row_height) + pager_spec(
        n.pager,
        f.paging,
        f.total_count,
        f.page_label@,
    ) + select_all_patches(n.select_all_mark, f.active, f.selected, f.total_count)
        + status_patches(n.status, f.status, f.status_text@) + filter_spec(
        n.filter_columns@,
        views(f.operators@),
        f.fields@,
        n.filter_columns@.len() as nat,
    ) + headers_spec(
        n.header_cells@,
        f.fields@,
        f.sorts@,
        f.grouped,
        f.aggregates@,
        f.active,
        n.header_cells@.len() as nat,
    ) + slots_spec(n.rows@, f, n.rows@.len() as nat)
}

/// Patches one frame of the grid onto the skeleton's nodes.
pub fn patch_grid(list: &mut PatchList, nodes: &GridNodes, frame: &GridFrame)
    requires
        frame.paging.rows * frame.row_height <= u64::MAX,
        frame.paging.rows + 1 <= u64::MAX,
        rows_fit(*nodes, *frame),
    ensures
        final(list).next == old(list).next,
        final(list).view_patches() == old(list).view_patches() + frame_spec(*nodes, *frame),
{
    let ghost before = list.view_patches();
    let f = frame;
    if f.grouped {
        list.attribute(nodes.table, "role", "treegrid");
    } else {
        list.attribute(nodes.table, "role", "grid");
    }
    let mut style = String::from_str("position: relative; height: ");
    push_decimal(&mut style, f.paging.rows * f.row_height);
    style.append("px;");
    list.attribute(nodes.tbody, "style", style.as_str());
    list.number_attribute(nodes.table, "aria-rowcount", f.paging.rows + 1);
    proof {
        reveal_strlit("position: relative; height: ");
        reveal_strlit("px;");
        assert(list.view_patches() =~= before + head_spec(
            *nodes,
            f.grouped,
            f.paging.rows,
            f.row_height,
        ));
    }
    patch_pager(list, &nodes.pager, f.paging, f.total_count, f.page_label.as_str());
    patch_select_all(list, nodes.select_all_mark, f.active, f.selected, f.total_count);
    patch_status(list, nodes.status, &f.status, f.status_text.as_str());
    patch_filter(list, &nodes.filter_columns, &f.operators, &f.fields);
    patch_headers(
        list,
        &nodes.header_cells,
        &f.fields,
        f.sorts,
        f.grouped,
        &f.aggregates,
        f.active,
    );
    patch_slots(list, &nodes.rows, f);
    proof {
        assert(list.view_patches() =~= before + frame_spec(*nodes, *frame));
    }
}

/// The counting rule: a frame opens by giving the table its role, the body
/// the height of the rendered rows, and the table an `aria-rowcount` of the
/// rendered rows plus one, the header row.
pub proof fn lemma_frame_counts(n: GridNodes, f: GridFrame)
    ensures
        frame_spec(n, f).len() >= 3,
        frame_spec(n, f)[0] == attr(
            n.table as nat,
            "role"@,
            if f.grouped {
                "treegrid"@
            } else {
                "grid"@
            },
        ),
        frame_spec(n, f)[1] == attr(
            n.tbody as nat,
            "style"@,
            "position: relative; height: "@ + decimal((f.paging.rows * f.row_height) as nat)
                + "px;"@,
        ),
        frame_spec(n, f)[2] == attr(n.table as nat, "aria-rowcount"@, decimal((f.paging.rows + 1) as nat)),
{
    let head = head_spec(n, f.grouped, f.paging.rows, f.row_height);
    let rest = frame_spec(n, f).skip(3);
    assert(frame_spec(n, f) =~= head + rest);
}

/// Every patch of slot `slot` is among those of the first `k` slots.
proof fn lemma_slots_hold(rows: Seq<RowNodes>, f: GridFrame, k: nat, slot: int)
    requires
        0 <= slot < k,
    ensures
        forall|i: int|
            0 <= i < slot_patches(rows[slot], slot, f).len() ==> #[trigger] slots_spec(
                rows,
                f,
                k,
            ).contains(slot_patches(rows[slot], slot, f)[i]),
    decreases k,
{
    let before = slots_spec(rows, f, (k - 1) as nat);
    let last = slot_patches(rows[k - 1], k - 1, f);
    assert(slots_spec(rows, f, k) == before + last);
    if slot < k - 1 {
        lemma_slots_hold(rows, f, (k - 1) as nat, slot);
        assert forall|i: int| 0 <= i < slot_patches(rows[slot], slot, f).len() implies slots_spec(
            rows,
            f,
            k,
        ).contains(slot_patches(rows[slot], slot, f)[i]) by {
            let p = slot_patches(rows[slot], slot, f)[i];
            assert(before.contains(p));
            let j = choose|j: int| 0 <= j < before.len() && before[j] == p;
            assert((before + last)[j] == p);
        }
    } else {
        assert forall|i: int| 0 <= i < last.len() implies slots_spec(rows, f, k).contains(
            last[i],
        ) by {
            assert((before + last)[before.len() + i] == last[i]);
        }
    }
}

/// The counting rule for rows: every pooled row that shows a logical row
/// and is not the pinned one is placed by the frame with an
/// `aria-rowindex` of its place in the rendered area plus two.
pub proof fn lemma_rows_are_indexed(n: GridNodes, f: GridFrame, slot: int)
    requires
        0 <= slot < n.rows@.len(),
        f.pinned_slot != Some(slot as usize),
        slot_row(f.slots@, slot) is Some,
    ensures
        frame_spec(n, f).contains(
            attr(
                n.rows@[slot].row as nat,
                "aria-rowindex"@,
                decimal((local_row(slot_row(f.slots@, slot)->0, f.paging.base) + 2) as nat),
            ),
        ),
{
    let sp = slot_patches(n.rows@[slot], slot, f);
    let p = attr(
        n.rows@[slot].row as nat,
        "aria-rowindex"@,
        decimal((local_row(slot_row(f.slots@, slot)->0, f.paging.base) + 2) as nat),
    );
    assert(sp[1] == p);
    let all = slots_spec(n.rows@, f, n.rows@.len() as nat);
    lemma_slots_hold(n.rows@, f, n.rows@.len() as nat, slot);
    assert(all.contains(sp[1]));
    let j = choose|j: int| 0 <= j < all.len() && all[j] == p;
    let head = frame_spec(n, f).take(frame_spec(n, f).len() - all.len());
    assert(frame_spec(n, f) =~= head + all);
    assert(frame_spec(n, f)[head.len() + j] == p);
}

/// Whether a patch moves a row: sets its inline style, or sets or takes off
/// its `aria-rowindex`.
pub open spec fn moves_row(p: PatchV) -> bool {
    match p {
        PatchV::SetAttribute { name, .. } => name == "style"@ || name == "aria-rowindex"@,
        PatchV::RemoveAttribute { name, .. } => name == "aria-rowindex"@,
        _ => false,
    }
}

/// The names of the attributes a row's contents use are not those that
/// place it.
proof fn lemma_names_apart()
    ensures
        "lang"@ != "style"@ && "lang"@ != "aria-rowindex"@,
        "data-aggregate"@ != "style"@ && "data-aggregate"@ != "aria-rowindex"@,
        "aria-label"@ != "style"@ && "aria-label"@ != "aria-rowindex"@,
        "data-kind"@ != "style"@ && "data-kind"@ != "aria-rowindex"@,
        "data-level"@ != "style"@ && "data-level"@ != "aria-rowindex"@,
        "aria-level"@ != "style"@ && "aria-level"@ != "aria-rowindex"@,
        "aria-expanded"@ != "style"@ && "aria-expanded"@ != "aria-rowindex"@,
        "aria-selected"@ != "style"@ && "aria-selected"@ != "aria-rowindex"@,
        "data-selected"@ != "style"@ && "data-selected"@ != "aria-rowindex"@,
        "tabindex"@ != "style"@ && "tabindex"@ != "aria-rowindex"@,
{
    reveal_strlit("lang");
    reveal_strlit("style");
    reveal_strlit("aria-rowindex");
    reveal_strlit("data-aggregate");
    reveal_strlit("aria-label");
    reveal_strlit("data-kind");
    reveal_strlit("data-level");
    reveal_strlit("aria-level");
    reveal_strlit("aria-expanded");
    reveal_strlit("aria-selected");
    reveal_strlit("data-selected");
    reveal_strlit("tabindex");
    assert("lang"@.len() != "style"@.len() && "lang"@.len() != "aria-rowindex"@.len());
    assert("data-aggregate"@.len() != "style"@.len());
    assert("data-aggregate"@.len() != "aria-rowindex"@.len());
    assert("aria-expanded"@[5] != "aria-rowindex"@[5]);
    assert("aria-selected"@[5] != "aria-rowindex"@[5]);
    assert("data-selected"@[0] != "aria-rowindex"@[0]);
}

/// No cell of a group row moves the row.
proof fn lemma_group_cells_stay(cells: Seq<u64>, g: GroupRow, lang: Seq<char>, k: nat)
    ensures
        forall|i: int|
            0 <= i < group_cells_spec(cells, g, lang, k).len() ==> !moves_row(
                #[trigger] group_cells_spec(cells, g, lang, k)[i],
            ),
    decreases k,
{
    if k > 0 {
        lemma_group_cells_stay(cells, g, lang, (k - 1) as nat);
        lemma_names_apart();
        let a = group_cells_spec(cells, g, lang, (k - 1) as nat);
        let b = group_cell_patches(cells[k - 1], k - 1, g, lang);
        assert forall|i: int| 0 <= i < b.len() implies !moves_row(b[i]) by {}
        assert forall|i: int| 0 <= i < (a + b).len() implies !moves_row((a + b)[i]) by {
            if i < a.len() {
                assert((a + b)[i] == a[i]);
            } else {
                assert((a + b)[i] == b[i - a.len()]);
            }
        }
    }
}

/// The pinned slot is left where it is: whatever it shows, the frame
/// neither moves it nor hides it; holding a data row, the only text it gets
/// is its selection mark, so the cell being typed in keeps its text.
pub proof fn lemma_pinned_slot_stays(rn: RowNodes, slot: usize, f: GridFrame)
    requires
        f.pinned_slot == Some(slot),
    ensures
        forall|i: int|
            0 <= i < slot_patches(rn, slot as int, f).len() ==> !moves_row(
                #[trigger] slot_patches(rn, slot as int, f)[i],
            ),
        f.contents@[slot as int] is Data ==> forall|i: int|
            0 <= i < slot_patches(rn, slot as int, f).len() ==> (#[trigger] slot_patches(
                rn,
                slot as int,
                f,
            )[i] matches PatchV::SetText { node, .. } ==> rn.select matches Some(pair) && node
                == pair.1 as nat),
{
    let sp = slot_patches(rn, slot as int, f);
    lemma_names_apart();
    match f.contents@[slot as int] {
        SlotContent::Group(g) => {
            if slot_row(f.slots@, slot as int) is Some {
                let head = sp.take(6);
                let cells = group_cells_spec(rn.cells@, g, f.lang@, rn.cells@.len() as nat);
                assert(sp =~= head + cells);
                lemma_group_cells_stay(rn.cells@, g, f.lang@, rn.cells@.len() as nat);
                assert forall|i: int| 0 <= i < sp.len() implies !moves_row(sp[i]) by {
                    if i >= 6 {
                        assert(sp[i] == cells[i - 6]);
                    }
                }
            }
        },
        SlotContent::Data { .. } => {},
    }
}

/// The node a patch gives the roving tabindex (`"0"`) to, if it does.
pub open spec fn gives_focus(p: PatchV) -> Option<nat> {
    match p {
        PatchV::SetAttribute { node, name, value } => if name == "tabindex"@ && value == "0"@ {
            Some(node)
        } else {
            None
        },
        _ => None,
    }
}

/// Every patch of `s` that gives the roving tabindex gives it to `focus`.
pub open spec fn focus_only(s: Seq<PatchV>, focus: Option<nat>) -> bool {
    forall|i: int| 0 <= i < s.len() ==> (#[trigger] gives_focus(s[i])) is None || gives_focus(s[i]) == focus
}

/// No two pooled rows show the same logical row.
pub open spec fn distinct_rows(n: GridNodes, f: GridFrame) -> bool {
    forall|a: int, b: int|
        0 <= a < n.rows@.len() && 0 <= b < n.rows@.len() && (#[trigger] slot_row(f.slots@, a)) is Some
            && slot_row(f.slots@, a) == #[trigger] slot_row(f.slots@, b) ==> a == b
}

/// The pooled row that shows logical row `row`.
pub open spec fn row_slot(n: GridNodes, f: GridFrame, row: u64) -> int {
    choose|s: int| 0 <= s < n.rows@.len() && slot_row(f.slots@, s) == Some(row)
}

/// The node that holds the focus: the cell the active cell names.
pub open spec fn focus_node(n: GridNodes, f: GridFrame) -> Option<nat> {
    match f.active {
        ActiveCell::SelectAll => match n.select_all_mark {
            Some(m) => Some(m as nat),
            None => None,
        },
        ActiveCell::Header { col } => if col < n.header_cells@.len() {
            Some(n.header_cells@[col as int].cell as nat)
        } else {
            None
        },
        ActiveCell::Select { row } => match n.rows@[row_slot(n, f, row)].select {
            Some(p) => Some(p.0 as nat),
            None => None,
        },
        ActiveCell::Data(c) => Some(n.rows@[row_slot(n, f, c.row)].cells@[c.col as int] as nat),
    }
}

proof fn lemma_focus_concat(a: Seq<PatchV>, b: Seq<PatchV>, t: Option<nat>)
    requires
        focus_only(a, t),
        focus_only(b, t),
    ensures
        focus_only(a + b, t),
{
    assert forall|i: int| 0 <= i < (a + b).len() implies (#[trigger] gives_focus((a + b)[i])) is None
        || gives_focus((a + b)[i]) == t by {
        if i < a.len() {
            assert((a + b)[i] == a[i]);
        } else {
            assert((a + b)[i] == b[i - a.len()]);
        }
    }
}

/// The names of attributes other than the tabindex.
proof fn lemma_not_tabindex()
    ensures
        "role"@ != "tabindex"@,
        "style"@ != "tabindex"@,
        "aria-rowcount"@ != "tabindex"@,
        "hidden"@ != "tabindex"@,
        "aria-label"@ != "tabindex"@,
        "disabled"@ != "tabindex"@,
        "aria-checked"@ != "tabindex"@,
        "data-state"@ != "tabindex"@,
        "type"@ != "tabindex"@,
        "step"@ != "tabindex"@,
        "aria-sort"@ != "tabindex"@,
        "data-aggregate"@ != "tabindex"@,
        "data-row"@ != "tabindex"@,
        "data-changed"@ != "tabindex"@,
        "aria-selected"@ != "tabindex"@,
        "data-selected"@ != "tabindex"@,
        "aria-level"@ != "tabindex"@,
        "aria-expanded"@ != "tabindex"@,
        "data-kind"@ != "tabindex"@,
        "data-level"@ != "tabindex"@,
        "lang"@ != "tabindex"@,
        "aria-rowindex"@ != "tabindex"@,
{
    reveal_strlit("tabindex");
    reveal_strlit("role");
    reveal_strlit("style");
    reveal_strlit("aria-rowcount");
    reveal_strlit("hidden");
    reveal_strlit("aria-label");
    reveal_strlit("disabled");
    reveal_strlit("aria-checked");
    reveal_strlit("data-state");
    reveal_strlit("type");
    reveal_strlit("step");
    reveal_strlit("aria-sort");
    reveal_strlit("data-aggregate");
    reveal_strlit("data-row");
    reveal_strlit("data-changed");
    reveal_strlit("aria-selected");
    reveal_strlit("data-selected");
    reveal_strlit("aria-level");
    reveal_strlit("aria-expanded");
    reveal_strlit("data-kind");
    reveal_strlit("data-level");
    reveal_strlit("lang");
    reveal_strlit("aria-rowindex");
    assert("role"@.len() != "tabindex"@.len());
    assert("style"@.len() != "tabindex"@.len());
    assert("aria-rowcount"@.len() != "tabindex"@.len());
    assert("hidden"@.len() != "tabindex"@.len());
    assert("aria-label"@.len() != "tabindex"@.len());
    assert("disabled"@[0] != "tabindex"@[0]);
    assert("aria-checked"@.len() != "tabindex"@.len());
    assert("data-state"@.len() != "tabindex"@.len());
    assert("type"@.len() != "tabindex"@.len());
    assert("step"@.len() != "tabindex"@.len());
    assert("aria-sort"@.len() != "tabindex"@.len());
    assert("data-aggregate"@.len() != "tabindex"@.len());
    assert("data-row"@[0] != "tabindex"@[0]);
    assert("data-changed"@.len() != "tabindex"@.len());
    assert("aria-selected"@.len() != "tabindex"@.len());
    assert("data-selected"@.len() != "tabindex"@.len());
    assert("aria-level"@.len() != "tabindex"@.len());
    assert("aria-expanded"@.len() != "tabindex"@.len());
    assert("data-kind"@.len() != "tabindex"@.len());
    assert("data-level"@.len() != "tabindex"@.len());
    assert("lang"@.len() != "tabindex"@.len());
    assert("aria-rowindex"@.len() != "tabindex"@.len());
}

proof fn lemma_options_no_focus(options: Seq<u64>, ops: Seq<Seq<char>>, allowed: Seq<Seq<char>>, k: nat)
    ensures
        forall|t: Option<nat>| #[trigger] focus_only(options_spec(options, ops, allowed, k), t),
    decreases k,
{
    if k > 0 {
        lemma_options_no_focus(options, ops, allowed, (k - 1) as nat);
        lemma_not_tabindex();
        assert forall|t: Option<nat>| #[trigger] focus_only(options_spec(options, ops, allowed, k), t) by {
            let piece = option_patches(options[k - 1], option_fits(ops, k - 1, allowed));
            assert(focus_only(piece, t));
            assert(focus_only(options_spec(options, ops, allowed, (k - 1) as nat), t));
            lemma_focus_concat(options_spec(options, ops, allowed, (k - 1) as nat), piece, t);
        }
    }
}

proof fn lemma_filter_no_focus(
    cols: Seq<FilterColumnNodes>,
    ops: Seq<Seq<char>>,
    fields: Seq<(String, DataType, bool)>,
    k: nat,
)
    ensures
        forall|t: Option<nat>| #[trigger] focus_only(filter_spec(cols, ops, fields, k), t),
    decreases k,
{
    if k > 0 {
        lemma_filter_no_focus(cols, ops, fields, (k - 1) as nat);
        lemma_not_tabindex();
        assert forall|t: Option<nat>| #[trigger] focus_only(filter_spec(cols, ops, fields, k), t) by {
            let prev = filter_spec(cols, ops, fields, (k - 1) as nat);
            assert(focus_only(prev, t));
            if k - 1 < fields.len() {
                let c = cols[k - 1];
                let dt = fields[k - 1].1;
                let opts = options_spec(c.options@, ops, operators_spec(dt, fields[k - 1].2), c.options@.len());
                lemma_options_no_focus(c.options@, ops, operators_spec(dt, fields[k - 1].2), c.options@.len());
                assert(focus_only(opts, t));
                let rest = seq![attr(c.input as nat, "type"@, input_type_spec(dt))] + match input_step_spec(dt) {
                    Some(step) => seq![attr(c.input as nat, "step"@, step)],
                    None => seq![remove(c.input as nat, "step"@)],
                };
                assert(focus_only(rest, t));
                lemma_focus_concat(opts, rest, t);
                assert(filter_column_spec(c, ops, dt, fields[k - 1].2) == opts + rest);
                lemma_focus_concat(prev, opts + rest, t);
            } else {
                assert(filter_spec(cols, ops, fields, k) == prev + Seq::<PatchV>::empty());
                assert(prev + Seq::<PatchV>::empty() =~= prev);
            }
        }
    }
}

proof fn lemma_zero_is_not_minus_one()
    ensures
        "0"@ != "-1"@,
{
    reveal_strlit("0");
    reveal_strlit("-1");
    assert("0"@.len() != "-1"@.len());
}

proof fn lemma_headers_focus(n: GridNodes, f: GridFrame, k: nat)
    requires
        k <= n.header_cells@.len(),
    ensures
        focus_only(
            headers_spec(n.header_cells@, f.fields@, f.sorts@, f.grouped, f.aggregates@, f.active, k),
            focus_node(n, f),
        ),
    decreases k,
{
    if k > 0 {
        lemma_headers_focus(n, f, (k - 1) as nat);
        lemma_not_tabindex();
        lemma_zero_is_not_minus_one();
        let t = focus_node(n, f);
        let piece = header_patches(
            n.header_cells@[k - 1],
            k - 1,
            f.fields@,
            f.sorts@,
            f.grouped,
            f.aggregates@,
            f.active,
        );
        assert(n.header_cells.len() == n.header_cells@.len());
        assert(((k - 1) as usize) as int == k - 1);
        assert forall|i: int| 0 <= i < piece.len() implies (#[trigger] gives_focus(piece[i])) is None
            || gives_focus(piece[i]) == t by {
            if i == 1 && f.active == (ActiveCell::Header { col: (k - 1) as usize }) {
                assert(t == Some(n.header_cells@[k - 1].cell as nat));
            }
        }
        lemma_focus_concat(
            headers_spec(n.header_cells@, f.fields@, f.sorts@, f.grouped, f.aggregates@, f.active, (k - 1) as nat),
            piece,
            t,
        );
    }
}

proof fn lemma_select_cell_focus(
    select: Option<(u64, u64)>,
    active: ActiveCell,
    row: u64,
    mark: Seq<char>,
    t: Option<nat>,
)
    requires
        select matches Some(p) ==> (active == (ActiveCell::Select { row }) ==> t == Some(p.0 as nat)),
    ensures
        focus_only(select_cell_patches(select, active, row, mark), t),
{
    lemma_zero_is_not_minus_one();
}

proof fn lemma_data_cells_focus(
    cells: Seq<u64>,
    row: u64,
    grouped: bool,
    changed: Seq<bool>,
    editing: Option<usize>,
    texts: Seq<String>,
    active: ActiveCell,
    k: nat,
    t: Option<nat>,
)
    requires
        k <= cells.len() <= usize::MAX,
        active matches ActiveCell::Data(c) ==> (c.row == row && c.col < k ==> t == Some(
            cells[c.col as int] as nat,
        )),
    ensures
        focus_only(data_cells_spec(cells, row, grouped, changed, editing, texts, active, k), t),
    decreases k,
{
    if k > 0 {
        lemma_data_cells_focus(cells, row, grouped, changed, editing, texts, active, (k - 1) as nat, t);
        lemma_not_tabindex();
        lemma_zero_is_not_minus_one();
        let cell = cells[k - 1];
        let col = k - 1;
        let piece = data_cell_patches(cell, row, col, grouped, changed, editing, texts, active);
        assert(((k - 1) as usize) as int == k - 1);
        let a = seq![attr(cell as nat, "data-row"@, decimal(row as nat))];
        let b: Seq<PatchV> = if grouped {
            seq![remove(cell as nat, "data-aggregate"@), remove(cell as nat, "aria-label"@)]
        } else {
            Seq::empty()
        };
        let c = seq![
            attr(
                cell as nat,
                "tabindex"@,
                tabindex_spec(active == ActiveCell::Data(CellRef { row, col: col as usize })),
            ),
        ];
        let d = if 0 <= col < changed.len() && changed[col] {
            seq![attr(cell as nat, "data-changed"@, "true"@)]
        } else {
            seq![remove(cell as nat, "data-changed"@)]
        };
        let e: Seq<PatchV> = if editing == Some(col as usize) {
            Seq::empty()
        } else {
            seq![
                text(
                    cell as nat,
                    if 0 <= col < texts.len() {
                        texts[col]@
                    } else {
                        Seq::empty()
                    },
                ),
            ]
        };
        assert(focus_only(a, t));
        assert(focus_only(b, t));
        assert(focus_only(c, t)) by {
            if active == ActiveCell::Data(CellRef { row, col: col as usize }) {
                assert(t == Some(cells[col] as nat));
            }
        }
        assert(focus_only(d, t));
        assert(focus_only(e, t));
        lemma_focus_concat(a, b, t);
        lemma_focus_concat(a + b, c, t);
        lemma_focus_concat(a + b + c, d, t);
        lemma_focus_concat(a + b + c + d, e, t);
        assert(piece == a + b + c + d + e);
        lemma_focus_concat(
            data_cells_spec(cells, row, grouped, changed, editing, texts, active, (k - 1) as nat),
            piece,
            t,
        );
    }
}

proof fn lemma_group_slot_cells_focus(cells: Seq<u64>, row: u64, active: ActiveCell, k: nat, t: Option<nat>)
    requires
        k <= cells.len() <= usize::MAX,
        active matches ActiveCell::Data(c) ==> (c.row == row && c.col < k ==> t == Some(
            cells[c.col as int] as nat,
        )),
    ensures
        focus_only(group_slot_cells_spec(cells, row, active, k), t),
    decreases k,
{
    if k > 0 {
        lemma_group_slot_cells_focus(cells, row, active, (k - 1) as nat, t);
        lemma_not_tabindex();
        lemma_zero_is_not_minus_one();
        let piece = seq![
            attr(cells[k - 1] as nat, "data-row"@, decimal(row as nat)),
            attr(
                cells[k - 1] as nat,
                "tabindex"@,
                tabindex_spec(active == ActiveCell::Data(CellRef { row, col: (k - 1) as usize })),
            ),
            remove(cells[k - 1] as nat, "data-changed"@),
        ];
        assert(((k - 1) as usize) as int == k - 1);
        assert forall|i: int| 0 <= i < piece.len() implies (#[trigger] gives_focus(piece[i])) is None
            || gives_focus(piece[i]) == t by {
            if i == 1 && active == ActiveCell::Data(CellRef { row, col: (k - 1) as usize }) {
                assert(t == Some(cells[k - 1] as nat));
            }
        }
        lemma_focus_concat(group_slot_cells_spec(cells, row, active, (k - 1) as nat), piece, t);
    }
}

proof fn lemma_group_cells_no_focus(cells: Seq<u64>, g: GroupRow, lang: Seq<char>, k: nat, t: Option<nat>)
    ensures
        focus_only(group_cells_spec(cells, g, lang, k), t),
    decreases k,
{
    if k > 0 {
        lemma_group_cells_no_focus(cells, g, lang, (k - 1) as nat, t);
        lemma_not_tabindex();
        let piece = group_cell_patches(cells[k - 1], k - 1, g, lang);
        assert(focus_only(piece, t));
        lemma_focus_concat(group_cells_spec(cells, g, lang, (k - 1) as nat), piece, t);
    }
}

proof fn lemma_group_row_no_focus(rn: RowNodes, g: GroupRow, lang: Seq<char>, t: Option<nat>)
    ensures
        focus_only(group_row_patches(rn, g, lang), t),
{
    lemma_not_tabindex();
    let r = rn.row as nat;
    let head = seq![
        attr(
            r,
            "data-kind"@,
            if g.total {
                "total"@
            } else {
                "group"@
            },
        ),
        attr(r, "data-level"@, decimal(g.level as nat)),
        attr(r, "aria-level"@, decimal(g.level as nat)),
        match g.expanded {
            Some(e) => attr(r, "aria-expanded"@, bool_text(e)),
            None => remove(r, "aria-expanded"@),
        },
        remove(r, "aria-selected"@),
        remove(r, "data-selected"@),
    ];
    assert(focus_only(head, t));
    lemma_group_cells_no_focus(rn.cells@, g, lang, rn.cells@.len() as nat, t);
    lemma_focus_concat(head, group_cells_spec(rn.cells@, g, lang, rn.cells@.len() as nat), t);
}

proof fn lemma_slot_focus(n: GridNodes, f: GridFrame, s: int)
    requires
        0 <= s < n.rows@.len(),
        distinct_rows(n, f),
    ensures
        focus_only(slot_patches(n.rows@[s], s, f), focus_node(n, f)),
{
    lemma_not_tabindex();
    let rn = n.rows@[s];
    let t = focus_node(n, f);
    assert(rn.cells.len() == rn.cells@.len());
    match slot_row(f.slots@, s) {
        Some(row) => {
            let s2 = row_slot(n, f, row);
            assert(0 <= s < n.rows@.len() && slot_row(f.slots@, s) == Some(row));
            assert(0 <= s2 < n.rows@.len() && slot_row(f.slots@, s2) == Some(row));
            assert(s2 == s);
            let content = f.contents@[s];
            if f.pinned_slot == Some(s as usize) {
                match content {
                    SlotContent::Group(g) => {
                        lemma_group_row_no_focus(rn, g, f.lang@, t);
                    },
                    SlotContent::Data { selected, .. } => {
                        let a = selection_patches(rn.row, selected);
                        assert(focus_only(a, t));
                        lemma_select_cell_focus(rn.select, f.active, row, row_mark(selected), t);
                        lemma_focus_concat(
                            a,
                            select_cell_patches(rn.select, f.active, row, row_mark(selected)),
                            t,
                        );
                    },
                }
            } else {
                let local = local_row(row, f.paging.base);
                let head = seq![
                    attr(rn.row as nat, "style"@, row_style_spec(local, f.row_height)),
                    attr(rn.row as nat, "aria-rowindex"@, decimal((local + 2) as nat)),
                ];
                assert(focus_only(head, t));
                match content {
                    SlotContent::Group(g) => {
                        let cells = group_slot_cells_spec(rn.cells@, row, f.active, rn.cells@.len() as nat);
                        lemma_group_slot_cells_focus(rn.cells@, row, f.active, rn.cells@.len() as nat, t);
                        let sel = select_cell_patches(rn.select, f.active, row, Seq::empty());
                        lemma_select_cell_focus(rn.select, f.active, row, Seq::empty(), t);
                        let gr = group_row_patches(rn, g, f.lang@);
                        lemma_group_row_no_focus(rn, g, f.lang@, t);
                        lemma_focus_concat(cells, sel, t);
                        lemma_focus_concat(cells + sel, gr, t);
                        lemma_focus_concat(head, cells + sel + gr, t);
                    },
                    SlotContent::Data { selected, changed, editing, texts } => {
                        let r = rn.row as nat;
                        let a: Seq<PatchV> = (if f.grouped {
                            seq![attr(r, "aria-level"@, decimal((f.levels + 1) as nat))]
                        } else {
                            seq![remove(r, "aria-level"@)]
                        }) + seq![remove(r, "aria-expanded"@), remove(r, "data-kind"@), remove(r, "data-level"@)] + (
                        if rn.cells@.len() > 0 {
                            seq![remove(rn.cells@[0] as nat, "lang"@)]
                        } else {
                            Seq::empty()
                        }) + selection_patches(rn.row, selected);
                        assert(focus_only(a, t));
                        let sel = select_cell_patches(rn.select, f.active, row, row_mark(selected));
                        lemma_select_cell_focus(rn.select, f.active, row, row_mark(selected), t);
                        let cells = data_cells_spec(
                            rn.cells@,
                            row,
                            f.grouped,
                            changed@,
                            editing,
                            texts@,
                            f.active,
                            rn.cells@.len() as nat,
                        );
                        lemma_data_cells_focus(
                            rn.cells@,
                            row,
                            f.grouped,
                            changed@,
                            editing,
                            texts@,
                            f.active,
                            rn.cells@.len() as nat,
                            t,
                        );
                        lemma_focus_concat(a, sel, t);
                        lemma_focus_concat(a + sel, cells, t);
                        assert(data_row_patches(
                            rn,
                            row,
                            f.grouped,
                            f.levels,
                            selected,
                            changed@,
                            editing,
                            texts@,
                            f.active,
                        ) == a + sel + cells);
                        lemma_focus_concat(head, a + sel + cells, t);
                    },
                }
            }
        },
        None => {},
    }
}

proof fn lemma_slots_focus(n: GridNodes, f: GridFrame, k: nat)
    requires
        k <= n.rows@.len(),
        distinct_rows(n, f),
    ensures
        focus_only(slots_spec(n.rows@, f, k), focus_node(n, f)),
    decreases k,
{
    if k > 0 {
        lemma_slots_focus(n, f, (k - 1) as nat);
        lemma_slot_focus(n, f, k - 1);
        lemma_focus_concat(
            slots_spec(n.rows@, f, (k - 1) as nat),
            slot_patches(n.rows@[k - 1], k - 1, f),
            focus_node(n, f),
        );
    }
}

/// Focus: a frame gives the roving tabindex (`tabindex="0"`) to no node but
/// the one the active cell names: the select-all mark, a header cell, or
/// the selection cell or data cell of the pooled row that shows the active
/// row. So at most one cell of the grid is a tab stop. This holds whenever
/// no two pooled rows show the same logical row.
pub proof fn lemma_one_focus(n: GridNodes, f: GridFrame)
    requires
        distinct_rows(n, f),
    ensures
        focus_only(frame_spec(n, f), focus_node(n, f)),
{
    lemma_not_tabindex();
    lemma_zero_is_not_minus_one();
    let t = focus_node(n, f);
    let head = head_spec(n, f.grouped, f.paging.rows, f.row_height);
    assert(focus_only(head, t));
    let pager = pager_spec(n.pager, f.paging, f.total_count, f.page_label@);
    assert(focus_only(pager, t));
    let all = select_all_patches(n.select_all_mark, f.active, f.selected, f.total_count);
    assert(focus_only(all, t));
    let status = status_patches(n.status, f.status, f.status_text@);
    assert(focus_only(status, t));
    let filter = filter_spec(n.filter_columns@, views(f.operators@), f.fields@, n.filter_columns@.len() as nat);
    lemma_filter_no_focus(n.filter_columns@, views(f.operators@), f.fields@, n.filter_columns@.len() as nat);
    assert(focus_only(filter, t));
    let headers = headers_spec(
        n.header_cells@,
        f.fields@,
        f.sorts@,
        f.grouped,
        f.aggregates@,
        f.active,
        n.header_cells@.len() as nat,
    );
    lemma_headers_focus(n, f, n.header_cells@.len() as nat);
    let slots = slots_spec(n.rows@, f, n.rows@.len() as nat);
    lemma_slots_focus(n, f, n.rows@.len() as nat);
    lemma_focus_concat(head, pager, t);
    lemma_focus_concat(head + pager, all, t);
    lemma_focus_concat(head + pager + all, status, t);
    lemma_focus_concat(head + pager + all + status, filter, t);
    lemma_focus_concat(head + pager + all + status + filter, headers, t);
    lemma_focus_concat(head + pager + all + status + filter + headers, slots, t);
}

proof fn lemma_headers_hold(n: GridNodes, f: GridFrame, k: nat, col: int)
    requires
        0 <= col < k <= n.header_cells@.len(),
    ensures
        headers_spec(n.header_cells@, f.fields@, f.sorts@, f.grouped, f.aggregates@, f.active, k).contains(
            attr(
                n.header_cells@[col].cell as nat,
                "tabindex"@,
                tabindex_spec(f.active == ActiveCell::Header { col: col as usize }),
            ),
        ),
    decreases k,
{
    let prev = headers_spec(n.header_cells@, f.fields@, f.sorts@, f.grouped, f.aggregates@, f.active, (k - 1) as nat);
    let piece = header_patches(n.header_cells@[k - 1], k - 1, f.fields@, f.sorts@, f.grouped, f.aggregates@, f.active);
    let p = attr(
        n.header_cells@[col].cell as nat,
        "tabindex"@,
        tabindex_spec(f.active == ActiveCell::Header { col: col as usize }),
    );
    if col < k - 1 {
        lemma_headers_hold(n, f, (k - 1) as nat, col);
        let j = choose|j: int| 0 <= j < prev.len() && prev[j] == p;
        assert((prev + piece)[j] == p);
    } else {
        assert(piece[1] == p);
        assert((prev + piece)[prev.len() + 1int] == p);
    }
}

/// Focus, the other half: when the active cell is the select-all mark or a
/// header cell the grid has, the frame does give it the roving tabindex.
pub proof fn lemma_focus_given(n: GridNodes, f: GridFrame)
    ensures
        f.active == ActiveCell::SelectAll && n.select_all_mark is Some ==> frame_spec(n, f).contains(
            attr(n.select_all_mark->0 as nat, "tabindex"@, "0"@),
        ),
        f.active matches ActiveCell::Header { col } ==> (col < n.header_cells@.len() ==> frame_spec(
            n,
            f,
        ).contains(attr(n.header_cells@[col as int].cell as nat, "tabindex"@, "0"@))),
{
    let head = head_spec(n, f.grouped, f.paging.rows, f.row_height) + pager_spec(
        n.pager,
        f.paging,
        f.total_count,
        f.page_label@,
    );
    let all = select_all_patches(n.select_all_mark, f.active, f.selected, f.total_count);
    let rest1 = status_patches(n.status, f.status, f.status_text@) + filter_spec(
        n.filter_columns@,
        views(f.operators@),
        f.fields@,
        n.filter_columns@.len() as nat,
    );
    let headers = headers_spec(
        n.header_cells@,
        f.fields@,
        f.sorts@,
        f.grouped,
        f.aggregates@,
        f.active,
        n.header_cells@.len() as nat,
    );
    let slots = slots_spec(n.rows@, f, n.rows@.len() as nat);
    let fs = frame_spec(n, f);
    assert(fs =~= head + all + rest1 + headers + slots);
    if f.active == ActiveCell::SelectAll && n.select_all_mark is Some {
        assert(all[0] == attr(n.select_all_mark->0 as nat, "tabindex"@, "0"@));
        assert(fs[head.len() as int] == all[0]);
    }
    if let ActiveCell::Header { col } = f.active {
        if col < n.header_cells@.len() {
            assert(n.header_cells.len() == n.header_cells@.len());
            assert((col as int) as usize == col);
            lemma_headers_hold(n, f, n.header_cells@.len() as nat, col as int);
            let p = attr(n.header_cells@[col as int].cell as nat, "tabindex"@, "0"@);
            let j = choose|j: int| 0 <= j < headers.len() && headers[j] == p;
            let before = head + all + rest1;
            assert(fs[before.len() + j] == p);
        }
    }
}

} // verus!
