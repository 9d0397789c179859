//! The pivot as a native `<table>`, built as a list of patches.
//!
//! Two header rows when there is a column dimension — the values with
//! `colspan` and `scope="colgroup"`, the measures under them with
//! `scope="col"` — and one when there is not. Every data row starts with
//! `<th scope="row">`, so each cell is announced with the row it is in and
//! the column it is under; a subtotal row is one header spanning the
//! dimension columns that says it is a total, and no header is ever empty:
//! NULL and the empty string each have a word.

use vstd::prelude::*;

use crate::patch::{attr, create, text, PatchList, PatchV, ROOT};
use crate::pivot::{cell, leading_run, opt_view, path_view, runs, PivotModel, PivotV};
use crate::text::{decimal, join_texts, joined, views};

verus! {

/// The words of the pivot table, in the page's language.
pub struct PivotTexts {
    /// The page's language, or empty.
    pub lang: String,
    /// The label of the grand total row.
    pub total: String,
    /// The header of a NULL group.
    pub no_value: String,
    /// The header of a group whose value is the empty string.
    pub empty: String,
    /// What stands before and after a group's name on its subtotal row.
    pub subtotal_before: String,
    pub subtotal_after: String,
}

/// A group value as a header says it: never nothing.
pub open spec fn dimension_spec(t: PivotTexts, v: Option<Seq<char>>) -> Seq<char> {
    match v {
        None => t.no_value@,
        Some(s) => if s.len() == 0 {
            t.empty@
        } else {
            s
        },
    }
}

impl PivotTexts {
    /// A group value as a header says it.
    pub fn dimension(&self, value: &Option<String>) -> (s: String)
        ensures
            s@ == dimension_spec(*self, opt_view(*value)),
    {
        match value {
            None => self.no_value.clone(),
            Some(v) => if v.unicode_len() == 0 {
                self.empty.clone()
            } else {
                v.clone()
            },
        }
    }

    /// The label of a subtotal row for the group named `name`.
    pub fn subtotal(&self, name: &str) -> (s: String)
        ensures
            s@ == self.subtotal_before@ + name@ + self.subtotal_after@,
    {
        let mut s = self.subtotal_before.clone();
        s.append(name);
        s.append(self.subtotal_after.as_str());
        s
    }
}

/// Whether a label is mirrored onto the table as its accessible name.
pub open spec fn mirrored(label: Option<Seq<char>>) -> bool {
    label is Some && label->0.len() > 0
}

/// The layout, the status line and the captioned table, from id `n` on:
/// the layout is `n`, the status line `n + 1`, the table `n + 2` and its
/// caption `n + 3`.
pub open spec fn skeleton_spec(
    n: nat,
    label: Option<Seq<char>>,
    status: Seq<char>,
    state: Seq<char>,
    lang: Seq<char>,
) -> Seq<PatchV> {
    seq![
        create(n, ROOT as nat, "div"@),
        attr(n, "part"@, "layout"@),
        create(n + 1, n, "p"@),
        attr(n + 1, "part"@, "status"@),
        attr(n + 1, "role"@, "status"@),
        attr(n + 1, "aria-live"@, "polite"@),
        attr(n + 1, "data-state"@, state),
    ] + (if lang.len() > 0 {
        seq![attr(n + 1, "lang"@, lang)]
    } else {
        Seq::empty()
    }) + seq![text(n + 1, status), create(n + 2, n, "table"@)] + (if mirrored(label) {
        seq![attr(n + 2, "aria-label"@, label->0)]
    } else {
        Seq::empty()
    }) + seq![
        create(n + 3, n + 2, "caption"@),
        text(
            n + 3,
            match label {
                Some(l) => l,
                None => Seq::empty(),
            },
        ),
    ]
}

/// The header cell of a row dimension.
pub open spec fn dim_head(name: Seq<char>, id: nat, row: nat, nested: bool) -> Seq<PatchV> {
    seq![create(id, row, "th"@), attr(id, "scope"@, "col"@)] + (if nested {
        seq![attr(id, "rowspan"@, "2"@)]
    } else {
        Seq::empty()
    }) + seq![text(id, name)]
}

/// The header cells of the first `k` row dimensions, ids from `base` on.
pub open spec fn dim_heads(
    names: Seq<Seq<char>>,
    base: nat,
    row: nat,
    nested: bool,
    k: nat,
) -> Seq<PatchV>
    decreases k,
{
    if k == 0 {
        Seq::empty()
    } else {
        dim_heads(names, base, row, nested, (k - 1) as nat) + dim_head(
            names[k - 1],
            (base + k - 1) as nat,
            row,
            nested,
        )
    }
}

/// The header text of a column value: its dimension values as headers say
/// them, joined by a middle dot.
pub open spec fn group_label(t: PivotTexts, g: Seq<Option<Seq<char>>>) -> Seq<char> {
    joined(g.map_values(|v: Option<Seq<char>>| dimension_spec(t, v)), " · "@)
}

/// The header cell of a column value, spanning its measures.
pub open spec fn group_head(
    t: PivotTexts,
    g: Seq<Option<Seq<char>>>,
    id: nat,
    row: nat,
    measures: nat,
) -> Seq<PatchV> {
    seq![
        create(id, row, "th"@),
        attr(id, "scope"@, "colgroup"@),
        attr(id, "colspan"@, decimal(measures)),
        text(id, group_label(t, g)),
    ]
}

/// The header cells of the first `k` column values.
pub open spec fn group_heads(
    t: PivotTexts,
    gs: Seq<Seq<Option<Seq<char>>>>,
    base: nat,
    row: nat,
    measures: nat,
    k: nat,
) -> Seq<PatchV>
    decreases k,
{
    if k == 0 {
        Seq::empty()
    } else {
        group_heads(t, gs, base, row, measures, (k - 1) as nat) + group_head(
            t,
            gs[k - 1],
            (base + k - 1) as nat,
            row,
            measures,
        )
    }
}

/// The header cell of a measure.
pub open spec fn measure_head(m: Seq<char>, id: nat, row: nat) -> Seq<PatchV> {
    seq![create(id, row, "th"@), attr(id, "scope"@, "col"@), text(id, m)]
}

/// The header cells of the first `k` measures.
pub open spec fn measure_heads(ms: Seq<Seq<char>>, base: nat, row: nat, k: nat) -> Seq<PatchV>
    decreases k,
{
    if k == 0 {
        Seq::empty()
    } else {
        measure_heads(ms, base, row, (k - 1) as nat) + measure_head(ms[k - 1], (base + k - 1) as nat, row)
    }
}

/// Whether the header has two rows: there is a column dimension.
pub open spec fn is_nested(v: PivotV) -> bool {
    let gs = runs(v.paths);
    gs.len() > 0 && gs[0].len() > 0
}

/// How many elements the header makes.
pub open spec fn header_nodes(v: PivotV) -> nat {
    let d = v.row_dimensions.len();
    let c = v.measures.len();
    if is_nested(v) {
        3 + d + runs(v.paths).len() + c
    } else {
        2 + d + c
    }
}

/// The `<thead>` of table `table`, ids from `h` on.
pub open spec fn header_spec(v: PivotV, t: PivotTexts, table: nat, h: nat) -> Seq<PatchV> {
    let d = v.row_dimensions.len();
    let gs = runs(v.paths);
    let nested = is_nested(v);
    let m = leading_run(v.paths, v.paths.len());
    seq![create(h, table, "thead"@), attr(h, "part"@, "header"@), create(h + 1, h, "tr"@)]
        + dim_heads(v.row_dimensions, h + 2, h + 1, nested, d) + if nested {
        group_heads(t, gs, h + 2 + d, h + 1, m, gs.len()) + seq![
            create(h + 2 + d + gs.len(), h, "tr"@),
        ] + measure_heads(v.measures, h + 3 + d + gs.len(), h + 2 + d + gs.len(), v.measures.len())
    } else {
        measure_heads(v.measures, h + 2 + d, h + 1, v.measures.len())
    }
}

/// The level of row `r`: 0 when the model has none for it.
pub open spec fn level_at(v: PivotV, r: int) -> nat {
    if 0 <= r < v.levels.len() {
        v.levels[r] as nat
    } else {
        0
    }
}

/// How many header cells row `r` has: one for a total, else one per row
/// dimension it has a cell for.
pub open spec fn head_count(v: PivotV, r: int) -> nat {
    let d = v.row_dimensions.len();
    if level_at(v, r) < d {
        1
    } else if v.rows[r].len() < d {
        v.rows[r].len()
    } else {
        d
    }
}

/// How many data cells row `r` has: its cells past the row dimensions.
pub open spec fn data_count(v: PivotV, r: int) -> nat {
    let d = v.row_dimensions.len();
    if v.rows[r].len() > d {
        (v.rows[r].len() - d) as nat
    } else {
        0
    }
}

/// How many elements the first `k` rows make.
pub open spec fn rows_nodes(v: PivotV, k: nat) -> nat
    decreases k,
{
    if k == 0 {
        0
    } else {
        rows_nodes(v, (k - 1) as nat) + 1 + head_count(v, k - 1) + data_count(v, k - 1)
    }
}

/// Cell `i` of a row, NULL past its end.
pub open spec fn cell_get(cells: Seq<Option<Seq<char>>>, i: int) -> Option<Seq<char>> {
    if 0 <= i < cells.len() {
        cells[i]
    } else {
        None
    }
}

/// A data cell's text: NULL is nothing.
pub open spec fn cell_text(v: Option<Seq<char>>) -> Seq<char> {
    match v {
        Some(s) => s,
        None => Seq::empty(),
    }
}

/// What a total row says: the grand total's name, or the subtotal label of
/// the group it closes.
pub open spec fn total_text(v: PivotV, t: PivotTexts, r: int) -> Seq<char> {
    let l = level_at(v, r);
    if l == 0 {
        t.total@
    } else {
        t.subtotal_before@ + dimension_spec(t, cell_get(v.rows[r], l - 1)) + t.subtotal_after@
    }
}

/// The first `k` row headers of a data row `tr`.
pub open spec fn row_heads(t: PivotTexts, cells: Seq<Option<Seq<char>>>, tr: nat, k: nat) -> Seq<
    PatchV,
>
    decreases k,
{
    if k == 0 {
        Seq::empty()
    } else {
        row_heads(t, cells, tr, (k - 1) as nat) + seq![
            create(tr + k, tr, "th"@),
            attr(tr + k, "scope"@, "row"@),
            text(tr + k, dimension_spec(t, cells[k - 1])),
        ]
    }
}

/// The first `k` data cells of row `tr`, after its `heads` header cells.
pub open spec fn row_cells(
    cells: Seq<Option<Seq<char>>>,
    d: nat,
    tr: nat,
    heads: nat,
    k: nat,
) -> Seq<PatchV>
    decreases k,
{
    if k == 0 {
        Seq::empty()
    } else {
        row_cells(cells, d, tr, heads, (k - 1) as nat) + seq![
            create(tr + heads + k, tr, "td"@),
            text(tr + heads + k, cell_text(cells[d + k - 1])),
        ]
    }
}

/// Row `r` as element `tr` of body `tbody`.
pub open spec fn row_spec(v: PivotV, t: PivotTexts, tbody: nat, tr: nat, r: int) -> Seq<PatchV> {
    let d = v.row_dimensions.len();
    let l = level_at(v, r);
    let cells = v.rows[r];
    seq![
        create(tr, tbody, "tr"@),
        attr(tr, "data-level"@, decimal(l)),
        attr(
            tr,
            "part"@,
            if l < d {
                "row total-row"@
            } else {
                "row"@
            },
        ),
    ] + (if l < d {
        seq![
            attr(tr, "data-total"@, "true"@),
            create(tr + 1, tr, "th"@),
            attr(tr + 1, "scope"@, "row"@),
        ] + (if d > 1 {
            seq![attr(tr + 1, "colspan"@, decimal(d))]
        } else {
            Seq::empty()
        }) + seq![text(tr + 1, total_text(v, t, r))]
    } else {
        row_heads(t, cells, tr, head_count(v, r))
    }) + row_cells(cells, d, tr, head_count(v, r), data_count(v, r))
}

/// The first `k` rows of body `tbody`, ids from `base` on.
pub open spec fn rows_spec(v: PivotV, t: PivotTexts, tbody: nat, base: nat, k: nat) -> Seq<PatchV>
    decreases k,
{
    if k == 0 {
        Seq::empty()
    } else {
        rows_spec(v, t, tbody, base, (k - 1) as nat) + row_spec(
            v,
            t,
            tbody,
            base + rows_nodes(v, (k - 1) as nat),
            k - 1,
        )
    }
}

/// How many elements the whole table of a model makes, besides the
/// skeleton.
pub open spec fn model_nodes(v: PivotV) -> nat {
    header_nodes(v) + 1 + rows_nodes(v, v.rows.len())
}

/// The whole pivot from id `n` on: the skeleton, and with a model its
/// header and its body.
pub open spec fn pivot_spec(
    n: nat,
    label: Option<Seq<char>>,
    model: Option<PivotV>,
    status: Seq<char>,
    state: Seq<char>,
    t: PivotTexts,
) -> Seq<PatchV> {
    skeleton_spec(n, label, status, state, t.lang@) + match model {
        None => Seq::empty(),
        Some(v) => header_spec(v, t, n + 2, n + 4) + seq![
            create(n + 4 + header_nodes(v), n + 2, "tbody"@),
        ] + rows_spec(v, t, n + 4 + header_nodes(v), n + 5 + header_nodes(v), v.rows.len()),
    }
}

/// How many elements the whole pivot makes.
pub open spec fn pivot_nodes(model: Option<PivotV>) -> nat {
    4 + match model {
        None => 0,
        Some(v) => model_nodes(v),
    }
}

/// A label as a value.
pub open spec fn label_view(label: Option<&str>) -> Option<Seq<char>> {
    match label {
        Some(l) => Some(l@),
        None => None,
    }
}

/// The layout, the status line and the captioned table; answers the
/// table's id.
fn skeleton(
    list: &mut PatchList,
    label: Option<&str>,
    status: &str,
    state: &str,
    texts: &PivotTexts,
) -> (table: u64)
    requires
        old(list).next + 4 <= u64::MAX,
    ensures
        table == old(list).next + 2,
        final(list).next == old(list).next + 4,
        final(list).view_patches() == old(list).view_patches() + skeleton_spec(
            old(list).next as nat,
            label_view(label),
            status@,
            state@,
            texts.lang@,
        ),
{
    let ghost before = list.view_patches();
    let layout = list.element(ROOT, "div");
    list.attribute(layout, "part", "layout");
    let status_node = list.element(layout, "p");
    list.attribute(status_node, "part", "status");
    list.attribute(status_node, "role", "status");
    list.attribute(status_node, "aria-live", "polite");
    list.attribute(status_node, "data-state", state);
    let ghost head = list.view_patches();
    if texts.lang.unicode_len() > 0 {
        list.attribute(status_node, "lang", texts.lang.as_str());
    }
    let ghost with_lang = list.view_patches();
    list.set_text(status_node, status);
    let table = list.element(layout, "table");
    let ghost mid = list.view_patches();
    match label {
        Some(l) => if l.unicode_len() > 0 {
            list.attribute(table, "aria-label", l);
        },
        None => {},
    }
    let ghost with_label = list.view_patches();
    let caption = list.element(table, "caption");
    match label {
        Some(l) => list.set_text(caption, l),
        None => list.set_text(caption, ""),
    }
    proof {
        reveal_strlit("");
        assert(""@ =~= Seq::<char>::empty());
        let n = old(list).next as nat;
        let lab = label_view(label);
        assert(head =~= before + seq![
            create(n, ROOT as nat, "div"@),
            attr(n, "part"@, "layout"@),
            create(n + 1, n, "p"@),
            attr(n + 1, "part"@, "status"@),
            attr(n + 1, "role"@, "status"@),
            attr(n + 1, "aria-live"@, "polite"@),
            attr(n + 1, "data-state"@, state@),
        ]);
        assert(mid =~= with_lang + seq![text(n + 1, status@), create(n + 2, n, "table"@)]);
        assert(list.view_patches() =~= with_label + seq![
            create(n + 3, n + 2, "caption"@),
            text(
                n + 3,
                match lab {
                    Some(l) => l,
                    None => Seq::empty(),
                },
            ),
        ]);
        assert(list.view_patches() =~= before + skeleton_spec(n, lab, status@, state@, texts.lang@));
    }
    table
}

/// The header text of a column value.
fn group_text(g: &[Option<String>], texts: &PivotTexts) -> (s: String)
    ensures
        s@ == group_label(*texts, path_view(g@)),
{
    let mut parts: Vec<String> = Vec::new();
    let mut i: usize = 0;
    while i < g.len()
        invariant
            i <= g@.len(),
            parts@.len() == i,
            forall|k: int|
                0 <= k < i ==> (#[trigger] parts@[k])@ == dimension_spec(*texts, opt_view(g@[k])),
        decreases g.len() - i,
    {
        parts.push(texts.dimension(&g[i]));
        i = i + 1;
    }
    proof {
        assert(views(parts@) =~= path_view(g@).map_values(
            |v: Option<Seq<char>>| dimension_spec(*texts, v),
        ));
    }
    join_texts(parts.as_slice(), " · ")
}

/// The header cells of the measures, in row `row`, ids from the list's
/// next on.
fn measure_cells(list: &mut PatchList, row: u64, model: &PivotModel)
    requires
        old(list).next + model.columns@.len() <= u64::MAX,
    ensures
        final(list).next == old(list).next + model.columns@.len(),
        final(list).view_patches() == old(list).view_patches() + measure_heads(
            model@.measures,
            old(list).next as nat,
            row as nat,
            model.columns@.len() as nat,
        ),
{
    let ghost base = list.next as nat;
    let ghost before = list.view_patches();
    let ghost ms = model@.measures;
    let mut j: usize = 0;
    while j < model.columns.len()
        invariant
            j <= model.columns@.len(),
            ms == model@.measures,
            ms.len() == model.columns@.len(),
            list.next == base + j,
            base + model.columns@.len() <= u64::MAX,
            list.view_patches() == before + measure_heads(ms, base, row as nat, j as nat),
        decreases model.columns.len() - j,
    {
        let ghost at = list.view_patches();
        let th = list.element(row, "th");
        list.attribute(th, "scope", "col");
        list.set_text(th, model.columns[j].measure.as_str());
        proof {
            assert(ms[j as int] == model.columns@[j as int].measure@);
            assert(measure_heads(ms, base, row as nat, (j + 1) as nat) == measure_heads(
                ms,
                base,
                row as nat,
                j as nat,
            ) + measure_head(ms[j as int], (base + j) as nat, row as nat));
            assert(list.view_patches() =~= at + measure_head(ms[j as int], (base + j) as nat, row as nat));
        }
        j = j + 1;
    }
}

/// The `<thead>` of the table: the row dimensions, then the column values
/// with the measures under them, or the measures alone.
fn header(list: &mut PatchList, table: u64, model: &PivotModel, texts: &PivotTexts)
    requires
        old(list).next + header_nodes(model@) <= u64::MAX,
    ensures
        final(list).next == old(list).next + header_nodes(model@),
        final(list).view_patches() == old(list).view_patches() + header_spec(
            model@,
            *texts,
            table as nat,
            old(list).next as nat,
        ),
{
    let ghost v = model@;
    let ghost h = list.next as nat;
    let ghost before = list.view_patches();
    let measures = model.measures();
    let groups = model.groups();
    let ghost gs = runs(v.paths);
    proof {
        assert(groups@.map_values(|g: &[Option<String>]| path_view(g@)) == gs);
        assert(groups@.len() == gs.len());
        if groups@.len() > 0 {
            assert(path_view(groups@[0]@) == gs[0]);
        }
    }
    let nested = groups.len() > 0 && groups[0].len() > 0;
    let thead = list.element(table, "thead");
    list.attribute(thead, "part", "header");
    let first_row = list.element(thead, "tr");
    let ghost start = list.view_patches();
    proof {
        assert(start =~= before + seq![
            create(h, table as nat, "thead"@),
            attr(h, "part"@, "header"@),
            create(h + 1, h, "tr"@),
        ]);
    }
    let d = model.row_dimensions.len();
    let mut i: usize = 0;
    while i < d
        invariant
            i <= d,
            d == v.row_dimensions.len(),
            v == model@,
            first_row == h + 1,
            nested == is_nested(v),
            list.next == h + 2 + i,
            h + header_nodes(v) <= u64::MAX,
            list.view_patches() == start + dim_heads(v.row_dimensions, h + 2, h + 1, nested, i as nat),
        decreases d - i,
    {
        let ghost at = list.view_patches();
        let th = list.element(first_row, "th");
        list.attribute(th, "scope", "col");
        if nested {
            list.attribute(th, "rowspan", "2");
        }
        list.set_text(th, model.row_dimensions[i].as_str());
        proof {
            assert(v.row_dimensions[i as int] == model.row_dimensions@[i as int]@);
            assert(list.view_patches() =~= at + dim_head(
                v.row_dimensions[i as int],
                (h + 2 + i) as nat,
                h + 1,
                nested,
            ));
        }
        i = i + 1;
    }
    let ghost after_dims = list.view_patches();
    if nested {
        let mut g: usize = 0;
        while g < groups.len()
            invariant
                g <= groups@.len(),
                groups@.len() == gs.len(),
                groups@.map_values(|x: &[Option<String>]| path_view(x@)) == gs,
                d == v.row_dimensions.len(),
                v == model@,
                gs == runs(v.paths),
                nested && nested == is_nested(v),
                measures == leading_run(v.paths, v.paths.len()),
                first_row == h + 1,
                list.next == h + 2 + d + g,
                h + header_nodes(v) <= u64::MAX,
                list.view_patches() == after_dims + group_heads(
                    *texts,
                    gs,
                    (h + 2 + d) as nat,
                    h + 1,
                    measures as nat,
                    g as nat,
                ),
            decreases groups.len() - g,
        {
            let ghost at = list.view_patches();
            let th = list.element(first_row, "th");
            list.attribute(th, "scope", "colgroup");
            list.number_attribute(th, "colspan", measures as u64);
            let label = group_text(groups[g], texts);
            list.set_text(th, label.as_str());
            proof {
                assert(path_view(groups@[g as int]@) == gs[g as int]);
                assert(list.view_patches() =~= at + group_head(
                    *texts,
                    gs[g as int],
                    (h + 2 + d + g) as nat,
                    h + 1,
                    measures as nat,
                ));
            }
            g = g + 1;
        }
        let ghost after_groups = list.view_patches();
        let second_row = list.element(thead, "tr");
        let ghost mid = list.view_patches();
        measure_cells(list, second_row, model);
        proof {
            assert(v.measures.len() == model.columns@.len());
            assert(list.view_patches() =~= before + header_spec(v, *texts, table as nat, h));
        }
    } else {
        measure_cells(list, first_row, model);
        proof {
            assert(v.measures.len() == model.columns@.len());
            assert(list.view_patches() =~= before + header_spec(v, *texts, table as nat, h));
        }
    }
}

/// Row `r` of the body: a total row says what it totals in one header
/// spanning the dimension columns; any other row has a header per row
/// dimension; the data cells follow.
fn body_row(list: &mut PatchList, tbody: u64, model: &PivotModel, r: usize, texts: &PivotTexts)
    requires
        r < model.rows@.len(),
        old(list).next + 1 + head_count(model@, r as int) + data_count(model@, r as int)
            <= u64::MAX,
    ensures
        final(list).next == old(list).next + 1 + head_count(model@, r as int) + data_count(
            model@,
            r as int,
        ),
        final(list).view_patches() == old(list).view_patches() + row_spec(
            model@,
            *texts,
            tbody as nat,
            old(list).next as nat,
            r as int,
        ),
{
    let ghost v = model@;
    let ghost tr0 = list.next as nat;
    let ghost before = list.view_patches();
    let cells = &model.rows[r];
    let ghost cv = v.rows[r as int];
    proof {
        assert(cv == path_view(cells@));
    }
    let d = model.row_dimensions.len();
    let level: u16 = if r < model.levels.len() {
        model.levels[r]
    } else {
        0
    };
    let tr = list.element(tbody, "tr");
    list.number_attribute(tr, "data-level", level as u64);
    let total = (level as usize) < d;
    list.attribute(
        tr,
        "part",
        if total {
            "row total-row"
        } else {
            "row"
        },
    );
    let ghost head3 = list.view_patches();
    proof {
        assert(level as nat == level_at(v, r as int));
        assert(head3 =~= before + seq![
            create(tr0, tbody as nat, "tr"@),
            attr(tr0, "data-level"@, decimal(level as nat)),
            attr(
                tr0,
                "part"@,
                if level_at(v, r as int) < d {
                    "row total-row"@
                } else {
                    "row"@
                },
            ),
        ]);
    }
    if total {
        list.attribute(tr, "data-total", "true");
        let th = list.element(tr, "th");
        list.attribute(th, "scope", "row");
        if d > 1 {
            list.number_attribute(th, "colspan", d as u64);
        }
        let label = if level == 0 {
            texts.total.clone()
        } else {
            let at = (level - 1) as usize;
            let name = if at < cells.len() {
                texts.dimension(&cells[at])
            } else {
                let none: Option<String> = None;
                texts.dimension(&none)
            };
            texts.subtotal(name.as_str())
        };
        list.set_text(th, label.as_str());
        proof {
            assert(label@ == total_text(v, *texts, r as int));
            assert(list.view_patches() =~= head3 + (seq![
                attr(tr0, "data-total"@, "true"@),
                create(tr0 + 1, tr0, "th"@),
                attr(tr0 + 1, "scope"@, "row"@),
            ] + (if d > 1 {
                seq![attr(tr0 + 1, "colspan"@, decimal(d as nat))]
            } else {
                Seq::empty()
            }) + seq![text(tr0 + 1, total_text(v, *texts, r as int))]));
        }
    } else {
        let n = if cells.len() < d {
            cells.len()
        } else {
            d
        };
        let mut k: usize = 0;
        while k < n
            invariant
                k <= n,
                n == head_count(v, r as int),
                n <= cells@.len(),
                cv == path_view(cells@),
                tr == tr0,
                list.next == tr0 + 1 + k,
                tr0 + 1 + n <= u64::MAX,
                list.view_patches() == head3 + row_heads(*texts, cv, tr0, k as nat),
            decreases n - k,
        {
            let ghost at = list.view_patches();
            let th = list.element(tr, "th");
            list.attribute(th, "scope", "row");
            let name = texts.dimension(&cells[k]);
            list.set_text(th, name.as_str());
            proof {
                assert(cv[k as int] == opt_view(cells@[k as int]));
                assert(list.view_patches() =~= at + seq![
                    create((tr0 + k + 1) as nat, tr0, "th"@),
                    attr((tr0 + k + 1) as nat, "scope"@, "row"@),
                    text((tr0 + k + 1) as nat, dimension_spec(*texts, cv[k as int])),
                ]);
            }
            k = k + 1;
        }
    }
    let ghost mid = list.view_patches();
    let heads: usize = if total {
        1
    } else if cells.len() < d {
        cells.len()
    } else {
        d
    };
    proof {
        assert(heads == head_count(v, r as int));
        assert(list.next == tr0 + 1 + heads);
    }
    if cells.len() > d {
        let extra = cells.len() - d;
        let mut k: usize = 0;
        while k < extra
            invariant
                k <= extra,
                extra == data_count(v, r as int),
                d + extra == cells@.len(),
                d + extra <= usize::MAX,
                d == v.row_dimensions.len(),
                cv == path_view(cells@),
                tr == tr0,
                list.next == tr0 + 1 + heads + k,
                tr0 + 1 + heads + extra <= u64::MAX,
                list.view_patches() == mid + row_cells(cv, d as nat, tr0, heads as nat, k as nat),
            decreases extra - k,
        {
            let ghost at = list.view_patches();
            let td = list.element(tr, "td");
            let value = cell(&cells[d + k]);
            list.set_text(td, value.as_str());
            proof {
                assert(cv[d + k] == opt_view(cells@[d + k]));
                assert(list.view_patches() =~= at + seq![
                    create((tr0 + heads + k + 1) as nat, tr0, "td"@),
                    text((tr0 + heads + k + 1) as nat, cell_text(cv[d + k])),
                ]);
            }
            k = k + 1;
        }
    }
    proof {
        assert(list.view_patches() =~= before + row_spec(v, *texts, tbody as nat, tr0, r as int));
    }
}

/// More rows never make fewer elements.
proof fn lemma_rows_nodes_grow(v: PivotV, i: nat, j: nat)
    requires
        i <= j,
    ensures
        rows_nodes(v, i) <= rows_nodes(v, j),
    decreases j,
{
    if i < j {
        lemma_rows_nodes_grow(v, i, (j - 1) as nat);
    }
}

/// The `<tbody>` of the table and its rows.
fn body(list: &mut PatchList, table: u64, model: &PivotModel, texts: &PivotTexts)
    requires
        old(list).next + 1 + rows_nodes(model@, model.rows@.len() as nat) <= u64::MAX,
    ensures
        final(list).next == old(list).next + 1 + rows_nodes(model@, model.rows@.len() as nat),
        final(list).view_patches() == old(list).view_patches() + seq![
            create(old(list).next as nat, table as nat, "tbody"@),
        ] + rows_spec(
            model@,
            *texts,
            old(list).next as nat,
            (old(list).next + 1) as nat,
            model.rows@.len() as nat,
        ),
{
    let ghost v = model@;
    let ghost b = list.next as nat;
    let ghost before = list.view_patches();
    let tbody = list.element(table, "tbody");
    let ghost start = list.view_patches();
    let mut r: usize = 0;
    while r < model.rows.len()
        invariant
            r <= model.rows@.len(),
            v == model@,
            v.rows.len() == model.rows@.len(),
            tbody == b,
            list.next == b + 1 + rows_nodes(v, r as nat),
            b + 1 + rows_nodes(v, model.rows@.len() as nat) <= u64::MAX,
            list.view_patches() == start + rows_spec(v, *texts, b, b + 1, r as nat),
        decreases model.rows.len() - r,
    {
        proof {
            lemma_rows_nodes_grow(v, (r + 1) as nat, model.rows@.len() as nat);
        }
        let ghost at = list.view_patches();
        body_row(list, tbody, model, r, texts);
        r = r + 1;
    }
}

/// A model as a value.
pub open spec fn model_view(model: Option<&PivotModel>) -> Option<PivotV> {
    match model {
        Some(m) => Some(m@),
        None => None,
    }
}

/// Builds the whole pivot as one patch list: the layout with its status
/// line (`role="status"`, `aria-live="polite"`, the state in `data-state`)
/// and the captioned table, named after `label`; with a model, its
/// header and its body.
pub fn build_pivot(
    list: &mut PatchList,
    label: Option<&str>,
    model: Option<&PivotModel>,
    status: &str,
    state: &str,
    texts: &PivotTexts,
)
    requires
        old(list).next + pivot_nodes(model_view(model)) <= u64::MAX,
    ensures
        final(list).next == old(list).next + pivot_nodes(model_view(model)),
        final(list).view_patches() == old(list).view_patches() + pivot_spec(
            old(list).next as nat,
            label_view(label),
            model_view(model),
            status@,
            state@,
            *texts,
        ),
{
    let ghost n = list.next as nat;
    let ghost before = list.view_patches();
    let table = skeleton(list, label, status, state, texts);
    let ghost after_skeleton = list.view_patches();
    match model {
        None => {
            proof {
                assert(list.view_patches() =~= before + pivot_spec(
                    n,
                    label_view(label),
                    model_view(model),
                    status@,
                    state@,
                    *texts,
                ));
            }
        },
        Some(m) => {
            header(list, table, m, texts);
            let ghost after_header = list.view_patches();
            body(list, table, m, texts);
            proof {
                assert(list.view_patches() =~= before + pivot_spec(
                    n,
                    label_view(label),
                    model_view(model),
                    status@,
                    state@,
                    *texts,
                ));
            }
        },
    }
}

/// No header says nothing: a NULL group and an empty-string group each get
/// their word, as long as the words are not empty themselves.
pub proof fn lemma_no_empty_header(t: PivotTexts, v: Option<Seq<char>>)
    requires
        t.no_value@.len() > 0,
        t.empty@.len() > 0,
    ensures
        dimension_spec(t, v).len() > 0,
{
}

/// A row starts with a row header: the first element made inside it is a
/// `<th>`, the spanning one of a total row or the first dimension's — for a
/// total row, and for any row with a row dimension and a cell for it. A
/// total row is marked `data-total` and says what it totals.
pub proof fn lemma_row_starts_with_header(v: PivotV, t: PivotTexts, tbody: nat, tr: nat, r: int)
    requires
        0 <= r < v.rows.len(),
    ensures
        level_at(v, r) < v.row_dimensions.len() ==> {
            let s = row_spec(v, t, tbody, tr, r);
            &&& s[3] == attr(tr, "data-total"@, "true"@)
            &&& s[4] == create(tr + 1, tr, "th"@)
            &&& s[5] == attr(tr + 1, "scope"@, "row"@)
            &&& s.contains(text(tr + 1, total_text(v, t, r)))
        },
        level_at(v, r) >= v.row_dimensions.len() && head_count(v, r) > 0 ==> {
            let s = row_spec(v, t, tbody, tr, r);
            &&& s[3] == create(tr + 1, tr, "th"@)
            &&& s[4] == attr(tr + 1, "scope"@, "row"@)
        },
{
    let d = v.row_dimensions.len();
    let s = row_spec(v, t, tbody, tr, r);
    if level_at(v, r) < d {
        let tail = seq![
            attr(tr, "data-total"@, "true"@),
            create(tr + 1, tr, "th"@),
            attr(tr + 1, "scope"@, "row"@),
        ] + (if d > 1 {
            seq![attr(tr + 1, "colspan"@, decimal(d))]
        } else {
            Seq::empty()
        }) + seq![text(tr + 1, total_text(v, t, r))];
        assert(s[3] == tail[0]);
        assert(s[4] == tail[1]);
        assert(s[5] == tail[2]);
        let k = tail.len() - 1;
        assert(s[3 + k] == tail[k]);
    } else if head_count(v, r) > 0 {
        let n = head_count(v, r);
        let cells = v.rows[r];
        assert(row_heads(t, cells, tr, n) == row_heads(t, cells, tr, (n - 1) as nat) + seq![
            create(tr + n, tr, "th"@),
            attr(tr + n, "scope"@, "row"@),
            text(tr + n, dimension_spec(t, cells[n - 1])),
        ]);
        lemma_row_heads_start(t, cells, tr, n);
        assert(s[3] == row_heads(t, cells, tr, n)[0]);
        assert(s[4] == row_heads(t, cells, tr, n)[1]);
    }
}

/// Row headers start with the first one.
proof fn lemma_row_heads_start(t: PivotTexts, cells: Seq<Option<Seq<char>>>, tr: nat, k: nat)
    requires
        k > 0,
    ensures
        row_heads(t, cells, tr, k).len() == 3 * k,
        row_heads(t, cells, tr, k)[0] == create(tr + 1, tr, "th"@),
        row_heads(t, cells, tr, k)[1] == attr(tr + 1, "scope"@, "row"@),
    decreases k,
{
    let prev = row_heads(t, cells, tr, (k - 1) as nat);
    let last = seq![
        create(tr + k, tr, "th"@),
        attr(tr + k, "scope"@, "row"@),
        text(tr + k, dimension_spec(t, cells[k - 1])),
    ];
    assert(row_heads(t, cells, tr, k) == prev + last);
    if k > 1 {
        lemma_row_heads_start(t, cells, tr, (k - 1) as nat);
        assert((prev + last)[0] == prev[0]);
        assert((prev + last)[1] == prev[1]);
    } else {
        assert(prev.len() == 0);
        assert((prev + last)[0] == last[0]);
        assert((prev + last)[1] == last[1]);
    }
}

} // verus!
