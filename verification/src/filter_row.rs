//! The filter row's skeleton: one operator `<select>` and one value
//! `<input>` per column, and a clear button. It sits outside the grid table,
//! so the grid's roving tabindex and keyboard matrix are untouched; every
//! control is named after its column, and the group is named by reference
//! through a hidden label in the component's language.

use vstd::prelude::*;

use crate::grid_patch::FilterColumnNodes;
use crate::patch::{attr, create, text, PatchList, PatchV};
use crate::text::{decimal, trim, trimmed, views};

verus! {

/// The words of the filter row, in the page's language.
pub struct FilterTexts {
    /// The page's language, or empty.
    pub lang: String,
    /// The name of the filter group.
    pub group: String,
    /// The clear button's word.
    pub clear: String,
    /// The word of each operator, in the order of the operators.
    pub operators: Vec<String>,
    /// Per column: the names of its operator select and of its value input.
    pub columns: Vec<(String, String)>,
}

/// The nodes of the filter row.
pub struct FilterNodes {
    pub container: u64,
    pub clear: u64,
    pub columns: Vec<FilterColumnNodes>,
}

/// The `lang` of one of our texts, when the page names a language.
pub open spec fn lang_spec(node: nat, lang: Seq<char>) -> Seq<PatchV> {
    if trim(lang).len() > 0 {
        seq![attr(node, "lang"@, lang)]
    } else {
        Seq::empty()
    }
}

/// The container and its hidden name.
pub open spec fn filter_head_spec(n: nat, parent: nat, t: FilterTexts) -> Seq<PatchV> {
    seq![
        create(n, parent, "div"@),
        attr(n, "part"@, "filter"@),
        attr(n, "data-filter"@, ""@),
        attr(n, "tabindex"@, "-1"@),
        attr(n, "role"@, "group"@),
        create(n + 1, parent, "span"@),
        attr(n + 1, "id"@, "og-label-filter"@),
        attr(n + 1, "hidden"@, ""@),
    ] + lang_spec(n + 1, t.lang@) + seq![
        text(n + 1, t.group@),
        attr(n, "aria-labelledby"@, "og-label-filter"@),
    ]
}

/// The word of operator `i`.
pub open spec fn word_of(words: Seq<String>, i: int) -> Seq<char> {
    if 0 <= i < words.len() {
        words[i]@
    } else {
        Seq::empty()
    }
}

/// The first `k` options of an operator select: the wire token as the
/// value, the word as the text, the first selected.
pub open spec fn options_build_spec(
    select: nat,
    first: nat,
    ops: Seq<Seq<char>>,
    words: Seq<String>,
    k: nat,
) -> Seq<PatchV>
    decreases k,
{
    if k == 0 {
        Seq::empty()
    } else {
        let i = (k - 1) as nat;
        let o = first + i;
        options_build_spec(select, first, ops, words, i) + seq![
            create(o, select, "option"@),
            attr(o, "value"@, ops[i as int]),
        ] + (if i == 0 {
            seq![attr(o, "selected"@, ""@)]
        } else {
            Seq::empty()
        }) + seq![text(o, word_of(words, i as int))]
    }
}

/// How many nodes one column's controls take.
pub open spec fn stride(ops: nat) -> nat {
    ops + 3
}

/// The names of column `col`'s controls.
pub open spec fn labels_of(t: FilterTexts, col: int) -> (Seq<char>, Seq<char>) {
    if 0 <= col < t.columns@.len() {
        (t.columns@[col].0@, t.columns@[col].1@)
    } else {
        (Seq::empty(), Seq::empty())
    }
}

/// One column's controls, from node `start` on: the group, the select with
/// its options, and the input.
pub open spec fn filter_column_build_spec(
    start: nat,
    container: nat,
    col: nat,
    ops: Seq<Seq<char>>,
    t: FilterTexts,
) -> Seq<PatchV> {
    let s = start + 1;
    let input = start + 2 + ops.len();
    let labels = labels_of(t, col as int);
    seq![
        create(start, container, "span"@),
        attr(start, "style"@, "display: inline-flex; align-items: center; gap: 0.25rem;"@),
        create(s, start, "select"@),
        attr(s, "part"@, "filter-operator"@),
        attr(s, "data-col"@, decimal(col)),
        attr(s, "aria-label"@, labels.0),
    ] + lang_spec(s, t.lang@) + options_build_spec(s, start + 2, ops, t.operators@, ops.len())
        + seq![
        create(input, start, "input"@),
        attr(input, "type"@, "text"@),
        attr(input, "part"@, "filter-value"@),
        attr(input, "data-col"@, decimal(col)),
        attr(input, "aria-label"@, labels.1),
        attr(input, "style"@, "width: 6rem;"@),
    ]
}

/// The controls of the first `k` columns, from node `first` on.
pub open spec fn filter_columns_build_spec(
    first: nat,
    container: nat,
    ops: Seq<Seq<char>>,
    t: FilterTexts,
    k: nat,
) -> Seq<PatchV>
    decreases k,
{
    if k == 0 {
        Seq::empty()
    } else {
        filter_columns_build_spec(first, container, ops, t, (k - 1) as nat)
            + filter_column_build_spec(
            first + ((k - 1) as nat) * stride(ops.len()),
            container,
            (k - 1) as nat,
            ops,
            t,
        )
    }
}

/// The whole filter row built from node `n` on under `parent`.
pub open spec fn filter_build_spec(n: nat, parent: nat, ops: Seq<Seq<char>>, t: FilterTexts) -> Seq<
    PatchV,
> {
    let clear = n + 2 + t.columns@.len() * stride(ops.len());
    filter_head_spec(n, parent, t) + filter_columns_build_spec(
        n + 2,
        n,
        ops,
        t,
        t.columns@.len(),
    ) + seq![
        create(clear, n, "button"@),
        attr(clear, "type"@, "button"@),
        attr(clear, "part"@, "filter-clear"@),
        attr(clear, "data-filter-clear"@, ""@),
        text(clear, t.clear@),
    ] + lang_spec(clear, t.lang@)
}

/// Whether `c` are the nodes of a column's controls built from `start` on.
pub open spec fn column_nodes_at(c: FilterColumnNodes, start: nat, ops: nat) -> bool {
    &&& c.select == start + 1
    &&& c.input == start + 2 + ops
    &&& c.options@.len() == ops
    &&& forall|i: int| 0 <= i < ops ==> #[trigger] c.options@[i] == start + 2 + i
}

/// Marks one of our texts with the page's language.
pub(crate) fn set_lang(list: &mut PatchList, node: u64, lang: &str)
    ensures
        final(list).next == old(list).next,
        final(list).view_patches() == old(list).view_patches() + lang_spec(node as nat, lang@),
{
    let ghost before = list.view_patches();
    if trimmed(lang).unicode_len() > 0 {
        list.attribute(node, "lang", lang);
    }
    proof {
        assert(list.view_patches() =~= before + lang_spec(node as nat, lang@));
    }
}

/// The options of an operator select.
fn build_options(list: &mut PatchList, select: u64, ops: &Vec<String>, words: &Vec<String>) -> (options: Vec<u64>)
    requires
        old(list).next + ops@.len() <= u64::MAX,
    ensures
        final(list).next == old(list).next + ops@.len(),
        final(list).view_patches() == old(list).view_patches() + options_build_spec(
            select as nat,
            old(list).next as nat,
            views(ops@),
            words@,
            ops@.len(),
        ),
        options@.len() == ops@.len(),
        forall|i: int| 0 <= i < ops@.len() ==> #[trigger] options@[i] == old(list).next + i,
{
    let ghost before = list.view_patches();
    let ghost first = list.next as nat;
    let mut options: Vec<u64> = Vec::new();
    let mut i: usize = 0;
    while i < ops.len()
        invariant
            i <= ops@.len(),
            first == old(list).next,
            first + ops@.len() <= u64::MAX,
            list.next == first + i,
            options@.len() == i,
            forall|j: int| 0 <= j < i ==> #[trigger] options@[j] == first + j,
            list.view_patches() == before + options_build_spec(
                select as nat,
                first,
                views(ops@),
                words@,
                i as nat,
            ),
        decreases ops.len() - i,
    {
        let ghost at = list.view_patches();
        let o = list.element(select, "option");
        list.attribute(o, "value", ops[i].as_str());
        if i == 0 {
            list.attribute(o, "selected", "");
        }
        if i < words.len() {
            list.set_text(o, words[i].as_str());
        } else {
            list.set_text(o, "");
        }
        proof {
            reveal_strlit("");
            assert(views(ops@)[i as int] == ops@[i as int]@);
            assert(o == first + i);
            assert(""@ =~= Seq::<char>::empty());
            let piece = seq![
                create(o as nat, select as nat, "option"@),
                attr(o as nat, "value"@, views(ops@)[i as int]),
            ] + (if i == 0 {
                seq![attr(o as nat, "selected"@, ""@)]
            } else {
                Seq::empty()
            }) + seq![text(o as nat, word_of(words@, i as int))];
            assert(list.view_patches() =~= at + piece);
            assert(options_build_spec(select as nat, first, views(ops@), words@, (i + 1) as nat)
                == options_build_spec(select as nat, first, views(ops@), words@, i as nat) + piece);
            assert(list.view_patches() =~= before + options_build_spec(
                select as nat,
                first,
                views(ops@),
                words@,
                (i + 1) as nat,
            ));
        }
        options.push(o);
        i = i + 1;
    }
    options
}

/// One column's controls.
#[verifier::rlimit(40)]
fn build_filter_column(
    list: &mut PatchList,
    container: u64,
    col: usize,
    ops: &Vec<String>,
    texts: &FilterTexts,
) -> (c: FilterColumnNodes)
    requires
        old(list).next + stride(ops@.len()) <= u64::MAX,
    ensures
        final(list).next == old(list).next + stride(ops@.len()),
        final(list).view_patches() == old(list).view_patches() + filter_column_build_spec(
            old(list).next as nat,
            container as nat,
            col as nat,
            views(ops@),
            *texts,
        ),
        column_nodes_at(c, old(list).next as nat, ops@.len()),
{
    let ghost before = list.view_patches();
    let ghost start = list.next as nat;
    let group = list.element(container, "span");
    list.attribute(group, "style", "display: inline-flex; align-items: center; gap: 0.25rem;");
    let select = list.element(group, "select");
    list.attribute(select, "part", "filter-operator");
    list.number_attribute(select, "data-col", col as u64);
    let (op_label, value_label): (&str, &str) = if col < texts.columns.len() {
        (texts.columns[col].0.as_str(), texts.columns[col].1.as_str())
    } else {
        ("", "")
    };
    proof {
        reveal_strlit("");
        assert(op_label@ == labels_of(*texts, col as int).0);
        assert(value_label@ == labels_of(*texts, col as int).1);
    }
    list.attribute(select, "aria-label", op_label);
    set_lang(list, select, texts.lang.as_str());
    let ghost mid = list.view_patches();
    proof {
        assert(mid =~= before + seq![
            create(start, container as nat, "span"@),
            attr(start, "style"@, "display: inline-flex; align-items: center; gap: 0.25rem;"@),
            create(start + 1, start, "select"@),
            attr(start + 1, "part"@, "filter-operator"@),
            attr(start + 1, "data-col"@, decimal(col as nat)),
            attr(start + 1, "aria-label"@, labels_of(*texts, col as int).0),
        ] + lang_spec(start + 1, texts.lang@));
    }
    let options = build_options(list, select, ops, &texts.operators);
    let ghost after_options = list.view_patches();
    let input = list.element(group, "input");
    list.attribute(input, "type", "text");
    list.attribute(input, "part", "filter-value");
    list.number_attribute(input, "data-col", col as u64);
    list.attribute(input, "aria-label", value_label);
    list.attribute(input, "style", "width: 6rem;");
    proof {
        assert(input == start + 2 + ops@.len());
        assert(list.view_patches() =~= after_options + seq![
            create(input as nat, start, "input"@),
            attr(input as nat, "type"@, "text"@),
            attr(input as nat, "part"@, "filter-value"@),
            attr(input as nat, "data-col"@, decimal(col as nat)),
            attr(input as nat, "aria-label"@, labels_of(*texts, col as int).1),
            attr(input as nat, "style"@, "width: 6rem;"@),
        ]);
        assert(list.view_patches() =~= before + filter_column_build_spec(
            start,
            container as nat,
            col as nat,
            views(ops@),
            *texts,
        ));
    }
    FilterColumnNodes { select, options, input }
}

/// The container of the filter row and its hidden name.
fn build_filter_head(list: &mut PatchList, parent: u64, texts: &FilterTexts) -> (container: u64)
    requires
        old(list).next + 2 <= u64::MAX,
    ensures
        container == old(list).next,
        final(list).next == old(list).next + 2,
        final(list).view_patches() == old(list).view_patches() + filter_head_spec(
            container as nat,
            parent as nat,
            *texts,
        ),
{
    let ghost before = list.view_patches();
    let container = list.element(parent, "div");
    list.attribute(container, "part", "filter");
    list.attribute(container, "data-filter", "");
    list.attribute(container, "tabindex", "-1");
    list.attribute(container, "role", "group");
    let label = list.element(parent, "span");
    list.attribute(label, "id", "og-label-filter");
    list.attribute(label, "hidden", "");
    set_lang(list, label, texts.lang.as_str());
    list.set_text(label, texts.group.as_str());
    list.attribute(container, "aria-labelledby", "og-label-filter");
    proof {
        reveal_strlit("");
        assert(list.view_patches() =~= before + filter_head_spec(container as nat, parent as nat, *texts));
    }
    container
}

/// Builds the filter row under `parent`: a group named by reference, one
/// operator select (with every operator, the first selected) and one value
/// input per column, and the clear button.
#[verifier::rlimit(40)]
pub fn build_filter(list: &mut PatchList, parent: u64, ops: &Vec<String>, texts: &FilterTexts) -> (nodes: FilterNodes)
    requires
        old(list).next + 3 + texts.columns@.len() * stride(ops@.len()) <= u64::MAX,
    ensures
        final(list).next == old(list).next + 3 + texts.columns@.len() * stride(ops@.len()),
        final(list).view_patches() == old(list).view_patches() + filter_build_spec(
            old(list).next as nat,
            parent as nat,
            views(ops@),
            *texts,
        ),
        nodes.container == old(list).next,
        nodes.clear == old(list).next + 2 + texts.columns@.len() * stride(ops@.len()),
        nodes.columns@.len() == texts.columns@.len(),
        forall|c: int|
            0 <= c < texts.columns@.len() ==> column_nodes_at(
                #[trigger] nodes.columns@[c],
                (old(list).next + 2 + c * stride(ops@.len())) as nat,
                ops@.len(),
            ),
{
    let ghost before = list.view_patches();
    let ghost n = list.next as nat;
    let ghost st = stride(ops@.len());
    let ghost cols = texts.columns@.len();
    proof {
        assert(cols * st >= 0) by (nonlinear_arith);
    }
    let container = build_filter_head(list, parent, texts);
    let ghost head = list.view_patches();
    let mut columns: Vec<FilterColumnNodes> = Vec::new();
    let mut col: usize = 0;
    while col < texts.columns.len()
        invariant
            col <= cols,
            cols == texts.columns@.len(),
            st == stride(ops@.len()),
            n == old(list).next,
            container == n,
            n + 3 + cols * st <= u64::MAX,
            list.next == n + 2 + col * st,
            columns@.len() == col,
            forall|c: int|
                0 <= c < col ==> column_nodes_at(
                    #[trigger] columns@[c],
                    (n + 2 + c * st) as nat,
                    ops@.len(),
                ),
            list.view_patches() == head + filter_columns_build_spec(
                n + 2,
                n,
                views(ops@),
                *texts,
                col as nat,
            ),
        decreases texts.columns.len() - col,
    {
        proof {
            assert((col + 1) * st <= cols * st) by (nonlinear_arith)
                requires
                    col + 1 <= cols,
            ;
            assert((col + 1) * st == col * st + st) by (nonlinear_arith);
        }
        let ghost start = list.next as nat;
        let built = build_filter_column(list, container, col, ops, texts);
        proof {
            assert(start == n + 2 + col * st);
            assert(list.view_patches() =~= head + filter_columns_build_spec(
                n + 2,
                n,
                views(ops@),
                *texts,
                (col + 1) as nat,
            ));
        }
        columns.push(built);
        col = col + 1;
        proof {
            assert forall|c: int| 0 <= c < col implies column_nodes_at(
                #[trigger] columns@[c],
                (n + 2 + c * st) as nat,
                ops@.len(),
            ) by {
                if c == col - 1 {
                    assert(columns@[c] == built);
                }
            }
        }
    }
    let ghost mid = list.view_patches();
    let clear = list.element(container, "button");
    list.attribute(clear, "type", "button");
    list.attribute(clear, "part", "filter-clear");
    list.attribute(clear, "data-filter-clear", "");
    list.set_text(clear, texts.clear.as_str());
    set_lang(list, clear, texts.lang.as_str());
    proof {
        reveal_strlit("");
        assert(list.view_patches() =~= before + filter_build_spec(
            n,
            parent as nat,
            views(ops@),
            *texts,
        ));
    }
    FilterNodes { container, clear, columns }
}

} // verus!
