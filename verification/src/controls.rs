//! The status line and the paging controls of the skeleton: built once,
//! outside the grid table, and afterwards only patched.

use vstd::prelude::*;

use crate::filter_row::{lang_spec, set_lang};
use crate::grid_patch::PagerNodes;
use crate::display::{comfortable, compact, densities, normal};
use crate::filter_row::word_of;
use crate::patch::{attr, create, text, PatchList, PatchV};
use crate::text::same_text;

verus! {

/// The words of the paging controls, in the page's language.
pub struct PagerTexts {
    /// The page's language, or empty.
    pub lang: String,
    pub first: String,
    pub previous: String,
    pub next: String,
    pub last: String,
}

/// The status line built as node `n` under `parent`: the grid's one live
/// region, created with the skeleton and loading until a result arrives.
pub open spec fn status_build_spec(n: nat, parent: nat, lang: Seq<char>, loading: Seq<char>) -> Seq<
    PatchV,
> {
    seq![
        create(n, parent, "p"@),
        attr(n, "part"@, "status"@),
        attr(n, "role"@, "status"@),
        attr(n, "aria-live"@, "polite"@),
        attr(n, "data-state"@, "loading"@),
    ] + lang_spec(n, lang) + seq![text(n, loading)]
}

/// A paging button built as node `b` under `parent`.
pub open spec fn button_spec(b: nat, parent: nat, part: Seq<char>, label: Seq<char>) -> Seq<PatchV> {
    seq![
        create(b, parent, "button"@),
        attr(b, "type"@, "button"@),
        attr(b, "part"@, part),
        text(b, label),
    ]
}

/// The paging controls built from node `n` on under `parent`: a hidden,
/// labelled group of four buttons around the page label.
pub open spec fn pager_build_spec(n: nat, parent: nat, t: PagerTexts) -> Seq<PatchV> {
    seq![
        create(n, parent, "div"@),
        attr(n, "part"@, "pager"@),
        attr(n, "role"@, "group"@),
        attr(n, "hidden"@, ""@),
    ] + lang_spec(n, t.lang@) + button_spec(n + 1, n, "page-first"@, t.first@) + button_spec(
        n + 2,
        n,
        "page-previous"@,
        t.previous@,
    ) + seq![create(n + 3, n, "span"@), attr(n + 3, "part"@, "page-label"@)] + button_spec(
        n + 4,
        n,
        "page-next"@,
        t.next@,
    ) + button_spec(n + 5, n, "page-last"@, t.last@)
}

/// Builds the status line under `parent`, saying `loading`.
pub fn build_status(list: &mut PatchList, parent: u64, lang: &str, loading: &str) -> (status: u64)
    requires
        old(list).next < u64::MAX,
    ensures
        status == old(list).next,
        final(list).next == old(list).next + 1,
        final(list).view_patches() == old(list).view_patches() + status_build_spec(
            status as nat,
            parent as nat,
            lang@,
            loading@,
        ),
{
    let ghost before = list.view_patches();
    let status = list.element(parent, "p");
    list.attribute(status, "part", "status");
    list.attribute(status, "role", "status");
    list.attribute(status, "aria-live", "polite");
    list.attribute(status, "data-state", "loading");
    set_lang(list, status, lang);
    list.set_text(status, loading);
    proof {
        assert(list.view_patches() =~= before + status_build_spec(
            status as nat,
            parent as nat,
            lang@,
            loading@,
        ));
    }
    status
}

/// One paging button.
fn pager_button(list: &mut PatchList, parent: u64, part: &str, label: &str) -> (b: u64)
    requires
        old(list).next < u64::MAX,
    ensures
        b == old(list).next,
        final(list).next == old(list).next + 1,
        final(list).view_patches() == old(list).view_patches() + button_spec(
            b as nat,
            parent as nat,
            part@,
            label@,
        ),
{
    let ghost before = list.view_patches();
    let b = list.element(parent, "button");
    list.attribute(b, "type", "button");
    list.attribute(b, "part", part);
    list.set_text(b, label);
    proof {
        assert(list.view_patches() =~= before + button_spec(b as nat, parent as nat, part@, label@));
    }
    b
}

/// Builds the paging controls under `parent`, hidden until the grid pages.
pub fn build_pager(list: &mut PatchList, parent: u64, texts: &PagerTexts) -> (p: PagerNodes)
    requires
        old(list).next + 6 <= u64::MAX,
    ensures
        final(list).next == old(list).next + 6,
        final(list).view_patches() == old(list).view_patches() + pager_build_spec(
            old(list).next as nat,
            parent as nat,
            *texts,
        ),
        p == (PagerNodes {
            container: old(list).next,
            first: (old(list).next + 1) as u64,
            previous: (old(list).next + 2) as u64,
            label: (old(list).next + 3) as u64,
            next: (old(list).next + 4) as u64,
            last: (old(list).next + 5) as u64,
        }),
{
    let ghost before = list.view_patches();
    let container = list.element(parent, "div");
    list.attribute(container, "part", "pager");
    list.attribute(container, "role", "group");
    list.attribute(container, "hidden", "");
    set_lang(list, container, texts.lang.as_str());
    let first = pager_button(list, container, "page-first", texts.first.as_str());
    let previous = pager_button(list, container, "page-previous", texts.previous.as_str());
    let label = list.element(container, "span");
    list.attribute(label, "part", "page-label");
    let next = pager_button(list, container, "page-next", texts.next.as_str());
    let last = pager_button(list, container, "page-last", texts.last.as_str());
    proof {
        assert(list.view_patches() =~= before + pager_build_spec(
            container as nat,
            parent as nat,
            *texts,
        ));
    }
    PagerNodes { container, first, previous, next, last, label }
}

/// The nodes of the column list: its toggle, its container, and each
/// column's checkbox with the column it stands for.
pub struct ColumnsNodes {
    pub toggle: u64,
    pub container: u64,
    pub boxes: Vec<(u64, String)>,
}

/// One column's checkbox built from node `b` on in `container`: a label with
/// the checkbox, checked while the column is shown, and the column's name.
pub open spec fn column_box_spec(b: nat, container: nat, name: Seq<char>, visible: bool) -> Seq<PatchV> {
    seq![
        create(b, container, "label"@),
        attr(b, "part"@, "column-toggle"@),
        create(b + 1, b, "input"@),
        attr(b + 1, "type"@, "checkbox"@),
        attr(b + 1, "data-column"@, name),
    ] + (if visible {
        seq![attr(b + 1, "checked"@, ""@)]
    } else {
        Seq::empty()
    }) + seq![create(b + 2, b, "span"@), text(b + 2, name)]
}

/// The checkboxes of the first `k` declared columns, from node `first` on.
pub open spec fn column_boxes_spec(first: nat, container: nat, declared: Seq<(String, bool)>, k: nat) -> Seq<
    PatchV,
>
    decreases k,
{
    if k == 0 {
        Seq::empty()
    } else {
        column_boxes_spec(first, container, declared, (k - 1) as nat) + column_box_spec(
            (first + 3 * (k - 1)) as nat,
            container,
            declared[k - 1].0@,
            declared[k - 1].1,
        )
    }
}

/// The column list built from node `n` on under `parent`: a disclosure
/// button, closed, that carries the word; the hidden group it opens, named
/// by reference; and one checkbox per declared column.
pub open spec fn columns_build_spec(
    n: nat,
    parent: nat,
    declared: Seq<(String, bool)>,
    lang: Seq<char>,
    group: Seq<char>,
) -> Seq<PatchV> {
    seq![
        create(n, parent, "button"@),
        attr(n, "type"@, "button"@),
        attr(n, "part"@, "columns-toggle"@),
        attr(n, "aria-expanded"@, "false"@),
        text(n, group),
    ] + lang_spec(n, lang) + seq![
        create(n + 1, parent, "div"@),
        attr(n + 1, "part"@, "columns"@),
        attr(n + 1, "role"@, "group"@),
        attr(n + 1, "hidden"@, ""@),
        create(n + 2, parent, "span"@),
        attr(n + 2, "id"@, "og-label-columns"@),
        attr(n + 2, "hidden"@, ""@),
    ] + lang_spec(n + 2, lang) + seq![
        text(n + 2, group),
        attr(n + 1, "aria-labelledby"@, "og-label-columns"@),
    ] + column_boxes_spec(n + 3, n + 1, declared, declared.len())
}

/// The toggle, the container and its hidden name.
fn build_columns_head(list: &mut PatchList, parent: u64, lang: &str, group: &str) -> (toggle: u64)
    requires
        old(list).next + 3 <= u64::MAX,
    ensures
        toggle == old(list).next,
        final(list).next == old(list).next + 3,
        final(list).view_patches() == old(list).view_patches() + columns_build_spec(
            toggle as nat,
            parent as nat,
            Seq::empty(),
            lang@,
            group@,
        ),
{
    let ghost before = list.view_patches();
    let toggle = list.element(parent, "button");
    list.attribute(toggle, "type", "button");
    list.attribute(toggle, "part", "columns-toggle");
    list.attribute(toggle, "aria-expanded", "false");
    list.set_text(toggle, group);
    set_lang(list, toggle, lang);
    let container = list.element(parent, "div");
    list.attribute(container, "part", "columns");
    list.attribute(container, "role", "group");
    list.attribute(container, "hidden", "");
    let label = list.element(parent, "span");
    list.attribute(label, "id", "og-label-columns");
    list.attribute(label, "hidden", "");
    set_lang(list, label, lang);
    list.set_text(label, group);
    list.attribute(container, "aria-labelledby", "og-label-columns");
    proof {
        assert(column_boxes_spec((toggle + 3) as nat, (toggle + 1) as nat, Seq::<(String, bool)>::empty(), 0)
            =~= Seq::<PatchV>::empty());
        assert(list.view_patches() =~= before + columns_build_spec(
            toggle as nat,
            parent as nat,
            Seq::empty(),
            lang@,
            group@,
        ));
    }
    toggle
}

/// Builds the column list under `parent`: a disclosure rather than a
/// permanent list, with one checkbox per declared column, checked while the
/// column is shown. The names are the page's words, so only the toggle and
/// the hidden name carry the component's language.
#[verifier::rlimit(40)]
pub fn build_columns(list: &mut PatchList, parent: u64, declared: &[(String, bool)], lang: &str, group: &str) -> (c: ColumnsNodes)
    requires
        old(list).next + 3 + 3 * declared@.len() <= u64::MAX,
    ensures
        final(list).next == old(list).next + 3 + 3 * declared@.len(),
        final(list).view_patches() == old(list).view_patches() + columns_build_spec(
            old(list).next as nat,
            parent as nat,
            declared@,
            lang@,
            group@,
        ),
        c.toggle == old(list).next,
        c.container == old(list).next + 1,
        c.boxes@.len() == declared@.len(),
        forall|j: int|
            0 <= j < declared@.len() ==> (#[trigger] c.boxes@[j]).0 == old(list).next + 3 + 3 * j + 1
                && c.boxes@[j].1@ == declared@[j].0@,
{
    let ghost before = list.view_patches();
    let ghost n = list.next as nat;
    let toggle = build_columns_head(list, parent, lang, group);
    let container = toggle + 1;
    let ghost head = list.view_patches();
    let mut boxes: Vec<(u64, String)> = Vec::new();
    let mut j: usize = 0;
    while j < declared.len()
        invariant
            j <= declared@.len(),
            n == old(list).next,
            toggle == n,
            container == n + 1,
            n + 3 + 3 * declared@.len() <= u64::MAX,
            list.next == n + 3 + 3 * j,
            head == before + columns_build_spec(n, parent as nat, Seq::empty(), lang@, group@),
            list.view_patches() == head + column_boxes_spec(n + 3, n + 1, declared@, j as nat),
            boxes@.len() == j,
            forall|i: int|
                0 <= i < j ==> (#[trigger] boxes@[i]).0 == n + 3 + 3 * i + 1 && boxes@[i].1@
                    == declared@[i].0@,
        decreases declared.len() - j,
    {
        let ghost at = list.view_patches();
        let label = list.element(container, "label");
        list.attribute(label, "part", "column-toggle");
        let input = list.element(label, "input");
        list.attribute(input, "type", "checkbox");
        list.attribute(input, "data-column", declared[j].0.as_str());
        if declared[j].1 {
            list.attribute(input, "checked", "");
        }
        let name = list.element(label, "span");
        list.set_text(name, declared[j].0.as_str());
        proof {
            reveal_strlit("");
            assert(label == n + 3 + 3 * j);
            assert(list.view_patches() =~= at + column_box_spec(
                label as nat,
                container as nat,
                declared@[j as int].0@,
                declared@[j as int].1,
            ));
            assert(column_boxes_spec(n + 3, n + 1, declared@, (j + 1) as nat) == column_boxes_spec(
                n + 3,
                n + 1,
                declared@,
                j as nat,
            ) + column_box_spec((n + 3 + 3 * j) as nat, n + 1, declared@[j as int].0@, declared@[j as int].1));
        }
        boxes.push((input, declared[j].0.clone()));
        j = j + 1;
    }
    proof {
        let empty = columns_build_spec(n, parent as nat, Seq::empty(), lang@, group@);
        let full = columns_build_spec(n, parent as nat, declared@, lang@, group@);
        let boxes_part = column_boxes_spec(n + 3, n + 1, declared@, declared@.len());
        assert(column_boxes_spec(n + 3, n + 1, Seq::<(String, bool)>::empty(), 0) =~= Seq::<PatchV>::empty());
        assert(full =~= empty + boxes_part);
        assert(list.view_patches() =~= before + full);
    }
    ColumnsNodes { toggle, container, boxes }
}

/// A hidden name built as node `l` under `parent` for `target`, which points
/// at it by `id`: our words, in our language, while the target holds the
/// page's.
pub open spec fn label_by_spec(
    l: nat,
    parent: nat,
    target: nat,
    id: Seq<char>,
    words: Seq<char>,
    lang: Seq<char>,
) -> Seq<PatchV> {
    seq![create(l, parent, "span"@), attr(l, "id"@, id), attr(l, "hidden"@, ""@)] + lang_spec(l, lang)
        + seq![text(l, words), attr(target, "aria-labelledby"@, id)]
}

/// Names `target` by a hidden label under `parent`.
fn label_by(list: &mut PatchList, parent: u64, target: u64, id: &str, words: &str, lang: &str) -> (l: u64)
    requires
        old(list).next < u64::MAX,
    ensures
        l == old(list).next,
        final(list).next == old(list).next + 1,
        final(list).view_patches() == old(list).view_patches() + label_by_spec(
            l as nat,
            parent as nat,
            target as nat,
            id@,
            words@,
            lang@,
        ),
{
    let ghost before = list.view_patches();
    let l = list.element(parent, "span");
    list.attribute(l, "id", id);
    list.attribute(l, "hidden", "");
    set_lang(list, l, lang);
    list.set_text(l, words);
    list.attribute(target, "aria-labelledby", id);
    proof {
        assert(list.view_patches() =~= before + label_by_spec(
            l as nat,
            parent as nat,
            target as nat,
            id@,
            words@,
            lang@,
        ));
    }
    l
}

/// The words of the search field, in the page's language.
pub struct SearchTexts {
    pub lang: String,
    pub label: String,
    pub placeholder: String,
    pub hint: String,
    pub suggestions: String,
}

/// The search field built from node `n` on under `parent`: a combobox
/// input named by reference, its hidden hint, and the hidden list of
/// suggestions it controls.
pub open spec fn search_build_spec(n: nat, parent: nat, t: SearchTexts) -> Seq<PatchV> {
    seq![
        create(n, parent, "div"@),
        attr(n, "part"@, "search"@),
        create(n + 1, n, "input"@),
        attr(n + 1, "type"@, "text"@),
        attr(n + 1, "part"@, "search-input"@),
        attr(n + 1, "role"@, "combobox"@),
        attr(n + 1, "aria-autocomplete"@, "list"@),
        attr(n + 1, "aria-expanded"@, "false"@),
        attr(n + 1, "aria-controls"@, "og-search-list"@),
        attr(n + 1, "autocomplete"@, "off"@),
        attr(n + 1, "spellcheck"@, "false"@),
    ] + label_by_spec(n + 2, n, n + 1, "og-label-search"@, t.label@, t.lang@) + seq![
        attr(n + 1, "placeholder"@, t.placeholder@),
        create(n + 3, n, "span"@),
        attr(n + 3, "part"@, "search-hint"@),
        attr(n + 3, "hidden"@, ""@),
    ] + lang_spec(n + 3, t.lang@) + seq![
        text(n + 3, t.hint@),
        create(n + 4, n, "ul"@),
        attr(n + 4, "part"@, "search-list"@),
        attr(n + 4, "role"@, "listbox"@),
        attr(n + 4, "id"@, "og-search-list"@),
        attr(n + 4, "hidden"@, ""@),
    ] + label_by_spec(n + 5, n, n + 4, "og-label-suggestions"@, t.suggestions@, t.lang@)
}

/// Builds the search field under `parent`.
#[verifier::rlimit(40)]
pub fn build_search(list: &mut PatchList, parent: u64, texts: &SearchTexts) -> (row: u64)
    requires
        old(list).next + 6 <= u64::MAX,
    ensures
        row == old(list).next,
        final(list).next == old(list).next + 6,
        final(list).view_patches() == old(list).view_patches() + search_build_spec(
            row as nat,
            parent as nat,
            *texts,
        ),
{
    let ghost before = list.view_patches();
    let row = list.element(parent, "div");
    list.attribute(row, "part", "search");
    let input = list.element(row, "input");
    list.attribute(input, "type", "text");
    list.attribute(input, "part", "search-input");
    list.attribute(input, "role", "combobox");
    list.attribute(input, "aria-autocomplete", "list");
    list.attribute(input, "aria-expanded", "false");
    list.attribute(input, "aria-controls", "og-search-list");
    list.attribute(input, "autocomplete", "off");
    list.attribute(input, "spellcheck", "false");
    let ghost a = list.view_patches();
    label_by(list, row, input, "og-label-search", texts.label.as_str(), texts.lang.as_str());
    let ghost b = list.view_patches();
    list.attribute(input, "placeholder", texts.placeholder.as_str());
    let hint = list.element(row, "span");
    list.attribute(hint, "part", "search-hint");
    list.attribute(hint, "hidden", "");
    set_lang(list, hint, texts.lang.as_str());
    list.set_text(hint, texts.hint.as_str());
    let suggestions = list.element(row, "ul");
    list.attribute(suggestions, "part", "search-list");
    list.attribute(suggestions, "role", "listbox");
    list.attribute(suggestions, "id", "og-search-list");
    list.attribute(suggestions, "hidden", "");
    let ghost c = list.view_patches();
    label_by(list, row, suggestions, "og-label-suggestions", texts.suggestions.as_str(), texts.lang.as_str());
    proof {
        reveal_strlit("");
        assert(list.view_patches() =~= before + search_build_spec(row as nat, parent as nat, *texts));
    }
    row
}

/// The words of the toolbar and the chips, in the page's language.
pub struct ToolbarTexts {
    pub lang: String,
    pub group: String,
    pub filter_row: String,
    pub facets: String,
    pub density_group: String,
    /// The word of each density step, from the densest.
    pub densities: Vec<String>,
    pub chips: String,
}

/// A density button built as node `b` under `parent`; `normal` starts
/// pressed.
pub open spec fn density_button_spec(b: nat, parent: nat, name: Seq<char>, words: Seq<char>) -> Seq<
    PatchV,
> {
    seq![
        create(b, parent, "button"@),
        attr(b, "type"@, "button"@),
        attr(b, "data-density"@, name),
        attr(
            b,
            "aria-pressed"@,
            if name == normal().0 {
                "true"@
            } else {
                "false"@
            },
        ),
        text(b, words),
    ]
}

/// How many nodes the facet switch takes.
pub open spec fn switch_nodes(has_facets: bool) -> nat {
    if has_facets {
        1
    } else {
        0
    }
}

/// The toolbar group, its name and its filter-row switch.
pub open spec fn toolbar_head_spec(n: nat, parent: nat, t: ToolbarTexts) -> Seq<PatchV> {
    seq![create(n, parent, "div"@), attr(n, "part"@, "toolbar"@), attr(n, "role"@, "group"@)]
        + label_by_spec(n + 1, parent, n, "og-label-toolbar"@, t.group@, t.lang@) + seq![
        create(n + 2, n, "button"@),
        attr(n + 2, "type"@, "button"@),
        attr(n + 2, "part"@, "filter-row-toggle"@),
        attr(n + 2, "data-toolbar"@, "filter-row"@),
        attr(n + 2, "aria-pressed"@, "true"@),
        text(n + 2, t.filter_row@),
    ] + lang_spec(n + 2, t.lang@)
}

/// The facet switch as node `s` in the toolbar `bar`, pressed while the
/// facets are shown.
pub open spec fn facet_switch_spec(s: nat, bar: nat, t: ToolbarTexts, shown: bool) -> Seq<PatchV> {
    seq![
        create(s, bar, "button"@),
        attr(s, "type"@, "button"@),
        attr(s, "part"@, "facets-toggle"@),
        attr(s, "data-toolbar"@, "facets"@),
        attr(
            s,
            "aria-pressed"@,
            if shown {
                "true"@
            } else {
                "false"@
            },
        ),
        text(s, t.facets@),
    ] + lang_spec(s, t.lang@)
}

/// The density group as node `d` in the toolbar `bar`, with one button per
/// step, from the densest.
pub open spec fn density_group_spec(d: nat, bar: nat, t: ToolbarTexts) -> Seq<PatchV> {
    seq![
        create(d, bar, "div"@),
        attr(d, "part"@, "density"@),
        attr(d, "role"@, "group"@),
        attr(d, "aria-label"@, t.density_group@),
    ] + lang_spec(d, t.lang@) + density_button_spec(d + 1, d, compact().0, word_of(t.densities@, 0))
        + density_button_spec(d + 2, d, normal().0, word_of(t.densities@, 1)) + density_button_spec(
        d + 3,
        d,
        comfortable().0,
        word_of(t.densities@, 2),
    )
}

/// The hidden chip group as node `c` under `parent`, named by reference.
pub open spec fn chips_spec(c: nat, parent: nat, t: ToolbarTexts) -> Seq<PatchV> {
    seq![create(c, parent, "div"@), attr(c, "part"@, "chips"@), attr(c, "role"@, "group"@)]
        + label_by_spec(c + 1, parent, c, "og-label-chips"@, t.chips@, t.lang@) + seq![
        attr(c, "hidden"@, ""@),
    ]
}

/// The toolbar built from node `n` on under `parent`: a labelled group
/// with the filter-row switch, the facet switch where there are facets,
/// and the density buttons; then the hidden, labelled chip group.
pub open spec fn toolbar_build_spec(
    n: nat,
    parent: nat,
    t: ToolbarTexts,
    has_facets: bool,
    facets_shown: bool,
) -> Seq<PatchV> {
    let d = n + 3 + switch_nodes(has_facets);
    toolbar_head_spec(n, parent, t) + (if has_facets {
        facet_switch_spec(n + 3, n, t, facets_shown)
    } else {
        Seq::empty()
    }) + density_group_spec(d, n, t) + chips_spec(d + 4, parent, t)
}

/// One density button.
fn density_button(list: &mut PatchList, parent: u64, name: &str, words: &Vec<String>, index: usize) -> (b: u64)
    requires
        old(list).next < u64::MAX,
    ensures
        b == old(list).next,
        final(list).next == old(list).next + 1,
        final(list).view_patches() == old(list).view_patches() + density_button_spec(
            b as nat,
            parent as nat,
            name@,
            word_of(words@, index as int),
        ),
{
    let ghost before = list.view_patches();
    let b = list.element(parent, "button");
    list.attribute(b, "type", "button");
    list.attribute(b, "data-density", name);
    proof {
        reveal_strlit("normal");
    }
    if same_text(name, "normal") {
        list.attribute(b, "aria-pressed", "true");
    } else {
        list.attribute(b, "aria-pressed", "false");
    }
    if index < words.len() {
        list.set_text(b, words[index].as_str());
    } else {
        list.set_text(b, "");
    }
    proof {
        reveal_strlit("");
        assert(""@ =~= Seq::<char>::empty());
        assert(list.view_patches() =~= before + density_button_spec(
            b as nat,
            parent as nat,
            name@,
            word_of(words@, index as int),
        ));
    }
    b
}

fn toolbar_head(list: &mut PatchList, parent: u64, texts: &ToolbarTexts) -> (bar: u64)
    requires
        old(list).next + 3 <= u64::MAX,
    ensures
        bar == old(list).next,
        final(list).next == old(list).next + 3,
        final(list).view_patches() == old(list).view_patches() + toolbar_head_spec(
            bar as nat,
            parent as nat,
            *texts,
        ),
{
    let ghost before = list.view_patches();
    let bar = list.element(parent, "div");
    list.attribute(bar, "part", "toolbar");
    list.attribute(bar, "role", "group");
    label_by(list, parent, bar, "og-label-toolbar", texts.group.as_str(), texts.lang.as_str());
    let toggle = list.element(bar, "button");
    list.attribute(toggle, "type", "button");
    list.attribute(toggle, "part", "filter-row-toggle");
    list.attribute(toggle, "data-toolbar", "filter-row");
    list.attribute(toggle, "aria-pressed", "true");
    list.set_text(toggle, texts.filter_row.as_str());
    set_lang(list, toggle, texts.lang.as_str());
    proof {
        assert(list.view_patches() =~= before + toolbar_head_spec(bar as nat, parent as nat, *texts));
    }
    bar
}

fn facet_switch(list: &mut PatchList, bar: u64, texts: &ToolbarTexts, shown: bool) -> (s: u64)
    requires
        old(list).next < u64::MAX,
    ensures
        s == old(list).next,
        final(list).next == old(list).next + 1,
        final(list).view_patches() == old(list).view_patches() + facet_switch_spec(
            s as nat,
            bar as nat,
            *texts,
            shown,
        ),
{
    let ghost before = list.view_patches();
    let s = list.element(bar, "button");
    list.attribute(s, "type", "button");
    list.attribute(s, "part", "facets-toggle");
    list.attribute(s, "data-toolbar", "facets");
    if shown {
        list.attribute(s, "aria-pressed", "true");
    } else {
        list.attribute(s, "aria-pressed", "false");
    }
    list.set_text(s, texts.facets.as_str());
    set_lang(list, s, texts.lang.as_str());
    proof {
        assert(list.view_patches() =~= before + facet_switch_spec(s as nat, bar as nat, *texts, shown));
    }
    s
}

fn density_group(list: &mut PatchList, bar: u64, texts: &ToolbarTexts) -> (d: u64)
    requires
        old(list).next + 4 <= u64::MAX,
    ensures
        d == old(list).next,
        final(list).next == old(list).next + 4,
        final(list).view_patches() == old(list).view_patches() + density_group_spec(
            d as nat,
            bar as nat,
            *texts,
        ),
{
    let ghost before = list.view_patches();
    let d = list.element(bar, "div");
    list.attribute(d, "part", "density");
    list.attribute(d, "role", "group");
    list.attribute(d, "aria-label", texts.density_group.as_str());
    set_lang(list, d, texts.lang.as_str());
    let steps = densities();
    density_button(list, d, steps[0].name, &texts.densities, 0);
    density_button(list, d, steps[1].name, &texts.densities, 1);
    density_button(list, d, steps[2].name, &texts.densities, 2);
    proof {
        assert(list.view_patches() =~= before + density_group_spec(d as nat, bar as nat, *texts));
    }
    d
}

fn chip_group(list: &mut PatchList, parent: u64, texts: &ToolbarTexts) -> (c: u64)
    requires
        old(list).next + 2 <= u64::MAX,
    ensures
        c == old(list).next,
        final(list).next == old(list).next + 2,
        final(list).view_patches() == old(list).view_patches() + chips_spec(
            c as nat,
            parent as nat,
            *texts,
        ),
{
    let ghost before = list.view_patches();
    let c = list.element(parent, "div");
    list.attribute(c, "part", "chips");
    list.attribute(c, "role", "group");
    label_by(list, parent, c, "og-label-chips", texts.chips.as_str(), texts.lang.as_str());
    list.attribute(c, "hidden", "");
    proof {
        reveal_strlit("");
        assert(list.view_patches() =~= before + chips_spec(c as nat, parent as nat, *texts));
    }
    c
}

/// Builds the toolbar and the empty chip group under `parent`, and answers
/// the toolbar, into which the column list then goes.
pub fn build_toolbar(
    list: &mut PatchList,
    parent: u64,
    texts: &ToolbarTexts,
    has_facets: bool,
    facets_shown: bool,
) -> (bar: u64)
    requires
        old(list).next + 10 <= u64::MAX,
    ensures
        bar == old(list).next,
        final(list).next == old(list).next + 9 + switch_nodes(has_facets),
        final(list).view_patches() == old(list).view_patches() + toolbar_build_spec(
            bar as nat,
            parent as nat,
            *texts,
            has_facets,
            facets_shown,
        ),
{
    let ghost before = list.view_patches();
    let bar = toolbar_head(list, parent, texts);
    let ghost head = list.view_patches();
    if has_facets {
        facet_switch(list, bar, texts, facets_shown);
    }
    let ghost switched = list.view_patches();
    proof {
        assert(switched =~= head + (if has_facets {
            facet_switch_spec((bar + 3) as nat, bar as nat, *texts, facets_shown)
        } else {
            Seq::empty()
        }));
    }
    density_group(list, bar, texts);
    chip_group(list, parent, texts);
    proof {
        assert(list.view_patches() =~= before + toolbar_build_spec(
            bar as nat,
            parent as nat,
            *texts,
            has_facets,
            facets_shown,
        ));
    }
    bar
}

} // verus!
