use opengrid_web_components::controls::{
    build_columns, build_pager, build_search, build_status, build_toolbar, PagerTexts, SearchTexts,
    ToolbarTexts,
};
use opengrid_web_components::filter_row::{build_filter, FilterTexts};
use opengrid_web_components::patch::{Patch, PatchList};

fn ops() -> Vec<String> {
    ["eq", "contains", "is_null"].iter().map(|op| op.to_string()).collect()
}

fn texts(lang: &str) -> FilterTexts {
    FilterTexts {
        lang: lang.to_string(),
        group: "Filter".to_string(),
        clear: "Clear".to_string(),
        operators: ["equals", "contains", "is empty"].iter().map(|w| w.to_string()).collect(),
        columns: vec![
            ("customer operator".to_string(), "customer value".to_string()),
            ("qty operator".to_string(), "qty value".to_string()),
        ],
    }
}

fn values(list: &PatchList, wanted: &str) -> Vec<(u64, String)> {
    list.patches
        .iter()
        .filter_map(|patch| match patch {
            Patch::SetAttribute { node, name, value } if name == wanted => Some((*node, value.clone())),
            _ => None,
        })
        .collect()
}

/// The filter row takes one group, its hidden name, per column a group
/// with a select of every operator and an input, and the clear button —
/// its nodes numbered in the order they are built.
#[test]
fn the_filter_row_has_one_select_and_one_input_per_column() {
    let mut list = PatchList::new();
    let nodes = build_filter(&mut list, 0, &ops(), &texts(""));
    assert_eq!(nodes.container, 1);
    // Two columns of 3 operators take 6 nodes each, after the container and
    // its name.
    assert_eq!(nodes.columns.len(), 2);
    assert_eq!(nodes.columns[0].select, 4);
    assert_eq!(nodes.columns[0].options, [5, 6, 7]);
    assert_eq!(nodes.columns[0].input, 8);
    assert_eq!(nodes.columns[1].select, 10);
    assert_eq!(nodes.clear, 15);
    assert_eq!(list.next, 16);
    let parts: Vec<String> = values(&list, "part").into_iter().map(|(_, v)| v).collect();
    assert_eq!(
        parts,
        ["filter", "filter-operator", "filter-value", "filter-operator", "filter-value", "filter-clear"]
    );
    assert_eq!(values(&list, "role"), [(1, "group".to_string())]);
    assert_eq!(values(&list, "aria-labelledby"), [(1, "og-label-filter".to_string())]);
    assert_eq!(values(&list, "id"), [(2, "og-label-filter".to_string())]);
    // Only the first option of each select is selected.
    assert_eq!(values(&list, "selected"), [(5, String::new()), (11, String::new())]);
    let options: Vec<String> = values(&list, "value").into_iter().map(|(_, v)| v).collect();
    assert_eq!(options, ["eq", "contains", "is_null", "eq", "contains", "is_null"]);
    assert_eq!(
        values(&list, "aria-label"),
        [
            (4, "customer operator".to_string()),
            (8, "customer value".to_string()),
            (10, "qty operator".to_string()),
            (14, "qty value".to_string()),
        ]
    );
    assert_eq!(values(&list, "data-col"), [(4, "0".to_string()), (8, "0".to_string()), (10, "1".to_string()), (14, "1".to_string())]);
    assert!(values(&list, "lang").is_empty());
    assert!(list.patches.contains(&Patch::SetText { node: 15, text: "Clear".to_string() }));
    assert!(list.patches.contains(&Patch::SetText { node: 6, text: "contains".to_string() }));
}

/// Our words carry the page's language; the row itself, which holds column
/// names, does not.
#[test]
fn only_the_filter_rows_words_carry_the_language() {
    let mut list = PatchList::new();
    let nodes = build_filter(&mut list, 0, &ops(), &texts("de"));
    let langs: Vec<u64> = values(&list, "lang").into_iter().map(|(node, _)| node).collect();
    assert_eq!(langs, [2, nodes.columns[0].select, nodes.columns[1].select, nodes.clear]);
    // A blank language is no language.
    let mut list = PatchList::new();
    build_filter(&mut list, 0, &ops(), &texts("  "));
    assert!(values(&list, "lang").is_empty());
}

/// The status line is the grid's one live region, loading until a result
/// arrives.
#[test]
fn the_status_line_is_one_polite_live_region() {
    let mut list = PatchList::new();
    let status = build_status(&mut list, 0, "de", "Lädt …");
    assert_eq!(status, 1);
    assert_eq!(values(&list, "role"), [(1, "status".to_string())]);
    assert_eq!(values(&list, "aria-live"), [(1, "polite".to_string())]);
    assert_eq!(values(&list, "data-state"), [(1, "loading".to_string())]);
    assert_eq!(values(&list, "lang"), [(1, "de".to_string())]);
    assert!(list.patches.contains(&Patch::SetText { node: 1, text: "Lädt …".to_string() }));
}

/// The pager is a hidden group of four buttons around the page label.
#[test]
fn the_pager_is_built_hidden() {
    let mut list = PatchList::new();
    let texts = PagerTexts {
        lang: String::new(),
        first: "First".to_string(),
        previous: "Previous".to_string(),
        next: "Next".to_string(),
        last: "Last".to_string(),
    };
    let pager = build_pager(&mut list, 0, &texts);
    assert_eq!((pager.container, pager.first, pager.previous, pager.label, pager.next, pager.last), (1, 2, 3, 4, 5, 6));
    assert_eq!(values(&list, "hidden"), [(1, String::new())]);
    let parts: Vec<String> = values(&list, "part").into_iter().map(|(_, v)| v).collect();
    assert_eq!(parts, ["pager", "page-first", "page-previous", "page-label", "page-next", "page-last"]);
    assert!(list.patches.contains(&Patch::SetText { node: 6, text: "Last".to_string() }));
}

/// The column list is a closed disclosure with one checkbox per declared
/// column, checked while the column is shown.
#[test]
fn the_column_list_is_a_closed_disclosure() {
    let mut list = PatchList::new();
    let declared = vec![("customer".to_string(), true), ("qty".to_string(), false)];
    let nodes = build_columns(&mut list, 0, &declared, "", "Columns");
    assert_eq!((nodes.toggle, nodes.container), (1, 2));
    assert_eq!(nodes.boxes, [(5, "customer".to_string()), (8, "qty".to_string())]);
    assert_eq!(list.next, 10);
    assert_eq!(values(&list, "aria-expanded"), [(1, "false".to_string())]);
    assert_eq!(values(&list, "aria-labelledby"), [(2, "og-label-columns".to_string())]);
    assert_eq!(values(&list, "checked"), [(5, String::new())]);
    assert_eq!(values(&list, "data-column"), [(5, "customer".to_string()), (8, "qty".to_string())]);
    assert!(list.patches.contains(&Patch::SetText { node: 1, text: "Columns".to_string() }));
    assert!(list.patches.contains(&Patch::SetText { node: 9, text: "qty".to_string() }));
    assert!(values(&list, "lang").is_empty());
}

/// The search field is a combobox named by reference, controlling its
/// hidden list of suggestions.
#[test]
fn the_search_field_is_a_combobox_over_its_suggestions() {
    let mut list = PatchList::new();
    let texts = SearchTexts {
        lang: "de".to_string(),
        label: "Suchen".to_string(),
        placeholder: "customer = Alpha".to_string(),
        hint: "Enter".to_string(),
        suggestions: "Vorschläge".to_string(),
    };
    let row = build_search(&mut list, 0, &texts);
    assert_eq!(row, 1);
    assert_eq!(list.next, 7);
    assert_eq!(values(&list, "role"), [(2, "combobox".to_string()), (5, "listbox".to_string())]);
    assert_eq!(values(&list, "aria-controls"), [(2, "og-search-list".to_string())]);
    assert_eq!(
        values(&list, "aria-labelledby"),
        [(2, "og-label-search".to_string()), (5, "og-label-suggestions".to_string())]
    );
    assert_eq!(values(&list, "placeholder"), [(2, "customer = Alpha".to_string())]);
    let langs: Vec<u64> = values(&list, "lang").into_iter().map(|(node, _)| node).collect();
    assert_eq!(langs, [3, 4, 6]);
}

/// The toolbar holds the filter-row switch, the facet switch only where
/// there are facets, and the density buttons with `normal` pressed; the
/// chip group after it starts hidden.
#[test]
fn the_toolbar_has_its_switches_and_densities() {
    let texts = ToolbarTexts {
        lang: String::new(),
        group: "Tools".to_string(),
        filter_row: "Filter".to_string(),
        facets: "Facets".to_string(),
        density_group: "Density".to_string(),
        densities: vec!["Compact".to_string(), "Normal".to_string(), "Comfortable".to_string()],
        chips: "Active filters".to_string(),
    };
    let mut list = PatchList::new();
    let bar = build_toolbar(&mut list, 0, &texts, true, false);
    assert_eq!(bar, 1);
    assert_eq!(list.next, 11);
    assert_eq!(
        values(&list, "aria-pressed"),
        [
            (3, "true".to_string()),
            (4, "false".to_string()),
            (6, "false".to_string()),
            (7, "true".to_string()),
            (8, "false".to_string()),
        ]
    );
    assert_eq!(
        values(&list, "data-density"),
        [(6, "compact".to_string()), (7, "normal".to_string()), (8, "comfortable".to_string())]
    );
    assert!(values(&list, "hidden").contains(&(9, String::new())));
    assert!(list.patches.contains(&Patch::SetText { node: 7, text: "Normal".to_string() }));

    let mut list = PatchList::new();
    build_toolbar(&mut list, 0, &texts, false, false);
    assert_eq!(list.next, 10);
    let parts: Vec<String> = values(&list, "part").into_iter().map(|(_, v)| v).collect();
    assert_eq!(parts, ["toolbar", "filter-row-toggle", "density", "chips"]);
}
