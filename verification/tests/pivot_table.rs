use opengrid_web_components::patch::{Patch, PatchList};
use opengrid_web_components::pivot::{model_from_parts, parse_result, ColumnHeader, PivotModel};
use opengrid_web_components::pivot_table::{build_pivot, PivotTexts};

const ANSWER: &str = r#"{
    "row_dimensions": ["country"],
    "columns": [
        {"path": [2025], "measure": "total"},
        {"path": [2026], "measure": "total"}
    ],
    "levels": [1, 1, 1, 0],
    "result": {
        "total_count": 4,
        "row_count": 4,
        "columns": [
            {"name": "country", "type": "utf8", "nullable": true,
             "values": ["DE", "FR", null, null]},
            {"name": "total_0", "type": "int64", "nullable": true,
             "values": [1, null, null, 1]},
            {"name": "total_1", "type": "int64", "nullable": true,
             "values": [258, 172, 269, 699]}
        ]
    }
}"#;

fn texts() -> PivotTexts {
    PivotTexts {
        lang: String::new(),
        total: "Total".to_owned(),
        no_value: "(no value)".to_owned(),
        empty: "(empty)".to_owned(),
        subtotal_before: "Total ".to_owned(),
        subtotal_after: String::new(),
    }
}

fn model() -> PivotModel {
    parse_result(ANSWER).expect("the pivot wire form parses")
}

fn patches(model: Option<&PivotModel>) -> Vec<Patch> {
    let mut list = PatchList::new();
    build_pivot(&mut list, Some("Orders"), model, "3 matches", "ready", &texts());
    list.patches
}

fn markup(model: Option<&PivotModel>) -> String {
    format!("{:?}", patches(model))
}

/// The two-level column header: values with `colspan`, measures below.
#[test]
fn a_column_dimension_gives_a_two_level_header() {
    let markup = markup(Some(&model()));
    assert!(markup.contains("colgroup"), "{markup}");
    assert!(markup.contains("rowspan"), "the dimension name spans both rows");
    assert!(markup.contains("\"2025\""), "{markup}");
}

/// A subtotal says that it is one.
#[test]
fn a_total_row_is_readable_as_a_total() {
    let markup = markup(Some(&model()));
    assert!(markup.contains("data-total"), "{markup}");
    assert!(markup.contains("Total"), "the grand total carries its name: {markup}");
}

/// Every data row starts with a row header.
#[test]
fn every_row_has_a_header() {
    let markup = markup(Some(&model()));
    assert_eq!(markup.matches("name: \"scope\", value: \"row\"").count(), 4, "{markup}");
}

/// No header cell is ever empty: NULL and the empty string both have a word.
#[test]
fn a_null_group_and_an_empty_string_group_are_both_named() {
    let texts = texts();
    assert_eq!(texts.dimension(&None), "(no value)");
    assert_eq!(texts.dimension(&Some(String::new())), "(empty)");
    assert_eq!(texts.dimension(&Some("DE".to_owned())), "DE");
    let markup = markup(Some(&model()));
    assert!(markup.contains("(no value)"), "the NULL group needs a name, and the total is not it");
}

/// Without a model there is a status line and an empty table.
#[test]
fn the_skeleton_is_a_status_line_and_an_empty_table() {
    let markup = markup(None);
    assert!(markup.contains("status"));
    assert!(markup.contains("table"));
    assert!(!markup.contains("tbody"));
}

#[test]
fn the_skeleton_is_exactly_this() {
    let got = patches(None);
    let set = |node: u64, name: &str, value: &str| Patch::SetAttribute {
        node,
        name: name.to_owned(),
        value: value.to_owned(),
    };
    let create = |node: u64, parent: u64, tag: &str| Patch::Create { node, parent, tag: tag.to_owned() };
    assert_eq!(
        got,
        vec![
            create(1, 0, "div"),
            set(1, "part", "layout"),
            create(2, 1, "p"),
            set(2, "part", "status"),
            set(2, "role", "status"),
            set(2, "aria-live", "polite"),
            set(2, "data-state", "ready"),
            Patch::SetText { node: 2, text: "3 matches".to_owned() },
            create(3, 1, "table"),
            set(3, "aria-label", "Orders"),
            create(4, 3, "caption"),
            Patch::SetText { node: 4, text: "Orders".to_owned() },
        ]
    );
}

#[test]
fn a_subtotal_names_its_group_and_spans_the_dimensions() {
    let columns = vec![ColumnHeader { path: vec![], measure: "n".to_owned() }];
    let cells = vec![
        vec![Some("DE".to_owned()), Some("DE".to_owned())],
        vec![Some("x".to_owned()), None],
        vec![Some("3".to_owned()), Some("5".to_owned())],
    ];
    let model = model_from_parts(
        vec!["country".to_owned(), "city".to_owned()],
        columns,
        &[2, 1],
        &cells,
    );
    let got = patches(Some(&model));
    let markup = format!("{got:?}");
    assert!(markup.contains("text: \"Total DE\""), "{markup}");
    assert!(markup.contains("name: \"colspan\", value: \"2\""), "{markup}");
    assert!(!markup.contains("rowspan"), "one header row without a column dimension");
    assert_eq!(markup.matches("value: \"row total-row\"").count(), 1);
    assert_eq!(markup.matches("name: \"data-level\"").count(), 2);
}
