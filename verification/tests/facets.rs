use opengrid_web_components::facets::{facet_bounds, facet_item, to_json};
use opengrid_web_components::json::Json;
use opengrid_web_components::facets::{
    clear_selection, effective, filter_of, toggle_value, FacetKind, Problem, Selection,
};
use opengrid_web_components::filters::{CmpOp, DataType, Field, FilterExpr, Schema};
use opengrid_web_components::grouping::Key;

fn schema() -> Schema {
    Schema::new(vec![
        Field::new("customer".to_owned(), DataType::Utf8),
        Field::new("country".to_owned(), DataType::Utf8),
        Field::new("amount".to_owned(), DataType::Int64),
    ])
}

fn values(list: &[Key]) -> Selection {
    Selection::Values(list.to_vec())
}

fn text(s: &str) -> Key {
    Key::Text(s.to_owned())
}

#[test]
fn a_facet_counts_without_its_own_restriction() {
    let facets = vec![
        ("customer".to_owned(), values(&[text("Alpha")])),
        ("country".to_owned(), values(&[text("DE")])),
    ];
    let for_customer = effective(None, &facets, Some("customer"), &schema()).unwrap();
    assert_eq!(
        for_customer,
        Some(FilterExpr::Cmp {
            field: "country".to_owned(),
            op: CmpOp::Eq,
            value: text("DE"),
        }),
        "the customer counts must see the country facet and not their own"
    );
    let for_rows = effective(None, &facets, None, &schema()).unwrap();
    assert!(matches!(for_rows, Some(FilterExpr::And(parts)) if parts.len() == 2));
}

#[test]
fn null_among_the_values_is_is_null_and_empty_is_eq() {
    let selection = values(&[Key::Null, text("")]);
    let Ok(Some(FilterExpr::Or(parts))) = filter_of("country", DataType::Utf8, &selection) else {
        panic!("two values are an or");
    };
    assert_eq!(parts[0], FilterExpr::IsNull { field: "country".to_owned() });
    assert!(matches!(&parts[1], FilterExpr::Cmp { op: CmpOp::Eq, value, .. } if *value == text("")));
}

#[test]
fn a_range_takes_either_bound_alone() {
    let min_only = Selection::Range { min: "10".to_owned(), max: String::new() };
    assert!(matches!(
        filter_of("amount", DataType::Int64, &min_only),
        Ok(Some(FilterExpr::Cmp { op: CmpOp::Gte, .. }))
    ));
    let both = Selection::Range { min: "10".to_owned(), max: "20".to_owned() };
    assert!(matches!(
        filter_of("amount", DataType::Int64, &both),
        Ok(Some(FilterExpr::And(_)))
    ));
}

#[test]
fn a_bound_that_is_not_a_value_is_named() {
    let wrong = Selection::Range { min: "abc".to_owned(), max: String::new() };
    assert_eq!(
        filter_of("amount", DataType::Int64, &wrong),
        Err(Problem { column: "amount".to_owned(), value: "abc".to_owned() })
    );
}

#[test]
fn nothing_chosen_restricts_nothing() {
    let facets = vec![("customer".to_owned(), values(&[]))];
    assert_eq!(effective(None, &facets, None, &schema()), Ok(None));
}

#[test]
fn the_filter_row_is_kept_under_the_facets() {
    let base = FilterExpr::IsNotNull { field: "amount".to_owned() };
    let facets = vec![("customer".to_owned(), values(&[text("Alpha")]))];
    let Ok(Some(FilterExpr::And(parts))) = effective(Some(&base), &facets, None, &schema()) else {
        panic!("the facets are and-ed onto the filter row");
    };
    assert_eq!(parts[0], base);
}

#[test]
fn a_period_is_two_date_bounds() {
    let period = Selection::Period { from: " 2026-01-01 ".to_owned(), to: "2026-12-31".to_owned() };
    assert_eq!(
        filter_of("ordered_on", DataType::Date, &period),
        Ok(Some(FilterExpr::And(vec![
            FilterExpr::Cmp { field: "ordered_on".to_owned(), op: CmpOp::Gte, value: text("2026-01-01") },
            FilterExpr::Cmp { field: "ordered_on".to_owned(), op: CmpOp::Lte, value: text("2026-12-31") },
        ])))
    );
    let wrong = Selection::Period { from: String::new(), to: " 31.12.2026 ".to_owned() };
    assert_eq!(
        filter_of("ordered_on", DataType::Date, &wrong),
        Err(Problem { column: "ordered_on".to_owned(), value: "31.12.2026".to_owned() })
    );
}

#[test]
fn a_facet_on_a_column_the_schema_lacks_is_skipped() {
    let facets = vec![
        ("region".to_owned(), values(&[text("North")])),
        ("amount".to_owned(), Selection::Range { min: "x".to_owned(), max: "y".to_owned() }),
    ];
    assert_eq!(
        effective(None, &facets, None, &schema()),
        Err(vec![Problem { column: "amount".to_owned(), value: "x".to_owned() }])
    );
    // Excepting the column that has the problem leaves nothing to say.
    assert_eq!(effective(None, &facets, Some("amount"), &schema()), Ok(None));
}

#[test]
fn an_empty_selection_restricts_nothing_of_its_kind() {
    assert!(!Selection::empty(FacetKind::List).is_active());
    assert!(!Selection::empty(FacetKind::Range).is_active());
    assert!(!Selection::empty(FacetKind::Period).is_active());
    assert!(values(&[Key::Null]).is_active());
    assert!(!Selection::Range { min: " ".to_owned(), max: String::new() }.is_active());
    let cleared = clear_selection(&Selection::Period { from: "2026-01-01".to_owned(), to: String::new() });
    assert_eq!(cleared, Selection::Period { from: String::new(), to: String::new() });
    assert_eq!(clear_selection(&values(&[text("DE")])), values(&[]));
}

#[test]
fn a_value_is_ticked_and_unticked_in_its_own_facet() {
    let mut facets = vec![
        ("country".to_owned(), values(&[text("DE")])),
        ("amount".to_owned(), Selection::Range { min: "1".to_owned(), max: String::new() }),
    ];
    toggle_value(&mut facets, "country", &Key::Null);
    assert_eq!(facets[0].1, values(&[text("DE"), Key::Null]));
    toggle_value(&mut facets, "country", &text("DE"));
    assert_eq!(facets[0].1, values(&[Key::Null]));
    // A range is not a list, and another column is not this facet.
    toggle_value(&mut facets, "amount", &text("DE"));
    assert_eq!(facets[1].1, Selection::Range { min: "1".to_owned(), max: String::new() });
    toggle_value(&mut facets, "customer", &text("DE"));
    assert_eq!(facets[0].1, values(&[Key::Null]));
    // Ticking and unticking again leaves the choice as it was.
    toggle_value(&mut facets, "country", &text("FR"));
    toggle_value(&mut facets, "country", &text("FR"));
    assert_eq!(facets[0].1, values(&[Key::Null]));
}

#[test]
fn a_selection_round_trips_through_the_view() {
    for selection in [
        Selection::Values(vec![Key::Null, Key::Text("Alpha".to_owned()), Key::Int(-7), Key::Bool(true)]),
        Selection::Range { min: "1".to_owned(), max: "".to_owned() },
        Selection::Period { from: "2026-01-01".to_owned(), to: "2026-12-31".to_owned() },
    ] {
        assert_eq!(Selection::from_json(&selection.to_json()), Some(selection.clone()));
    }
}

#[test]
fn a_selection_is_read_leniently() {
    let object = |members: Vec<(&str, Json)>| {
        Json::Object(members.into_iter().map(|(k, v)| (k.to_owned(), v)).collect())
    };
    assert_eq!(Selection::from_json(&Json::Null), None);
    assert_eq!(Selection::from_json(&object(vec![])), None);
    assert_eq!(Selection::from_json(&object(vec![("values", Json::Null)])), None);
    assert_eq!(
        Selection::from_json(&object(vec![("max", Json::Number("3".to_owned()))])),
        Some(Selection::Range { min: String::new(), max: String::new() })
    );
    assert_eq!(
        Selection::from_json(&object(vec![("to", Json::Text("2026".to_owned()))])),
        Some(Selection::Period { from: String::new(), to: "2026".to_owned() })
    );
    assert_eq!(
        Selection::from_json(&object(vec![(
            "values",
            Json::Array(vec![
                Json::Number("2.5".to_owned()),
                Json::Number("12".to_owned()),
                Json::Array(vec![Json::Null]),
            ])
        )])),
        Some(Selection::Values(vec![
            Key::Number("2.5".to_owned()),
            Key::Int(12),
            Key::Text("[null]".to_owned()),
        ]))
    );
}

#[test]
fn the_view_writes_only_the_facets_that_restrict() {
    let facets = vec![
        ("country".to_owned(), Selection::Values(vec![Key::Text("DE".to_owned())])),
        ("amount".to_owned(), Selection::Range { min: " ".to_owned(), max: String::new() }),
        ("on".to_owned(), Selection::Period { from: "2026-01-01".to_owned(), to: String::new() }),
    ];
    assert_eq!(
        json_text_of_facets(&facets),
        r#"{"country":{"values":["DE"]},"on":{"from":"2026-01-01","to":""}}"#
    );
}

fn json_text_of_facets(facets: &[(String, Selection)]) -> String {
    // The text the view stores: the tree as serde_json writes it.
    fn value(j: &Json) -> serde_json::Value {
        match j {
            Json::Null => serde_json::Value::Null,
            Json::Bool(b) => serde_json::Value::Bool(*b),
            Json::Number(t) => serde_json::from_str(t).unwrap(),
            Json::Text(t) => serde_json::Value::String(t.clone()),
            Json::Array(items) => serde_json::Value::Array(items.iter().map(value).collect()),
            Json::Object(ms) => {
                serde_json::Value::Object(ms.iter().map(|(k, v)| (k.clone(), value(v))).collect())
            }
        }
    }
    value(&to_json(facets)).to_string()
}

/// An item of a list facet is chosen when the selection lists its key, and
/// shows the count filed under its key's JSON text.
#[test]
fn a_facet_item_shows_its_choice_and_its_count() {
    let counts = vec![("\"Alpha\"".to_string(), 3u64), ("2".to_string(), 7u64), ("null".to_string(), 1u64)];
    let selection = Selection::Values(vec![Key::Text("Alpha".to_string()), Key::Null]);
    assert_eq!(facet_item(&selection, &Key::Text("Alpha".to_string()), &counts), (true, 3));
    assert_eq!(facet_item(&selection, &Key::Int(2), &counts), (false, 7));
    assert_eq!(facet_item(&selection, &Key::Null, &counts), (true, 1));
    // A key without a count shows 0; a range selection chooses no item.
    assert_eq!(facet_item(&selection, &Key::Text("Beta".to_string()), &counts), (false, 0));
    let range = Selection::Range { min: "1".to_string(), max: String::new() };
    assert_eq!(facet_item(&range, &Key::Int(2), &counts), (false, 7));
}

/// A range or period facet shows its bounds; a list facet has none.
#[test]
fn a_bounded_facet_shows_its_bounds() {
    let range = Selection::Range { min: "1".to_string(), max: "9".to_string() };
    assert_eq!(facet_bounds(&range), Some(("1".to_string(), "9".to_string())));
    let period = Selection::Period { from: "2026-01-01".to_string(), to: String::new() };
    assert_eq!(facet_bounds(&period), Some(("2026-01-01".to_string(), String::new())));
    assert_eq!(facet_bounds(&Selection::Values(Vec::new())), None);
}
