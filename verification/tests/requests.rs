use opengrid_web_components::filters::{CmpOp, FilterExpr};
use opengrid_web_components::grouping::{Key, COUNT_ALIAS};
use opengrid_web_components::requests::{group_query_json, query_json, total_query_json, view_query_json};
use opengrid_web_components::summary::{AggregateFn, Summary};
use serde_json::Value;

/// An unsorted query carries its window and nothing else.
#[test]
fn an_unsorted_query_has_limit_and_offset() {
    let query = query_json("orders", &["a".to_owned()], &[], None, 100, 40);
    let value: Value = serde_json::from_str(&query).expect("valid JSON");
    assert_eq!(value["source"], "orders");
    assert_eq!(value["select"].to_string(), r#"["a"]"#);
    assert_eq!(value["limit"], 40);
    assert_eq!(value["offset"], 100);
    assert!(value.get("sort").is_none());
    assert!(value.get("filter").is_none());
}

/// A sorted query carries one sort object per key, in order.
#[test]
fn a_sorted_query_names_one_direction() {
    let query = query_json("orders", &["customer".to_owned()], &[("customer".to_owned(), "desc")], None, 0, 40);
    let value: Value = serde_json::from_str(&query).expect("valid JSON");
    assert_eq!(value["sort"].to_string(), r#"[{"direction":"desc","field":"customer"}]"#);
}

/// A view's query: the group keys first, NULL last, then the sort without
/// the keys already there — and no window.
#[test]
fn a_view_query_leads_with_the_group_keys_null_last() {
    let query = view_query_json(
        "orders",
        &["country".to_owned(), "amount".to_owned()],
        &["country".to_owned(), "customer".to_owned()],
        &[("amount".to_owned(), "desc"), ("country".to_owned(), "desc")],
        None,
    );
    let value: Value = serde_json::from_str(&query).expect("valid JSON");
    assert_eq!(
        value["sort"].to_string(),
        r#"[{"direction":"asc","field":"country","nulls":"last"},{"direction":"asc","field":"customer","nulls":"last"},{"direction":"desc","field":"amount"}]"#
    );
    assert!(value.get("limit").is_none());
    assert!(value.get("offset").is_none());
    // Ungrouped, the sort is the sort as it is.
    let plain = view_query_json("orders", &["amount".to_owned()], &[], &[("amount".to_owned(), "desc")], None);
    let value: Value = serde_json::from_str(&plain).expect("valid JSON");
    assert_eq!(value["sort"].to_string(), r#"[{"direction":"desc","field":"amount"}]"#);
}

/// A sorted query carries one sort key per sort, in the reader's order.
#[test]
fn a_multi_sort_query_keeps_the_key_order() {
    let query = query_json(
        "orders",
        &["customer".to_owned()],
        &[("customer".to_owned(), "asc"), ("amount".to_owned(), "desc")],
        None,
        0,
        40,
    );
    let value: Value = serde_json::from_str(&query).expect("valid JSON");
    assert_eq!(
        value["sort"].to_string(),
        r#"[{"direction":"asc","field":"customer"},{"direction":"desc","field":"amount"}]"#
    );
}

#[test]
fn a_query_is_compact_json_with_the_filter_in_the_model_form() {
    let filter = FilterExpr::And(vec![
        FilterExpr::Cmp { field: "qty".to_owned(), op: CmpOp::Gte, value: Key::Int(-3) },
        FilterExpr::Or(vec![
            FilterExpr::IsNull { field: "customer".to_owned() },
            FilterExpr::Cmp { field: "customer".to_owned(), op: CmpOp::StartsWith, value: Key::Text("A\"l".to_owned()) },
        ]),
        FilterExpr::IsNotNull { field: "amount".to_owned() },
        FilterExpr::Cmp { field: "amount".to_owned(), op: CmpOp::Lt, value: Key::Number("1.50".to_owned()) },
    ]);
    let query = query_json("orders", &["a".to_owned(), "b".to_owned()], &[], Some(&filter), 0, 10);
    assert_eq!(
        query,
        r#"{"filter":{"and":[{"field":"qty","op":"gte","value":-3},{"or":[{"field":"customer","op":"is_null"},{"field":"customer","op":"starts_with","value":"A\"l"}]},{"field":"amount","op":"is_not_null"},{"field":"amount","op":"lt","value":1.5}]},"limit":10,"offset":0,"select":["a","b"],"source":"orders"}"#
    );
    // Digits too large for a float have no JSON number and are written null.
    let big = FilterExpr::Cmp { field: "x".to_owned(), op: CmpOp::Eq, value: Key::Number("1e400".to_owned()) };
    assert_eq!(filter_json_text(&big), r#"{"field":"x","op":"eq","value":null}"#);
}

fn filter_json_text(e: &FilterExpr) -> String {
    view_query_json("s", &[], &[], &[], Some(e))
        .split("\"filter\":")
        .nth(1)
        .and_then(|rest| rest.strip_suffix(r#","select":[],"source":"s"}"#))
        .expect("a filter member")
        .to_owned()
}

/// The group query puts NULL last and asks no window.
#[test]
fn the_group_query_puts_null_last_and_has_no_limit() {
    let query: Value = serde_json::from_str(&group_query_json("orders", "country", None, &[])).unwrap();
    assert_eq!(query["sort"][0]["nulls"], "last");
    assert!(query.get("limit").is_none());
    assert_eq!(query["aggregate"][0]["as"], COUNT_ALIAS);
}

#[test]
fn group_and_total_queries_ask_the_chosen_aggregates() {
    let chosen = vec![
        ("amount".to_owned(), Summary::Fn(AggregateFn::Sum)),
        ("ordered_on".to_owned(), Summary::Range),
    ];
    let filter = FilterExpr::IsNotNull { field: "amount".to_owned() };
    assert_eq!(
        group_query_json("orders", "country", Some(&filter), &chosen),
        r#"{"aggregate":[{"as":"__og_rows","fn":"count"},{"as":"__og_a0","field":"amount","fn":"sum"},{"as":"__og_a1","field":"ordered_on","fn":"min"},{"as":"__og_a2","field":"ordered_on","fn":"max"}],"filter":{"field":"amount","op":"is_not_null"},"group":["country"],"select":["country","__og_rows","__og_a0","__og_a1","__og_a2"],"sort":[{"direction":"asc","field":"country","nulls":"last"}],"source":"orders"}"#
    );
    assert_eq!(
        total_query_json("orders", None, &chosen[..1]),
        r#"{"aggregate":[{"as":"__og_rows","fn":"count"},{"as":"__og_a0","field":"amount","fn":"sum"}],"select":["__og_rows","__og_a0"],"source":"orders"}"#
    );
}
