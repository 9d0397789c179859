use opengrid_web_components::filters::{
    filter_expr, input_step, input_type, is_valid_name, known_schema, literal, operators_for,
    takes_value, CmpOp, DataType, Field, FilterEntry, FilterExpr, FilterOp, FilterProblem, Schema,
};
use opengrid_web_components::grouping::Key;

/// A schema with one column of each interesting type.
fn typed_schema() -> Schema {
    Schema::new(vec![
        Field::new("customer".to_owned(), DataType::Utf8),
        Field::new("qty".to_owned(), DataType::Int64),
        Field::new("amount".to_owned(), DataType::Decimal { precision: 12, scale: 2 }),
        Field::new("ordered_on".to_owned(), DataType::Date),
        Field::new("flag".to_owned(), DataType::Bool),
        Field::required("id".to_owned(), DataType::Int64),
    ])
}

fn entry(column: &str, op: &str, value: &str) -> FilterEntry {
    FilterEntry {
        column: column.to_owned(),
        op: FilterOp::parse(op).expect("a known operator"),
        value: value.to_owned(),
    }
}

fn cmp(field: &str, op: CmpOp, value: Key) -> FilterExpr {
    FilterExpr::Cmp { field: field.to_owned(), op, value }
}

/// The filter expression is the `and` of the non-empty entries, each literal
/// written the way its column expects.
#[test]
fn the_filter_query_types_every_literal() {
    let entries = [
        entry("customer", "contains", "Al"),
        entry("qty", "gt", "2"),
        entry("amount", "lte", "10.50"),
        entry("ordered_on", "eq", "2026-01-01"),
        entry("flag", "eq", "true"),
    ];
    let filter = filter_expr(&entries, &typed_schema())
        .expect("no problems")
        .expect("a filter");
    assert_eq!(
        filter,
        FilterExpr::And(vec![
            cmp("customer", CmpOp::Contains, Key::Text("Al".to_owned())),
            // A number, not the string "2".
            cmp("qty", CmpOp::Gt, Key::Int(2)),
            // A decimal stays a string so no precision is lost.
            cmp("amount", CmpOp::Lte, Key::Text("10.50".to_owned())),
            cmp("ordered_on", CmpOp::Eq, Key::Text("2026-01-01".to_owned())),
            cmp("flag", CmpOp::Eq, Key::Bool(true)),
        ])
    );
}

/// The two operators that take no value become their own filter nodes.
#[test]
fn the_null_operators_need_no_value() {
    let entries = [entry("customer", "is_null", ""), entry("qty", "is_not_null", "")];
    let filter = filter_expr(&entries, &typed_schema())
        .expect("no problems")
        .expect("a filter");
    assert_eq!(
        filter,
        FilterExpr::And(vec![
            FilterExpr::IsNull { field: "customer".to_owned() },
            FilterExpr::IsNotNull { field: "qty".to_owned() },
        ])
    );
}

/// An input the column cannot hold never becomes a query.
#[test]
fn an_impossible_value_is_a_problem_not_a_query() {
    let schema = typed_schema();
    for (column, text) in [
        ("qty", "zwei"),
        ("qty", "2.5"),
        ("amount", "10,50"),
        ("ordered_on", "01.01.2026"),
        ("flag", "vielleicht"),
    ] {
        let problems = filter_expr(&[entry(column, "eq", text)], &schema)
            .expect_err(&format!("{column} = {text:?} must be refused"));
        assert_eq!(problems.len(), 1);
        assert_eq!(problems[0].column, column);
        assert_eq!(problems[0].value, text);
    }
}

/// Blank entries are skipped; an all-blank input clears the filter.
#[test]
fn blank_filter_entries_do_not_build_a_filter() {
    let schema = typed_schema();
    assert_eq!(filter_expr(&[], &schema), Ok(None));
    assert_eq!(filter_expr(&[entry("customer", "eq", "  ")], &schema), Ok(None));
    assert!(filter_expr(&[entry("customer", "eq", "DE")], &schema).unwrap().is_some());
}

/// Which operators a column offers, and which value input it gets.
#[test]
fn a_column_offers_the_operators_that_fit_it() {
    assert!(operators_for(DataType::Utf8, true).contains(&"contains"));
    assert!(!operators_for(DataType::Int64, true).contains(&"contains"));

    let flags = operators_for(DataType::Bool, true);
    assert!(flags.contains(&"eq") && !flags.contains(&"gt"));

    assert!(operators_for(DataType::Int64, true).contains(&"is_null"));
    assert!(!operators_for(DataType::Int64, false).contains(&"is_null"));

    for data_type in [DataType::Utf8, DataType::Int64, DataType::Bool, DataType::Date] {
        for op in operators_for(data_type, true) {
            assert!(FilterOp::parse(op).is_some(), "{op}");
        }
    }

    assert_eq!(input_type(DataType::Date), "date");
    assert_eq!(input_type(DataType::Bool), "checkbox");
    assert_eq!(input_type(DataType::Int64), "number");
    assert_eq!(input_type(DataType::Utf8), "text");
    assert_eq!(
        input_step(DataType::Decimal { precision: 12, scale: 2 }).as_deref(),
        Some("0.01")
    );
    assert_eq!(input_step(DataType::Int64).as_deref(), Some("1"));
    assert_eq!(input_step(DataType::Utf8), None);
}

#[test]
fn the_operators_of_a_text_column_in_order() {
    assert_eq!(
        operators_for(DataType::Utf8, true),
        vec!["contains", "starts_with", "eq", "ne", "gt", "gte", "lt", "lte", "is_null", "is_not_null"]
    );
    assert_eq!(operators_for(DataType::Bool, false), vec!["eq", "ne"]);
    assert_eq!(input_step(DataType::Decimal { precision: 10, scale: 0 }).as_deref(), Some("1"));
    assert_eq!(input_step(DataType::Decimal { precision: 10, scale: 4 }).as_deref(), Some("0.0001"));
    assert_eq!(input_step(DataType::Float64).as_deref(), Some("any"));
    assert!(!takes_value("is_null"));
    assert!(!takes_value("is_not_null"));
    assert!(takes_value("eq"));
}

#[test]
fn every_operator_reads_back_from_its_token() {
    for op in [
        FilterOp::Cmp(CmpOp::Eq),
        FilterOp::Cmp(CmpOp::Ne),
        FilterOp::Cmp(CmpOp::Gt),
        FilterOp::Cmp(CmpOp::Gte),
        FilterOp::Cmp(CmpOp::Lt),
        FilterOp::Cmp(CmpOp::Lte),
        FilterOp::Cmp(CmpOp::Contains),
        FilterOp::Cmp(CmpOp::StartsWith),
        FilterOp::IsNull,
        FilterOp::IsNotNull,
    ] {
        assert_eq!(FilterOp::parse(op.as_str()), Some(op));
    }
    assert_eq!(FilterOp::parse("like"), None);
}

#[test]
fn a_literal_is_written_as_its_column_expects() {
    assert_eq!(literal("  Al ", DataType::Utf8), Some(Key::Text("Al".to_owned())));
    assert_eq!(literal("on", DataType::Bool), Some(Key::Bool(true)));
    assert_eq!(literal("", DataType::Bool), Some(Key::Bool(false)));
    assert_eq!(literal("0", DataType::Bool), Some(Key::Bool(false)));
    assert_eq!(literal("-17", DataType::Int64), Some(Key::Int(-17)));
    assert_eq!(literal("9223372036854775808", DataType::Int64), None);
    assert_eq!(literal("NaN", DataType::Float64), Some(Key::Text("NaN".to_owned())));
    assert_eq!(literal("-Infinity", DataType::Float64), Some(Key::Text("-Infinity".to_owned())));
    assert_eq!(literal(" 1.5e3 ", DataType::Float64), Some(Key::Number("1.5e3".to_owned())));
    assert_eq!(literal(".5", DataType::Float64), Some(Key::Number(".5".to_owned())));
    assert_eq!(literal("1e", DataType::Float64), None);
    assert_eq!(literal("inf", DataType::Float64), None);
    assert_eq!(literal("abc", DataType::Float64), None);
    let decimal = DataType::Decimal { precision: 12, scale: 2 };
    assert_eq!(literal("-10.5", decimal), Some(Key::Text("-10.5".to_owned())));
    assert_eq!(literal("10.", decimal), Some(Key::Text("10.".to_owned())));
    assert_eq!(literal(".5", decimal), None);
    assert_eq!(literal("1.2.3", decimal), None);
    assert_eq!(literal("2026-03-09", DataType::Date), Some(Key::Text("2026-03-09".to_owned())));
    assert_eq!(literal("2026-3-09", DataType::Date), None);
    assert_eq!(
        literal("2026-03-09T10:00:00Z", DataType::Timestamp),
        Some(Key::Text("2026-03-09T10:00:00Z".to_owned()))
    );
    assert_eq!(literal("2026-03-09 10:00:00Z", DataType::Timestamp), None);
    assert_eq!(literal("2026-03-09T10:00Z", DataType::Timestamp), None);
}

#[test]
fn an_unknown_or_invalid_column_is_skipped() {
    let schema = typed_schema();
    assert_eq!(filter_expr(&[entry("missing", "eq", "x")], &schema), Ok(None));
    assert_eq!(filter_expr(&[entry("bad name", "eq", "x")], &schema), Ok(None));
    // Problems are all named, in order, and win over the parts.
    let problems = filter_expr(
        &[entry("qty", "eq", "x"), entry("customer", "eq", "DE"), entry("flag", "eq", "y")],
        &schema,
    )
    .unwrap_err();
    assert_eq!(
        problems,
        vec![
            FilterProblem { column: "qty".to_owned(), value: "x".to_owned() },
            FilterProblem { column: "flag".to_owned(), value: "y".to_owned() },
        ]
    );
}

#[test]
fn a_column_name_is_an_identifier() {
    assert!(is_valid_name("_og_rows"));
    assert!(is_valid_name("a1"));
    assert!(!is_valid_name("1a"));
    assert!(!is_valid_name(""));
    assert!(!is_valid_name("a-b"));
    assert!(is_valid_name(&"a".repeat(63)));
    assert!(!is_valid_name(&"a".repeat(64)));
}

#[test]
fn a_known_column_keeps_its_type() {
    let known = Schema::new(vec![Field::required("qty".to_owned(), DataType::Int64)]);
    let schema = known_schema(
        &["customer".to_owned(), "qty".to_owned(), "bad name".to_owned()],
        &known,
    );
    assert_eq!(
        schema,
        Schema::new(vec![
            Field::new("customer".to_owned(), DataType::Utf8),
            Field::required("qty".to_owned(), DataType::Int64),
        ])
    );
    assert_eq!(schema.field("qty").map(|f| f.data_type), Some(DataType::Int64));
    assert!(schema.field("amount").is_none());
}
