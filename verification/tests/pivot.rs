use opengrid_web_components::json::Json;
use opengrid_web_components::pivot::{
    cell, model_from_parts, parse_dimensions, parse_result, pivot_json, pivot_parts, pivot_request,
    ColumnHeader, PivotModel,
};

const ANSWER: &str = r#"{
    "row_dimensions": ["country"],
    "columns": [
        {"path": [2025], "measure": "total"},
        {"path": [2026], "measure": "total"}
    ],
    "levels": [1, 1, 1, 0],
    "result": {
        "total_count": 4,
        "row_count": 4,
        "columns": [
            {"name": "country", "type": "utf8", "nullable": true,
             "values": ["DE", "FR", null, null]},
            {"name": "total_0", "type": "int64", "nullable": true,
             "values": [1, null, null, 1]},
            {"name": "total_1", "type": "int64", "nullable": true,
             "values": [258, 172, 269, 699]}
        ]
    }
}"#;

fn model() -> PivotModel {
    parse_result(ANSWER).expect("the pivot wire form parses")
}

fn parts_model() -> PivotModel {
    let columns = vec![
        ColumnHeader { path: vec![Some("2025".to_owned())], measure: "total".to_owned() },
        ColumnHeader { path: vec![Some("2026".to_owned())], measure: "total".to_owned() },
    ];
    let cells = vec![
        vec![Some("DE".to_owned()), Some("FR".to_owned()), None, None],
        vec![Some("1".to_owned()), None, None, Some("1".to_owned())],
        vec![Some("258".to_owned()), Some("172".to_owned()), Some("269".to_owned()), Some("699".to_owned())],
    ];
    model_from_parts(vec!["country".to_owned()], columns, &[1, 1, 1, 0], &cells)
}

#[test]
fn dimensions_come_from_a_comma_separated_attribute() {
    assert_eq!(
        parse_dimensions(Some(" country , customer ,")),
        vec!["country".to_owned(), "customer".to_owned()]
    );
    assert!(parse_dimensions(None).is_empty());
}

/// The wire form becomes rows, columns and levels.
#[test]
fn the_pivot_wire_form_becomes_a_model() {
    let model = model();
    assert_eq!(model.row_dimensions, vec!["country".to_owned()]);
    assert_eq!(model.measures(), 1, "one measure under each column value");
    assert_eq!(model.groups().len(), 2);
    assert_eq!(model.levels, vec![1, 1, 1, 0]);
    // Row 2 is the NULL group and row 3 the grand total. Both carry a NULL
    // in the dimension column; only the level tells them apart.
    assert_eq!(model.levels[2], 1);
    assert_eq!(model.levels[3], 0);
    assert_eq!(model.rows[2][0], None);
    assert_eq!(model.rows[3][0], None);
}

#[test]
fn the_cells_are_turned_into_rows() {
    let model = parts_model();
    assert_eq!(model, self::model());
    assert_eq!(
        model.rows[0],
        vec![Some("DE".to_owned()), Some("1".to_owned()), Some("258".to_owned())]
    );
    assert_eq!(model.rows[1], vec![Some("FR".to_owned()), None, Some("172".to_owned())]);
    // A short column reads as NULL past its end, and a level keeps 16 bits.
    let short = model_from_parts(Vec::new(), Vec::new(), &[65_537], &[vec![]]);
    assert_eq!(short.rows, vec![vec![None]]);
    assert_eq!(short.levels, vec![1]);
}

#[test]
fn measures_repeat_under_each_column_value() {
    let header = |year: &str, measure: &str| ColumnHeader {
        path: vec![Some(year.to_owned())],
        measure: measure.to_owned(),
    };
    let model = model_from_parts(
        Vec::new(),
        vec![header("2025", "n"), header("2025", "sum"), header("2026", "n"), header("2026", "sum")],
        &[],
        &[],
    );
    assert_eq!(model.measures(), 2);
    let groups = model.groups();
    assert_eq!(groups.len(), 2);
    assert_eq!(groups[1], &[Some("2026".to_owned())][..]);
    let none = model_from_parts(Vec::new(), Vec::new(), &[], &[]);
    assert_eq!(none.measures(), 0);
    assert!(none.groups().is_empty());
    assert_eq!(cell(&None), "");
    assert_eq!(cell(&Some("x".to_owned())), "x");
}

#[test]
fn a_measure_list_must_be_json() {
    let rows = vec!["country".to_owned()];
    assert!(pivot_json("orders", &rows, &[], Some(r#"[{"fn":"count","as":"n"}]"#)).is_ok());
    assert!(pivot_json("orders", &rows, &[], None).is_err());
    assert!(pivot_json("orders", &rows, &[], Some("count(qty)")).is_err());
    assert!(
        pivot_json("orders", &rows, &[], Some(r#"{"fn":"count"}"#)).is_err(),
        "an object is not a list of measures"
    );
}

#[test]
fn the_request_is_compact_json_with_its_members_in_order() {
    let rows = vec!["country".to_owned()];
    let columns = vec!["year".to_owned()];
    assert_eq!(
        pivot_json("orders", &rows, &columns, Some(r#"  [ {"fn": "count", "as": "n"} ] "#)),
        Ok(r#"{"columns":["year"],"rows":["country"],"source":"orders","values":[{"as":"n","fn":"count"}]}"#
            .to_owned())
    );
    assert_eq!(
        pivot_json("orders", &rows, &columns, Some("   ")),
        Err("the values attribute is empty: a pivot needs a measure".to_owned())
    );
    assert_eq!(
        pivot_json("orders", &rows, &columns, Some(r#"{"fn":"count"}"#)),
        Err("the values attribute must be a JSON array of measures".to_owned())
    );
    let not_json = pivot_json("orders", &rows, &columns, Some("count(qty)")).unwrap_err();
    assert!(not_json.starts_with("the values attribute is not JSON: "), "{not_json}");
    assert!(not_json.len() > "the values attribute is not JSON: ".len());
    assert_eq!(
        pivot_request("s", &[], &[], "x", Err("bad".to_owned())),
        Err("the values attribute is not JSON: bad".to_owned())
    );
    assert_eq!(
        pivot_request("s\"q", &[], &[], "[1]", Ok(Json::Array(vec![Json::Number("1".to_owned())]))),
        Ok(r#"{"columns":[],"rows":[],"source":"s\"q","values":[1]}"#.to_owned())
    );
    assert_eq!(
        pivot_request("s", &[], &[], "", Ok(Json::Array(vec![]))),
        Err("the values attribute is empty: a pivot needs a measure".to_owned())
    );
}

#[test]
fn the_wire_form_keeps_the_columns_and_cells() {
    let model = model();
    assert_eq!(model.columns[0].path, vec![Some("2025".to_owned())]);
    assert_eq!(model.columns[1].measure, "total");
    assert_eq!(model.rows[1], vec![Some("FR".to_owned()), None, Some("172".to_owned())]);
}

#[test]
fn a_missing_part_is_named() {
    assert_eq!(parse_result("{}"), Err("result has no row_dimensions".to_owned()));
    assert_eq!(
        parse_result(r#"{"row_dimensions": []}"#),
        Err("result has no columns".to_owned())
    );
    assert_eq!(
        parse_result(r#"{"row_dimensions": [], "columns": []}"#),
        Err("result has no levels".to_owned())
    );
    assert_eq!(
        parse_result(r#"{"row_dimensions": [], "columns": [], "levels": [], "result": {}}"#),
        Err("result has no cells".to_owned())
    );
    assert_eq!(
        parse_result(r#"{"row_dimensions": [], "columns": [], "levels": [], "result": 3}"#),
        Err("result has no cells".to_owned())
    );
    assert_eq!(parse_result("[1, 2]"), Err("result has no row_dimensions".to_owned()));
    let not_json = parse_result("{").unwrap_err();
    assert!(!not_json.is_empty());
}

#[test]
fn odd_values_are_read_leniently() {
    let model = parse_result(
        r#"{"row_dimensions": ["a", 7], "columns": [{"path": [null, "x", true, [1, "q\"t"]]}, 5],
            "levels": [70000, -1, 2.5, "3"],
            "result": {"columns": [{"values": [{"k": "v"}, false]}, {"values": "none"}]}}"#,
    )
    .expect("an answer with odd values still parses");
    assert_eq!(model.row_dimensions, vec!["a".to_owned(), String::new()]);
    assert_eq!(
        model.columns[0].path,
        vec![None, Some("x".to_owned()), Some("true".to_owned()), Some(r#"[1,"q\"t"]"#.to_owned())]
    );
    assert_eq!(model.columns[0].measure, "");
    assert!(model.columns[1].path.is_empty());
    assert_eq!(model.levels, vec![4464, 0, 0, 0]);
    assert_eq!(model.rows[0], vec![Some(r#"{"k":"v"}"#.to_owned()), None]);
    assert_eq!(model.rows[1], vec![Some("false".to_owned()), None]);
    assert_eq!(model.rows[2], vec![None, None]);
}

#[test]
fn a_json_tree_is_read_by_parts() {
    let body = Json::Object(vec![
        ("columns".to_owned(), Json::Array(vec![])),
        ("levels".to_owned(), Json::Array(vec![Json::Number("2".to_owned())])),
        (
            "result".to_owned(),
            Json::Object(vec![(
                "columns".to_owned(),
                Json::Array(vec![Json::Object(vec![(
                    "values".to_owned(),
                    Json::Array(vec![Json::Text("DE".to_owned())]),
                )])]),
            )]),
        ),
        ("row_dimensions".to_owned(), Json::Array(vec![Json::Text("country".to_owned())])),
    ]);
    let model = pivot_parts(&body).expect("all parts are there");
    assert_eq!(model.levels, vec![2]);
    assert_eq!(model.rows, vec![vec![Some("DE".to_owned())]]);
    assert_eq!(
        pivot_parts(&Json::Null),
        Err("result has no row_dimensions".to_owned())
    );
}

