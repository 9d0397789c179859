use opengrid_web_components::filters::DataType;
use opengrid_web_components::menu::{entries, regrouped, Column, Entry, MenuTexts};
use opengrid_web_components::summary::{aggregates_for, AggregateFn, Summary};

fn actions(entries: &[Entry]) -> Vec<String> {
    let mut out = Vec::new();
    for entry in entries {
        match entry {
            Entry::Item { action, .. } => out.push(action.clone()),
            Entry::Group { entries, .. } => out.extend(actions(entries)),
            Entry::Separator => {}
        }
    }
    out
}

fn texts() -> MenuTexts {
    MenuTexts {
        sort_ascending: "Sort ascending".to_owned(),
        sort_descending: "Sort descending".to_owned(),
        filter_column: "Filter".to_owned(),
        aggregate_none: "No summary".to_owned(),
        aggregate_group: "Summary".to_owned(),
        ungroup_column: "Ungroup".to_owned(),
        group_by_column: "Group by this column".to_owned(),
        group_second_level: "Group under the current grouping".to_owned(),
        hide_column: "Hide column".to_owned(),
        aggregate_count: "Count".to_owned(),
        aggregate_sum: "Sum".to_owned(),
        aggregate_avg: "Average".to_owned(),
        aggregate_min: "Minimum".to_owned(),
        aggregate_max: "Maximum".to_owned(),
        aggregate_range: "Range".to_owned(),
    }
}

fn column<'a>(name: &'a str, data_type: DataType, group_by: &'a [String]) -> Column<'a> {
    Column {
        name,
        data_type,
        sort: None,
        aggregate: None,
        group_by,
        can_group: true,
        visible: 5,
    }
}

fn menu(column: &Column) -> Vec<Entry> {
    entries(column, &texts())
}

#[test]
fn a_number_offers_its_aggregates_and_no_grouping() {
    let got = actions(&menu(&column("amount", DataType::Float64, &[])));
    assert_eq!(
        got,
        [
            "sort:asc",
            "sort:desc",
            "filter",
            "aggregate:none",
            "aggregate:count",
            "aggregate:sum",
            "aggregate:avg",
            "aggregate:min",
            "aggregate:max",
            "aggregate:range",
            "hide",
        ]
    );
}

#[test]
fn text_offers_grouping_and_no_aggregate() {
    let got = actions(&menu(&column("customer", DataType::Utf8, &[])));
    assert_eq!(
        got,
        ["sort:asc", "sort:desc", "filter", "group:first", "hide"]
    );
}

#[test]
fn a_grouped_column_offers_to_ungroup_and_another_a_second_level() {
    let by = ["country".to_owned()];
    assert!(actions(&menu(&column("country", DataType::Utf8, &by))).contains(&"group:remove".to_owned()));
    let other = actions(&menu(&column("customer", DataType::Utf8, &by)));
    assert!(other.contains(&"group:first".to_owned()));
    assert!(other.contains(&"group:second".to_owned()));
}

#[test]
fn nothing_that_would_do_nothing() {
    let mut last = column("customer", DataType::Utf8, &[]);
    last.visible = 1;
    last.can_group = false;
    let got = actions(&menu(&last));
    // No grouping while paging, and the last column cannot be hidden.
    assert_eq!(got, ["sort:asc", "sort:desc", "filter"]);
}

#[test]
fn the_active_choices_are_checked() {
    let mut amount = column("amount", DataType::Int64, &[]);
    amount.sort = Some("desc");
    amount.aggregate = Some(Summary::Fn(AggregateFn::Sum));
    let got = menu(&amount);
    let mut checked: Vec<String> = Vec::new();
    for entry in &got {
        let list: Vec<&Entry> = match entry {
            Entry::Group { entries, .. } => entries.iter().collect(),
            other => vec![other],
        };
        for e in list {
            if let Entry::Item { action, checked: Some(true), .. } = e {
                checked.push(action.clone());
            }
        }
    }
    assert_eq!(checked, ["sort:desc", "aggregate:sum"]);
}

#[test]
fn regrouping_keeps_at_most_two_levels() {
    let by = vec!["country".to_owned(), "customer".to_owned()];
    assert_eq!(regrouped("group:first", "region", &by), ["region"]);
    assert_eq!(
        regrouped("group:second", "region", &by),
        ["country", "region"]
    );
    assert_eq!(regrouped("group:remove", "country", &by), ["customer"]);
    // Asking the outermost level to be its own second level changes nothing.
    assert_eq!(regrouped("group:second", "country", &by[..1]), ["country"]);
}

#[test]
fn an_unknown_action_changes_no_grouping() {
    let by = vec!["country".to_owned()];
    assert_eq!(regrouped("hide", "country", &by), ["country"]);
    assert_eq!(regrouped("group:second", "region", &[]), ["region"]);
}

#[test]
fn the_labels_are_the_pages() {
    let got = menu(&column("customer", DataType::Utf8, &[]));
    assert_eq!(
        got[0],
        Entry::Item {
            action: "sort:asc".to_owned(),
            label: "Sort ascending".to_owned(),
            checked: Some(false)
        }
    );
    assert_eq!(got[2], Entry::Separator);
    assert_eq!(
        got[3],
        Entry::Item {
            action: "filter".to_owned(),
            label: "Filter".to_owned(),
            checked: None
        }
    );
}

#[test]
fn each_type_offers_its_summaries() {
    let numbers = vec![
        Summary::Fn(AggregateFn::Count),
        Summary::Fn(AggregateFn::Sum),
        Summary::Fn(AggregateFn::Avg),
        Summary::Fn(AggregateFn::Min),
        Summary::Fn(AggregateFn::Max),
        Summary::Range,
    ];
    assert_eq!(aggregates_for(DataType::Int64), numbers);
    assert_eq!(aggregates_for(DataType::Float64), numbers);
    assert_eq!(aggregates_for(DataType::Utf8), vec![Summary::Fn(AggregateFn::Count)]);
    assert_eq!(aggregates_for(DataType::Bool), vec![Summary::Fn(AggregateFn::Count)]);
    assert_eq!(
        aggregates_for(DataType::Date),
        vec![
            Summary::Fn(AggregateFn::Count),
            Summary::Fn(AggregateFn::Min),
            Summary::Fn(AggregateFn::Max),
            Summary::Range
        ]
    );
}

#[test]
fn the_aggregate_labels_are_the_pages() {
    let got = menu(&column("amount", DataType::Int64, &[]));
    match &got[5] {
        Entry::Group { entries, .. } => {
            assert_eq!(
                entries[3],
                Entry::Item {
                    action: "aggregate:avg".to_owned(),
                    label: "Average".to_owned(),
                    checked: Some(false)
                }
            );
        }
        other => panic!("expected the aggregate group, got {other:?}"),
    }
}
