use opengrid_web_components::filters::{CmpOp, DataType, FilterExpr};
use opengrid_web_components::grouping::{
    aggregate_alias, aggregate_list, aggregate_width, group_select, groupable, groups_from,
    parse_group_by, split, total_from, total_select, Fetch, Group, Grouping, Item, Key, COUNT_ALIAS,
};
use opengrid_web_components::summary::{AggregateFn, Summary};

fn text(key: &str) -> Key {
    Key::Text(key.to_owned())
}

fn key(value: &str) -> Key {
    Key::Text(value.to_owned())
}

/// DE 3, FR 1, (empty) 2, NULL 2 — both kinds of "no value", which are
/// different groups.
fn one_level() -> Grouping<Key> {
    let mut grouping = Grouping::new(vec!["country".to_owned()]);
    grouping.set_groups(vec![
        Group::new(text("DE"), 3),
        Group::new(text("FR"), 1),
        Group::new(text(""), 2),
        Group::new(Key::Null, 2),
    ]);
    grouping
}

#[test]
fn all_closed_is_one_row_per_group_and_the_total() {
    let grouping = one_level();
    // Four headers and the total row after them.
    assert_eq!(grouping.len(), 5);
    assert_eq!(grouping.row_count(), 8);
    for position in 0..4 {
        assert!(matches!(
            grouping.item_at(position),
            Some(Item::Group { level: 1, expanded: false, .. })
        ));
    }
    assert!(matches!(grouping.item_at(4), Some(Item::Total { count: 8, .. })));
    assert_eq!(grouping.item_at(5), None);
}

#[test]
fn opening_a_group_inserts_its_rows_after_it_and_nothing_before() {
    let mut grouping = one_level();
    assert!(grouping.toggle(&[key("FR")]));
    // DE, FR, FR row 0, (empty), NULL, total.
    assert_eq!(grouping.len(), 6);
    assert!(matches!(grouping.item_at(0), Some(Item::Group { .. })));
    assert!(matches!(
        grouping.item_at(1),
        Some(Item::Group { expanded: true, count: 1, .. })
    ));
    assert_eq!(
        grouping.item_at(2),
        Some(Item::Row { keys: vec![key("FR")], offset: 0 })
    );
    assert!(matches!(grouping.item_at(3), Some(Item::Group { .. })));
    // The toggled group did not move, which is what keeps the focus on it.
    assert_eq!(grouping.position_of(&[key("FR")]), Some(1));
}

#[test]
fn all_open_is_every_row_plus_every_header() {
    let mut grouping = one_level();
    for group in ["DE", "FR", ""] {
        grouping.toggle(&[key(group)]);
    }
    grouping.toggle(&[Key::Null]);
    assert_eq!(grouping.len(), 8 + 4 + 1);
    // The last position is the last row of the NULL group.
    assert_eq!(
        grouping.item_at(11),
        Some(Item::Row { keys: vec![Key::Null], offset: 1 })
    );
    assert!(matches!(grouping.item_at(12), Some(Item::Total { .. })));
    assert_eq!(grouping.item_at(13), None);
}

#[test]
fn closing_takes_the_rows_out_again() {
    let mut grouping = one_level();
    grouping.toggle(&[key("DE")]);
    assert_eq!(grouping.len(), 8);
    assert!(!grouping.toggle(&[key("DE")]));
    assert_eq!(grouping.len(), 5);
}

#[test]
fn null_and_empty_are_two_groups_with_two_filters() {
    let grouping = one_level();
    assert_eq!(
        grouping.filter_for(&[Key::Null], None),
        Some(FilterExpr::IsNull { field: "country".to_owned() })
    );
    assert_eq!(
        grouping.filter_for(&[key("")], None),
        Some(FilterExpr::Cmp { field: "country".to_owned(), op: CmpOp::Eq, value: key("") })
    );
}

#[test]
fn the_page_filter_is_kept_under_the_group_filter() {
    let grouping = one_level();
    let base = FilterExpr::IsNotNull { field: "amount".to_owned() };
    let Some(FilterExpr::And(parts)) = grouping.filter_for(&[key("DE")], Some(&base)) else {
        panic!("the group filter must be combined with the page's");
    };
    assert_eq!(parts.len(), 2);
    assert_eq!(parts[0], base);
}

#[test]
fn a_window_asks_one_fetch_per_group_it_touches() {
    let mut grouping = one_level();
    grouping.toggle(&[key("DE")]);
    grouping.toggle(&[key("")]);
    // DE, DE0, DE1, DE2, FR, (empty), E0, E1, NULL
    let fetches = grouping.fetches(0, 9);
    assert_eq!(
        fetches,
        vec![
            Fetch { keys: vec![key("DE")], offset: 0, limit: 3, position: 1 },
            Fetch { keys: vec![key("")], offset: 0, limit: 2, position: 6 },
        ]
    );
}

#[test]
fn a_window_that_starts_inside_a_group_fetches_from_the_middle() {
    let mut grouping = one_level();
    grouping.toggle(&[key("DE")]);
    let fetches = grouping.fetches(2, 2);
    assert_eq!(
        fetches,
        vec![Fetch { keys: vec![key("DE")], offset: 1, limit: 2, position: 2 }]
    );
}

#[test]
fn a_group_larger_than_the_window_is_fetched_in_slices() {
    let mut grouping: Grouping<Key> = Grouping::new(vec!["country".to_owned()]);
    grouping.set_groups(vec![Group::new(text("DE"), 100_000)]);
    grouping.toggle(&[key("DE")]);
    assert_eq!(grouping.len(), 100_002);
    let fetches = grouping.fetches(50_000, 40);
    assert_eq!(fetches.len(), 1);
    assert_eq!(fetches[0].offset, 49_999);
    assert_eq!(fetches[0].limit, 40);
}

#[test]
fn the_last_window_ends_at_the_last_row() {
    let mut grouping = one_level();
    grouping.toggle(&[Key::Null]);
    let fetches = grouping.fetches(4, 40);
    assert_eq!(fetches.len(), 1);
    assert_eq!(fetches[0].limit, 2);
}

#[test]
fn a_group_with_one_row() {
    let mut grouping = one_level();
    grouping.toggle(&[key("FR")]);
    assert_eq!(grouping.fetches(0, 10).len(), 1);
    assert_eq!(grouping.fetches(0, 10)[0].limit, 1);
}

#[test]
fn no_groups_is_an_empty_list() {
    let mut grouping: Grouping<Key> = Grouping::new(vec!["country".to_owned()]);
    assert!(grouping.is_empty());
    grouping.set_groups(Vec::new());
    assert!(grouping.is_empty());
    assert_eq!(grouping.item_at(0), None);
    assert!(grouping.fetches(0, 10).is_empty());
}

fn two_level() -> Grouping<Key> {
    let mut grouping = Grouping::new(vec!["country".to_owned(), "customer".to_owned()]);
    grouping.set_groups(vec![Group::new(text("DE"), 5), Group::new(text("FR"), 2)]);
    grouping
}

#[test]
fn a_second_level_is_empty_until_it_is_fetched() {
    let mut grouping = two_level();
    grouping.toggle(&[key("DE")]);
    // Open, but its subgroups have not been asked for yet: header only.
    assert_eq!(grouping.len(), 3);
    assert_eq!(grouping.missing_children(), vec![key("DE")]);

    grouping.set_children(&key("DE"), vec![Group::new(text("Alpha"), 3), Group::new(Key::Null, 2)]);
    assert!(grouping.missing_children().is_empty());
    // DE, Alpha, (NULL), FR, total
    assert_eq!(grouping.len(), 5);
    assert!(matches!(
        grouping.item_at(1),
        Some(Item::Group { level: 2, expanded: false, count: 3, .. })
    ));
}

#[test]
fn opening_a_second_level_group_puts_its_rows_under_it() {
    let mut grouping = two_level();
    grouping.toggle(&[key("DE")]);
    grouping.set_children(&key("DE"), vec![Group::new(text("Alpha"), 3), Group::new(Key::Null, 2)]);
    grouping.toggle(&[key("DE"), Key::Null]);
    // DE, Alpha, NULL, NULL0, NULL1, FR, total
    assert_eq!(grouping.len(), 7);
    assert_eq!(
        grouping.item_at(4),
        Some(Item::Row { keys: vec![key("DE"), Key::Null], offset: 1 })
    );
    assert_eq!(grouping.position_of(&[key("DE"), Key::Null]), Some(2));

    // Closing the parent hides the child, which then has no position.
    grouping.toggle(&[key("DE")]);
    assert_eq!(grouping.len(), 3);
    assert_eq!(grouping.position_of(&[key("DE"), Key::Null]), None);
}

#[test]
fn expanded_survives_a_reload_of_the_groups() {
    let mut grouping = one_level();
    grouping.toggle(&[key("DE")]);
    grouping.invalidate();
    assert!(grouping.is_empty());
    grouping.set_groups(vec![Group::new(text("DE"), 3)]);
    // DE, its three rows, total.
    assert_eq!(grouping.len(), 5);
}

#[test]
fn expanded_round_trips_through_json() {
    let mut grouping = two_level();
    grouping.toggle(&[key("DE"), Key::Null]);
    let saved = grouping.expanded();
    let mut other = two_level();
    other.set_expanded(&saved);
    assert_eq!(other.expanded(), saved);
}

#[test]
fn group_by_takes_at_most_two_and_refuses_a_third() {
    assert_eq!(
        parse_group_by(Some(" country , customer ")),
        Ok(vec!["country".to_owned(), "customer".to_owned()])
    );
    assert_eq!(parse_group_by(Some("a,a")), Ok(vec!["a".to_owned()]));
    assert_eq!(parse_group_by(None), Ok(Vec::new()));
    assert_eq!(parse_group_by(Some("a,b,c")), Err("a,b,c".to_owned()));
}

#[test]
fn only_repeating_types_are_groupable() {
    assert!(groupable(DataType::Utf8));
    assert!(groupable(DataType::Date));
    assert!(!groupable(DataType::Float64));
    assert!(!groupable(DataType::Timestamp));
}

/// The total row is never asked for as rows.
#[test]
fn a_window_over_the_total_fetches_no_rows_for_it() {
    let grouping = one_level();
    assert!(grouping.fetches(0, 10).is_empty());
}

/// No groups, no total.
#[test]
fn there_is_no_total_without_groups() {
    let mut grouping: Grouping<Key> = Grouping::new(vec!["country".to_owned()]);
    grouping.set_groups(Vec::new());
    assert_eq!(grouping.len(), 0);
}

/// A different choice of aggregates makes the loaded counts stale.
#[test]
fn choosing_other_aggregates_reloads_the_groups() {
    let mut grouping = one_level();
    grouping.set_aggregates(vec![("amount".to_owned(), Summary::Fn(AggregateFn::Sum))]);
    assert!(!grouping.is_loaded());
    grouping.set_groups(vec![Group::new(text("DE"), 3)]);
    grouping.set_aggregates(vec![("amount".to_owned(), Summary::Fn(AggregateFn::Sum))]);
    assert!(grouping.is_loaded(), "the same choice changes nothing");
}

/// A range is asked as `min` and `max` of its column, and the answer is
/// split back so that every later aggregate keeps its own value.
#[test]
fn a_range_is_asked_as_min_and_max_and_split_back() {
    let aggregates = vec![
        ("ordered_on".to_owned(), Summary::Range),
        ("amount".to_owned(), Summary::Fn(AggregateFn::Sum)),
    ];
    assert_eq!(
        group_select("country", &aggregates),
        vec!["country", COUNT_ALIAS, "__og_a0", "__og_a1", "__og_a2"]
    );
    let asked: Vec<(&str, String)> = aggregate_list(&aggregates)
        .iter()
        .skip(1)
        .map(|entry| (entry.function.as_str(), entry.field.clone().unwrap()))
        .collect();
    assert_eq!(
        asked,
        [
            ("min", "ordered_on".to_owned()),
            ("max", "ordered_on".to_owned()),
            ("sum", "amount".to_owned())
        ]
    );

    let values = [Key::Int(1), Key::Int(9), Key::Int(42)];
    let split_values = split(&aggregates, &values);
    assert_eq!(split_values, [&values[..2], &values[2..]]);
    // A short answer leaves the missing ones empty instead of shifting them.
    let short: Vec<usize> = split(&aggregates, &[] as &[Key]).iter().map(|v| v.len()).collect();
    assert_eq!(short, [0, 0]);
}

/// The aggregates travel by position, after the key and the count.
#[test]
fn the_queries_ask_the_aggregates_by_position() {
    let aggregates = vec![
        ("amount".to_owned(), Summary::Fn(AggregateFn::Sum)),
        ("qty".to_owned(), Summary::Fn(AggregateFn::Avg)),
    ];
    assert_eq!(
        group_select("country", &aggregates),
        vec!["country", COUNT_ALIAS, "__og_a0", "__og_a1"]
    );
    let list = aggregate_list(&aggregates);
    assert_eq!(list[2].field.as_deref(), Some("qty"));
    assert_eq!(list[2].function.as_str(), "avg");
    assert_eq!(total_select(&aggregates), vec![COUNT_ALIAS, "__og_a0", "__og_a1"]);
}

#[test]
fn the_count_comes_first_under_its_own_alias() {
    let list = aggregate_list(&[]);
    assert_eq!(list.len(), 1);
    assert_eq!(list[0].alias, COUNT_ALIAS);
    assert_eq!(list[0].function, AggregateFn::Count);
    assert_eq!(list[0].field, None);
    assert_eq!(aggregate_alias(12), "__og_a12");
    assert_eq!(aggregate_width(&[("d".to_owned(), Summary::Range), ("a".to_owned(), Summary::Fn(AggregateFn::Max))]), 3);
}

#[test]
fn a_group_query_result_becomes_groups() {
    let columns = vec![
        vec![text("DE"), Key::Null, text("FR")],
        vec![Key::Int(3), Key::Int(-1)],
        vec![Key::Int(10)],
    ];
    let groups = groups_from(&columns).unwrap();
    assert_eq!(groups.len(), 2);
    assert_eq!(groups[0].key, text("DE"));
    assert_eq!(groups[0].count, 3);
    assert_eq!(groups[0].aggregates, vec![Key::Int(10)]);
    assert_eq!(groups[1].key, Key::Null);
    assert_eq!(groups[1].count, 0, "a negative count counts nothing");
    assert_eq!(groups[1].aggregates, vec![Key::Null]);
    assert_eq!(groups_from(&[]).unwrap_err(), "the group query answered no key column");
    assert_eq!(groups_from(&[vec![text("DE")]]).unwrap_err(), "the group query answered no count");
    assert_eq!(
        total_from(&[vec![Key::Int(8)], vec![Key::Int(42)], vec![]]),
        vec![Key::Int(42), Key::Null]
    );
}

#[test]
fn the_total_row_carries_the_total_aggregates() {
    let mut grouping = one_level();
    grouping.set_total(vec![Key::Int(99)]);
    assert_eq!(
        grouping.item_at(4),
        Some(Item::Total { count: 8, aggregates: vec![Key::Int(99)] })
    );
}

#[test]
fn the_open_groups_are_kept_sorted_by_their_key_texts() {
    let mut grouping = one_level();
    grouping.toggle(&[key("FR")]);
    grouping.toggle(&[key("DE")]);
    grouping.toggle(&[Key::Null]);
    // "\"DE\"" < "\"FR\"" < "null": the order the texts sort in, not the
    // order the groups were opened in.
    assert_eq!(grouping.expanded(), vec![vec![key("DE")], vec![key("FR")], vec![Key::Null]]);
    // Toggling a group twice gives the same list back.
    assert!(!grouping.toggle(&[key("DE")]));
    assert!(grouping.toggle(&[key("DE")]));
    assert_eq!(grouping.expanded(), vec![vec![key("DE")], vec![key("FR")], vec![Key::Null]]);
}

#[test]
fn a_restored_view_is_sorted_and_counts_each_path_once() {
    let mut grouping = one_level();
    grouping.set_expanded(&[
        vec![Key::Int(10)],
        vec![Key::Int(9)],
        vec![key("FR")],
        vec![Key::Int(-3)],
        vec![Key::Int(9)],
        vec![],
        vec![key("a"), key("b")],
    ]);
    // By JSON text: "\"FR\"" < "-3" < "10" < "9"; the empty path and the
    // one deeper than the levels are left out.
    assert_eq!(
        grouping.expanded(),
        vec![vec![key("FR")], vec![Key::Int(-3)], vec![Key::Int(10)], vec![Key::Int(9)]]
    );
}
