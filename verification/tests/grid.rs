use opengrid_web_components::display::{
    aggregate_text, aria_sort, check_glyph, density_of, direction_glyph, plain_text, row_style,
    select_all_state, selector, sort_position, tabindex_for, CheckState, Plain, ASCENDING_GLYPH,
    DESCENDING_GLYPH,
};
use opengrid_web_components::grouping::Key;
use opengrid_web_components::keys::{move_active, requested_window, ActiveCell, CellRef, GridKey, Window};
use opengrid_web_components::query::{
    next_sort, query_sort, status_line_counting, status_state, status_text, view_sort, GridStatus,
    SortDirection, SortKey, StatusTexts,
};
use opengrid_web_components::filters::{initial_schema, DataType, Field};
use opengrid_web_components::summary::{AggregateFn, Summary};
use opengrid_web_components::window::{
    assign_pool, parse_columns, parse_page_size, parse_row_height, parse_window_size,
    viewport_rows, visible_start, window_offset, window_offset_for_row, window_rows, Paging,
    DEFAULT_ROW_HEIGHT,
};

/// The columns attribute is the table's trimmed list.
#[test]
fn columns_attribute_is_a_trimmed_list() {
    assert_eq!(
        parse_columns(Some(" a , b ,,")),
        ["a".to_owned(), "b".to_owned()]
    );
}

/// The pool size falls back to the default on a missing, broken or zero value.
#[test]
fn pool_size_falls_back_to_the_default() {
    assert_eq!(parse_window_size(None), 40);
    assert_eq!(parse_window_size(Some(" 25 ")), 25);
    assert_eq!(parse_window_size(Some("0")), 40);
    assert_eq!(parse_window_size(Some("nope")), 40);
}

/// The row height accepts `<number>px` and falls back on anything else.
#[test]
fn row_height_parses_pixels_and_falls_back() {
    assert_eq!(parse_row_height("48px"), 48);
    assert_eq!(parse_row_height(" 20px "), 20);
    assert_eq!(parse_row_height("48"), DEFAULT_ROW_HEIGHT);
    assert_eq!(parse_row_height("48em"), DEFAULT_ROW_HEIGHT);
    assert_eq!(parse_row_height("0px"), DEFAULT_ROW_HEIGHT);
    assert_eq!(parse_row_height(""), DEFAULT_ROW_HEIGHT);
}

/// The visible row is derived from the scroll offset and the row height.
#[test]
fn scroll_offset_maps_to_the_visible_row() {
    assert_eq!(visible_start(0, DEFAULT_ROW_HEIGHT), 0);
    assert_eq!(visible_start(DEFAULT_ROW_HEIGHT - 1, DEFAULT_ROW_HEIGHT), 0);
    assert_eq!(visible_start(DEFAULT_ROW_HEIGHT, DEFAULT_ROW_HEIGHT), 1);
    assert_eq!(
        visible_start(1_000_000, DEFAULT_ROW_HEIGHT),
        1_000_000 / DEFAULT_ROW_HEIGHT
    );
    // A configured row height scales the same math.
    assert_eq!(visible_start(95, 48), 1);
    assert_eq!(visible_start(96, 48), 2);
    assert_eq!(visible_start(480, 48), 10);
}

/// The window keeps the overscan above the visible row and clamps at the end.
#[test]
fn window_offset_clamps_to_the_result() {
    assert_eq!(window_offset(0, 100, 10), 0);
    assert_eq!(window_offset(50, 100, 10), 44);
    assert_eq!(window_offset(99, 100, 10), 90);
    assert_eq!(window_offset_for_row(0, 100, 10), 0);
    assert_eq!(window_offset_for_row(99, 100, 10), 90);
    assert_eq!(window_rows(90, 100, 10), (90..100).collect::<Vec<_>>());
    // A pool shorter than the overscan still contains its row.
    assert_eq!(window_offset_for_row(2, 5, 2), 1);
}

/// A fresh assignment fills the free slots in order.
#[test]
fn assignment_fills_free_slots() {
    let slots = assign_pool(&[None; 3], None, &[0, 1, 2], 3);
    assert_eq!(slots, [Some(0), Some(1), Some(2)]);
}

/// Existing assignments are kept when the row is still in the window.
#[test]
fn assignment_keeps_existing_rows() {
    let old = [Some(0), Some(1), Some(2)];
    let slots = assign_pool(&old, None, &[0, 1, 2, 3], 3);
    assert_eq!(slots, [Some(0), Some(1), Some(2)]);
}

/// The focused row is pinned even when it left the window.
#[test]
fn assignment_pins_the_focused_row() {
    let old = [Some(6), Some(20), Some(21), Some(22)];
    let slots = assign_pool(&old, Some(6), &[20, 21, 22, 23], 4);
    assert_eq!(slots[0], Some(6));
    assert!(!slots.contains(&Some(23)));
}

/// When nothing is pinned the window fills the pool, dropping the far edge.
#[test]
fn assignment_scrolls_without_focus() {
    let old = [Some(0), Some(1), Some(2), Some(3)];
    let slots = assign_pool(&old, None, &[10, 11, 12, 13], 4);
    assert_eq!(slots, [Some(10), Some(11), Some(12), Some(13)]);
}

/// Arrow keys move by one and clamp to the whole result, not the window.
#[test]
fn arrows_move_and_clamp() {
    let active = ActiveCell::Data(CellRef::new(0, 0));
    let down = move_active(active, GridKey::ArrowDown, 2, 5, 3, true);
    assert_eq!(down, ActiveCell::Data(CellRef::new(1, 0)));
    // At the last row the move is clamped.
    assert_eq!(
        move_active(ActiveCell::Data(CellRef::new(4, 0)), GridKey::ArrowDown, 2, 5, 3, true),
        ActiveCell::Data(CellRef::new(4, 0))
    );
    // Up from the first row enters the header.
    assert_eq!(
        move_active(active, GridKey::ArrowUp, 2, 5, 3, true),
        ActiveCell::Header { col: 0 }
    );
    // Down from the header enters the first row.
    assert_eq!(
        move_active(ActiveCell::Header { col: 0 }, GridKey::ArrowDown, 2, 5, 3, true),
        ActiveCell::Data(CellRef::new(0, 0))
    );
    // Right/left clamp at the last/first column.
    assert_eq!(
        move_active(active, GridKey::ArrowRight, 2, 5, 3, true),
        ActiveCell::Data(CellRef::new(0, 1))
    );
    assert_eq!(
        move_active(ActiveCell::Data(CellRef::new(0, 1)), GridKey::ArrowRight, 2, 5, 3, true),
        ActiveCell::Data(CellRef::new(0, 1))
    );
    // Left from the first schema column is the selection cell.
    assert_eq!(
        move_active(active, GridKey::ArrowLeft, 2, 5, 3, true),
        ActiveCell::Select { row: 0 }
    );
    assert_eq!(
        move_active(ActiveCell::Select { row: 0 }, GridKey::ArrowLeft, 2, 5, 3, true),
        ActiveCell::Select { row: 0 }
    );
    assert_eq!(
        move_active(ActiveCell::Select { row: 0 }, GridKey::ArrowRight, 2, 5, 3, true),
        ActiveCell::Data(CellRef::new(0, 0))
    );
    // The selection column has a header of its own.
    assert_eq!(
        move_active(ActiveCell::Select { row: 0 }, GridKey::ArrowUp, 2, 5, 3, true),
        ActiveCell::SelectAll
    );
    assert_eq!(
        move_active(ActiveCell::SelectAll, GridKey::ArrowDown, 2, 5, 3, true),
        ActiveCell::Select { row: 0 }
    );
    assert_eq!(
        move_active(ActiveCell::SelectAll, GridKey::ArrowRight, 2, 5, 3, true),
        ActiveCell::Header { col: 0 }
    );
    assert_eq!(
        move_active(ActiveCell::Header { col: 0 }, GridKey::ArrowLeft, 2, 5, 3, true),
        ActiveCell::SelectAll
    );
}

/// Home/End move within the row; Ctrl+Home/End jump to the grid's corners.
#[test]
fn home_end_and_ctrl_jump() {
    let active = ActiveCell::Data(CellRef::new(1, 1));
    assert_eq!(
        move_active(active, GridKey::Home, 2, 5, 3, true),
        ActiveCell::Select { row: 1 }
    );
    assert_eq!(
        move_active(active, GridKey::End, 2, 5, 3, true),
        ActiveCell::Data(CellRef::new(1, 1))
    );
    assert_eq!(
        move_active(active, GridKey::CtrlHome, 2, 5, 3, true),
        ActiveCell::SelectAll
    );
    assert_eq!(
        move_active(active, GridKey::CtrlEnd, 2, 5, 3, true),
        ActiveCell::Data(CellRef::new(4, 1))
    );
}

/// Page keys move by a viewport and clamp to the whole result.
#[test]
fn page_keys_move_by_a_viewport() {
    let active = ActiveCell::Data(CellRef::new(0, 0));
    let next = move_active(active, GridKey::PageDown, 2, 100, 10, true);
    assert_eq!(next, ActiveCell::Data(CellRef::new(10, 0)));
    let up = move_active(ActiveCell::Data(CellRef::new(30, 0)), GridKey::PageUp, 2, 100, 10, true);
    assert_eq!(up, ActiveCell::Data(CellRef::new(20, 0)));
    // At the last row the move clamps.
    assert_eq!(
        move_active(ActiveCell::Data(CellRef::new(99, 0)), GridKey::PageDown, 2, 100, 10, true),
        ActiveCell::Data(CellRef::new(99, 0))
    );
}

/// A move inside the window asks for no reload; a move outside does.
#[test]
fn a_move_outside_the_window_requests_it() {
    let window = Window::new(0, 10);
    assert_eq!(
        requested_window(GridKey::ArrowDown, ActiveCell::Data(CellRef::new(5, 0)), window, 100, 10),
        None
    );
    assert_eq!(
        requested_window(GridKey::ArrowDown, ActiveCell::Data(CellRef::new(10, 0)), window, 100, 10),
        Some(4)
    );
    assert_eq!(
        requested_window(GridKey::CtrlEnd, ActiveCell::Data(CellRef::new(99, 1)), window, 100, 10),
        Some(90)
    );
    assert_eq!(
        requested_window(GridKey::CtrlHome, ActiveCell::Header { col: 0 }, Window::new(40, 10), 100, 10),
        Some(0)
    );
}

/// The keyboard axis has the column only when the column is there.
#[test]
fn home_stops_at_the_first_schema_column_without_the_selection_column() {
    let at = ActiveCell::Data(CellRef::new(1, 1));
    assert_eq!(
        move_active(at, GridKey::Home, 2, 5, 3, false),
        ActiveCell::Data(CellRef::new(1, 0))
    );
    assert_eq!(
        move_active(at, GridKey::CtrlHome, 2, 5, 3, false),
        ActiveCell::Header { col: 0 }
    );
    // And left from the first column stays put rather than falling off.
    assert_eq!(
        move_active(ActiveCell::Data(CellRef::new(1, 0)), GridKey::ArrowLeft, 2, 5, 3, false),
        ActiveCell::Data(CellRef::new(1, 0))
    );
}

#[test]
fn a_range_reads_from_to() {
    let range = |values: &[Key]| {
        let formatted: Vec<String> = values.iter().map(|v| Plain.text(0, v)).collect();
        aggregate_text(Summary::Range, values, &formatted)
    };
    assert_eq!(range(&[Key::Int(1), Key::Int(9)]), "1 \u{2013} 9");
    assert_eq!(range(&[Key::Int(4), Key::Int(4)]), "4");
    assert_eq!(range(&[Key::Null, Key::Null]), "");
    assert_eq!(
        aggregate_text(Summary::Fn(AggregateFn::Count), &[Key::Int(3)], &["3".to_owned()]),
        "3"
    );
}

#[test]
fn a_count_is_written_plainly_whatever_the_format() {
    assert_eq!(
        aggregate_text(Summary::Fn(AggregateFn::Count), &[Key::Int(3)], &["€3.00".to_owned()]),
        "3"
    );
    assert_eq!(
        aggregate_text(Summary::Fn(AggregateFn::Sum), &[Key::Int(3)], &["€3.00".to_owned()]),
        "€3.00"
    );
    assert_eq!(aggregate_text(Summary::Fn(AggregateFn::Sum), &[Key::Null], &["".to_owned()]), "");
    assert_eq!(aggregate_text(Summary::Fn(AggregateFn::Sum), &[], &[]), "");
}

/// A sorted query carries one sort key per sort, in the reader's order.
#[test]
fn the_window_sort_keeps_the_reader_order() {
    let keys = query_sort(&[("customer".to_owned(), "asc"), ("amount".to_owned(), "desc")]);
    assert_eq!(
        keys,
        vec![
            SortKey { field: "customer".to_owned(), direction: "asc".to_owned(), nulls_last: false },
            SortKey { field: "amount".to_owned(), direction: "desc".to_owned(), nulls_last: false },
        ]
    );
}

/// A view's sort: the group keys first, NULL last, then the sort without
/// the keys already there.
#[test]
fn the_view_sort_leads_with_the_group_keys() {
    let keys = view_sort(
        &["country".to_owned(), "customer".to_owned()],
        &[("amount".to_owned(), "desc"), ("country".to_owned(), "desc")],
    );
    assert_eq!(
        keys,
        vec![
            SortKey { field: "country".to_owned(), direction: "asc".to_owned(), nulls_last: true },
            SortKey { field: "customer".to_owned(), direction: "asc".to_owned(), nulls_last: true },
            SortKey { field: "amount".to_owned(), direction: "desc".to_owned(), nulls_last: false },
        ]
    );
    // Ungrouped, the sort is the sort as it is.
    let plain = view_sort(&[], &[("amount".to_owned(), "desc")]);
    assert_eq!(
        plain,
        vec![SortKey { field: "amount".to_owned(), direction: "desc".to_owned(), nulls_last: false }]
    );
}

#[test]
fn the_page_size_is_positive_or_absent() {
    assert_eq!(parse_page_size(Some(" 25 ")), Some(25));
    assert_eq!(parse_page_size(Some("0")), None);
    assert_eq!(parse_page_size(Some("-3")), None);
    assert_eq!(parse_page_size(None), None);
}

#[test]
fn a_page_is_a_slice_of_the_result() {
    let p = Paging::page(2, 10, 25);
    assert_eq!(p, Paging { base: 20, rows: 5, size: Some(10) });
    assert_eq!(p.index(), 2);
    assert_eq!(Paging::count(25, 10), 3);
    assert_eq!(Paging::count(0, 10), 1);
    assert_eq!(Paging::count(25, 0), 1);
    let far = Paging::page(9, 10, 25);
    assert_eq!(far, Paging { base: 25, rows: 0, size: Some(10) });
    assert_eq!(Paging::whole(7), Paging { base: 0, rows: 7, size: None });
    assert_eq!(Paging::whole(7).index(), 0);
}

#[test]
fn the_density_falls_back_to_normal() {
    let compact = density_of(Some(" compact "));
    assert_eq!((compact.name, compact.row_height, compact.padding, compact.font_size), ("compact", 34, 10, "0.8125rem"));
    let normal = density_of(Some("dense"));
    assert_eq!((normal.name, normal.row_height, normal.padding), ("normal", DEFAULT_ROW_HEIGHT, 12));
    assert_eq!(density_of(None).name, "normal");
    assert_eq!(density_of(Some("comfortable")).row_height, 50);
}

#[test]
fn a_checkbox_says_its_state() {
    assert_eq!(check_glyph(CheckState::On), "\u{2713}");
    assert_eq!(check_glyph(CheckState::Mixed), "\u{2013}");
    assert_eq!(check_glyph(CheckState::Off), "");
    assert_eq!(CheckState::Mixed.as_str(), "mixed");
    assert_eq!(select_all_state(0, 10), CheckState::Off);
    assert_eq!(select_all_state(3, 0), CheckState::Off);
    assert_eq!(select_all_state(3, 10), CheckState::Mixed);
    assert_eq!(select_all_state(10, 10), CheckState::On);
}

#[test]
fn a_header_shows_its_sort() {
    assert_eq!(direction_glyph("asc"), ASCENDING_GLYPH);
    assert_eq!(direction_glyph("desc"), DESCENDING_GLYPH);
    assert_eq!(direction_glyph("sideways"), "");
    assert_eq!(aria_sort("asc"), "ascending");
    assert_eq!(aria_sort("desc"), "descending");
    assert_eq!(aria_sort(""), "none");
    let sorts = [("customer".to_owned(), "desc"), ("qty".to_owned(), "asc")];
    assert_eq!(sort_position(&sorts, "qty"), Some(1));
    assert_eq!(sort_position(&sorts, "amount"), None);
    assert_eq!(tabindex_for(true), "0");
    assert_eq!(tabindex_for(false), "-1");
}

#[test]
fn a_pool_row_sits_at_its_logical_place() {
    assert_eq!(row_style(3, 42), "transform: translateY(126px);");
    assert_eq!(row_style(0, 42), "transform: translateY(0px);");
}

#[test]
fn the_plain_text_is_the_projects_own_notation() {
    assert_eq!(Plain.text(0, &Key::Null), "", "NULL is not a word");
    assert_eq!(Plain.text(0, &Key::Text("-10.50".to_owned())), "-10.50");
    assert_eq!(Plain.text(0, &Key::Text("2026-03-09".to_owned())), "2026-03-09");
    assert_eq!(Plain.text(0, &Key::Bool(true)), "true");
    assert_eq!(plain_text(&Key::Int(-42)), "-42");
    assert_eq!(plain_text(&Key::Int(i64::MIN)), "-9223372036854775808");
}

#[test]
fn the_status_line_names_its_state() {
    assert_eq!(status_state(&GridStatus::Loading), "loading");
    assert_eq!(status_state(&GridStatus::Ready), "ready");
    assert_eq!(status_state(&GridStatus::Empty), "empty");
    assert_eq!(status_state(&GridStatus::Error("gone".to_owned())), "error");
}

#[test]
fn the_focus_target_is_found_by_its_data_attributes() {
    assert_eq!(
        selector(ActiveCell::SelectAll),
        "[data-select=\"all\"] > [part=\"select-mark\"]"
    );
    assert_eq!(
        selector(ActiveCell::Select { row: 12 }),
        "tr:has(td[data-row=\"12\"]) > td[data-select=\"row\"]"
    );
    assert_eq!(selector(ActiveCell::Header { col: 3 }), "th[data-col=\"3\"]");
    assert_eq!(
        selector(ActiveCell::Data(CellRef::new(40, 2))),
        "td[data-row=\"40\"][data-col=\"2\"]"
    );
}

#[test]
fn a_page_key_moves_by_what_the_viewport_shows() {
    assert_eq!(viewport_rows(420, 42), 10);
    assert_eq!(viewport_rows(20, 42), 1);
    assert_eq!(viewport_rows(0, 42), 12);
    assert_eq!(viewport_rows(-5, 42), 12);
}

#[test]
fn a_header_click_cycles_the_sort() {
    assert_eq!(next_sort(None, "qty"), Some(("qty".to_owned(), SortDirection::Asc)));
    assert_eq!(
        next_sort(Some(("qty", SortDirection::Asc)), "qty"),
        Some(("qty".to_owned(), SortDirection::Desc))
    );
    assert_eq!(next_sort(Some(("qty", SortDirection::Desc)), "qty"), None);
    assert_eq!(
        next_sort(Some(("qty", SortDirection::Desc)), "amount"),
        Some(("amount".to_owned(), SortDirection::Asc))
    );
}

fn status_texts() -> StatusTexts {
    StatusTexts {
        loading: "Loading \u{2026}".to_string(),
        empty: "No matches".to_string(),
        selection_cleared: "Selection cleared".to_string(),
    }
}

/// One sentence per state; an error is its own sentence.
#[test]
fn the_status_text_has_one_sentence_per_state() {
    let t = status_texts();
    assert_eq!(status_text(&t, &GridStatus::Loading, "1 match"), "Loading \u{2026}");
    assert_eq!(status_text(&t, &GridStatus::Ready, "1234 matches"), "1234 matches");
    assert_eq!(status_text(&t, &GridStatus::Empty, "0 matches"), "No matches");
    assert_eq!(
        status_text(&t, &GridStatus::Error("unknown source \"orders\"".to_string()), "0 matches"),
        "unknown source \"orders\""
    );
}

/// The notices ride along with the result line, each after a middle dot.
#[test]
fn the_status_line_carries_the_notices() {
    let t = status_texts();
    assert_eq!(status_line_counting(&t, &GridStatus::Ready, "3 matches", false, None), "3 matches");
    assert_eq!(
        status_line_counting(&t, &GridStatus::Ready, "3 matches", true, Some("qty hidden")),
        "3 matches \u{00B7} Selection cleared \u{00B7} qty hidden"
    );
    assert_eq!(
        status_line_counting(&t, &GridStatus::Empty, "0 matches", false, Some("qty hidden")),
        "No matches \u{00B7} qty hidden"
    );
}

/// Before any result every column is display text; a name that is no
/// column name is left out.
#[test]
fn the_initial_schema_is_all_text() {
    let schema = initial_schema(&["customer".to_string(), "qty".to_string(), "1bad".to_string()]);
    assert_eq!(
        schema.fields,
        vec![
            Field::new("customer".to_string(), DataType::Utf8),
            Field::new("qty".to_string(), DataType::Utf8),
        ]
    );
}
