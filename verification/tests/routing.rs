use opengrid_web_components::keys::{ActiveCell, CellRef, GridKey};
use opengrid_web_components::grouping::{Group, Grouping, Key};
use opengrid_web_components::routing::{
    active_group, on_filter_clear, on_key_down, ClickAction, ClickHits, Focus, GridContext,
    KeyAction, Modifiers,
};

fn plain() -> Modifiers {
    Modifiers { ctrl: false, meta: false, alt: false, shift: false }
}

fn grid(active: ActiveCell) -> GridContext {
    GridContext { active, column_menu: true, group: None, grouped: false }
}

fn data(row: u64, col: usize) -> ActiveCell {
    ActiveCell::Data(CellRef { row, col })
}

#[test]
fn the_operator_select_steps_and_clamps() {
    let ctx = grid(data(0, 0));
    let select = |selected, last| Focus::FilterSelect { selected, last };
    assert_eq!(on_key_down("ArrowDown", plain(), select(1, 3), &ctx), KeyAction::SelectOption(2));
    assert_eq!(on_key_down("ArrowDown", plain(), select(3, 3), &ctx), KeyAction::SelectOption(3));
    assert_eq!(on_key_down("ArrowUp", plain(), select(0, 3), &ctx), KeyAction::SelectOption(0));
    assert_eq!(on_key_down("ArrowUp", plain(), select(-1, 3), &ctx), KeyAction::SelectOption(0));
    assert_eq!(on_key_down("Home", plain(), select(2, 3), &ctx), KeyAction::SelectOption(0));
    assert_eq!(on_key_down("End", plain(), select(0, 3), &ctx), KeyAction::SelectOption(3));
    assert_eq!(on_key_down("Enter", plain(), select(0, 3), &ctx), KeyAction::ApplyFilters);
    assert_eq!(on_key_down("x", plain(), select(0, 3), &ctx), KeyAction::Native);
}

#[test]
fn the_filter_row_applies_on_enter_but_a_button_keeps_its_keys() {
    let ctx = grid(data(0, 0));
    assert_eq!(on_key_down("Enter", plain(), Focus::FilterField, &ctx), KeyAction::ApplyFilters);
    assert_eq!(on_key_down("Enter", plain(), Focus::FilterButton, &ctx), KeyAction::Native);
    assert_eq!(on_key_down("Enter", plain(), Focus::OwnControl, &ctx), KeyAction::Native);
    assert_eq!(on_key_down("ArrowDown", plain(), Focus::Search, &ctx), KeyAction::SearchKey);
    assert_eq!(on_key_down("ArrowDown", plain(), Focus::Menu, &ctx), KeyAction::MenuKey);
    assert_eq!(on_key_down("Enter", plain(), Focus::Editor, &ctx), KeyAction::CommitEdit);
    assert_eq!(on_key_down("Escape", plain(), Focus::Editor, &ctx), KeyAction::DiscardEdit);
    assert_eq!(on_key_down("ArrowLeft", plain(), Focus::Editor, &ctx), KeyAction::Native);
}

#[test]
fn a_header_opens_its_menu_and_moves_or_resizes() {
    let header = grid(ActiveCell::Header { col: 2 });
    let alt = Modifiers { alt: true, ..plain() };
    let ctrl = Modifiers { ctrl: true, ..plain() };
    let ctrl_shift = Modifiers { ctrl: true, shift: true, ..plain() };
    assert_eq!(on_key_down("ArrowDown", alt, Focus::Grid, &header), KeyAction::OpenMenu(2));
    assert_eq!(on_key_down("ContextMenu", plain(), Focus::Grid, &header), KeyAction::OpenMenu(2));
    let no_menu = GridContext { column_menu: false, ..header };
    assert_eq!(
        on_key_down("ContextMenu", plain(), Focus::Grid, &no_menu),
        KeyAction::Native
    );
    assert_eq!(
        on_key_down("ArrowLeft", ctrl, Focus::Grid, &header),
        KeyAction::MoveColumn { col: 2, by: -1 }
    );
    assert_eq!(
        on_key_down("ArrowRight", ctrl_shift, Focus::Grid, &header),
        KeyAction::ResizeColumn { col: 2, step: 24 }
    );
    assert_eq!(
        on_key_down("Enter", Modifiers { shift: true, ..plain() }, Focus::Grid, &header),
        KeyAction::ActivateHeader { shift: true }
    );
}

#[test]
fn a_group_header_opens_and_closes_with_the_treegrid_keys() {
    let closed = GridContext { group: Some((4, false)), grouped: true, ..grid(data(4, 0)) };
    let open = GridContext { group: Some((4, true)), ..closed };
    assert_eq!(on_key_down("Enter", plain(), Focus::Grid, &closed), KeyAction::ToggleGroup(4));
    assert_eq!(on_key_down("ArrowRight", plain(), Focus::Grid, &closed), KeyAction::ToggleGroup(4));
    assert_eq!(
        on_key_down("ArrowRight", plain(), Focus::Grid, &open),
        KeyAction::Move(GridKey::ArrowRight)
    );
    assert_eq!(on_key_down("ArrowLeft", plain(), Focus::Grid, &open), KeyAction::ToggleGroup(4));
    // Grouped, a row can be neither selected nor edited.
    let row = GridContext { group: None, ..closed };
    assert_eq!(on_key_down(" ", plain(), Focus::Grid, &row), KeyAction::Swallow);
    assert_eq!(
        on_key_down("a", Modifiers { ctrl: true, ..plain() }, Focus::Grid, &row),
        KeyAction::Swallow
    );
}

#[test]
fn the_rows_select_edit_and_move() {
    let cell = grid(data(7, 1));
    let shift = Modifiers { shift: true, ..plain() };
    assert_eq!(on_key_down("Enter", plain(), Focus::Grid, &cell), KeyAction::BeginEdit(CellRef { row: 7, col: 1 }));
    assert_eq!(
        on_key_down(" ", shift, Focus::Grid, &cell),
        KeyAction::ToggleRow { row: 7, extend: true }
    );
    assert_eq!(
        on_key_down("A", Modifiers { meta: true, ..plain() }, Focus::Grid, &cell),
        KeyAction::SelectAll
    );
    assert_eq!(on_key_down(" ", plain(), Focus::Grid, &grid(ActiveCell::SelectAll)), KeyAction::ToggleAll);
    assert_eq!(
        on_key_down("Enter", shift, Focus::Grid, &grid(ActiveCell::Select { row: 3 })),
        KeyAction::ToggleRow { row: 3, extend: false }
    );
    assert_eq!(on_key_down("Escape", plain(), Focus::Grid, &cell), KeyAction::EscapeToFirst);
    assert_eq!(
        on_key_down("Home", Modifiers { ctrl: true, ..plain() }, Focus::Grid, &cell),
        KeyAction::Move(GridKey::CtrlHome)
    );
    assert_eq!(on_key_down("End", plain(), Focus::Grid, &cell), KeyAction::Move(GridKey::End));
    assert_eq!(on_key_down("PageDown", plain(), Focus::Grid, &cell), KeyAction::Move(GridKey::PageDown));
    assert_eq!(on_key_down("Tab", plain(), Focus::Grid, &cell), KeyAction::Native);
}

#[test]
fn the_active_group_header_is_found_and_the_total_is_none() {
    let mut grouping: Grouping<Key> = Grouping::new(vec!["country".to_owned()]);
    grouping.set_groups(vec![
        Group::new(Key::Text("DE".to_owned()), 3),
        Group::new(Key::Text("FR".to_owned()), 1),
    ]);
    assert_eq!(active_group(&grouping, data(0, 0)), Some((0, false)));
    assert_eq!(active_group(&grouping, data(1, 2)), Some((1, false)));
    // The total is the last position and opens nothing.
    assert_eq!(active_group(&grouping, data(2, 0)), None);
    assert_eq!(active_group(&grouping, ActiveCell::Header { col: 0 }), None);
    grouping.toggle(&[Key::Text("DE".to_owned())]);
    assert_eq!(active_group(&grouping, data(0, 0)), Some((0, true)));
    // Now a data row of DE.
    assert_eq!(active_group(&grouping, data(1, 0)), None);
    assert_eq!(active_group(&grouping, ActiveCell::Select { row: 4 }), Some((4, false)));
}

fn no_hits() -> ClickHits {
    ClickHits {
        columns_toggle: None,
        pager: false,
        empty_reset: false,
        filter_row_switch_shown: false,
        suggestion: false,
        facets_switch: false,
        facet_pill: false,
        facets_reset: false,
        filter_row_switch: false,
        density: None,
        chip_remove: false,
        chips_clear: false,
        menu_item: false,
        menu_trigger: None,
        group_row: None,
        select_cell: None,
        grouped: false,
        filter_clear: false,
    }
}

/// The column list's toggle flips the list, whatever else the click is in.
#[test]
fn a_click_on_the_columns_toggle_flips_the_list() {
    let mut hits = no_hits();
    hits.columns_toggle = Some(true);
    hits.filter_clear = true;
    assert_eq!(on_filter_clear(&hits), ClickAction::ShowColumns(false));
    hits.columns_toggle = Some(false);
    assert_eq!(on_filter_clear(&hits), ClickAction::ShowColumns(true));
}

/// The empty state's reset refocuses the grid only when the filter row
/// cannot be switched on from the toolbar.
#[test]
fn the_empty_reset_refocuses_without_the_filter_row_switch() {
    let mut hits = no_hits();
    hits.empty_reset = true;
    assert_eq!(on_filter_clear(&hits), ClickAction::ResetFromEmpty { refocus: true });
    hits.filter_row_switch_shown = true;
    assert_eq!(on_filter_clear(&hits), ClickAction::ResetFromEmpty { refocus: false });
}

/// A selection cell toggles its row or all rows, but not in a grouped
/// grid, where the click falls through to the next control.
#[test]
fn a_selection_click_counts_only_ungrouped() {
    let mut hits = no_hits();
    hits.select_cell = Some(ActiveCell::Select { row: 7 });
    assert_eq!(on_filter_clear(&hits), ClickAction::ToggleRow(7));
    hits.select_cell = Some(ActiveCell::SelectAll);
    assert_eq!(on_filter_clear(&hits), ClickAction::ToggleAll);
    hits.grouped = true;
    assert_eq!(on_filter_clear(&hits), ClickAction::Nothing);
    hits.filter_clear = true;
    assert_eq!(on_filter_clear(&hits), ClickAction::ClearFilter);
}

/// Each control has its action: density, chips, menu, groups.
#[test]
fn each_control_has_its_action() {
    let mut hits = no_hits();
    hits.density = Some("compact".to_string());
    assert_eq!(on_filter_clear(&hits), ClickAction::SetDensity("compact".to_string()));
    let mut hits = no_hits();
    hits.menu_trigger = Some(2);
    hits.group_row = Some(5);
    assert_eq!(on_filter_clear(&hits), ClickAction::OpenColumnMenu(2));
    hits.menu_trigger = None;
    assert_eq!(on_filter_clear(&hits), ClickAction::ToggleGroup(5));
    assert_eq!(on_filter_clear(&no_hits()), ClickAction::Nothing);
}
