//! Where a key pressed inside the grid goes: the decision of the keydown
//! handler, from the key, the modifiers held and what has focus to the one
//! thing the grid does about it.
//!
//! The filter row's operator select is driven by the grid itself, so it
//! behaves the same on every platform; the pager, toolbar, chips, facets and
//! the empty state keep their native keys; the search field, an open column
//! menu and an open editor take the keys they need; everything else is the
//! grid matrix, with the column operations on a header cell, the treegrid
//! keys on a group header, and the selection keys on the rows.

use vstd::prelude::*;

use crate::columns::WIDTH_STEP;
use crate::grouping::{Grouping, Item, Place};
use crate::keys::{ActiveCell, CellRef, GridKey};
use crate::text::same_text;

verus! {

/// The modifier keys held with a key.
#[derive(Clone, Copy, Debug, PartialEq, Eq, Structural)]
pub struct Modifiers {
    pub ctrl: bool,
    pub meta: bool,
    pub alt: bool,
    pub shift: bool,
}

/// What has focus when the key goes down.
#[derive(Clone, Copy, Debug, PartialEq, Eq, Structural)]
pub enum Focus {
    /// The operator select of the filter row, with its selected index (`-1`
    /// for none) and its last index.
    FilterSelect { selected: i32, last: i32 },
    /// The clear button of the filter row.
    FilterButton,
    /// Another field of the filter row.
    FilterField,
    /// A control outside the grid table that keeps its own keys: the pager,
    /// the toolbar, the chips, the facets or the empty state.
    OwnControl,
    /// The search field.
    Search,
    /// An open column menu.
    Menu,
    /// An open cell editor.
    Editor,
    /// The grid matrix.
    Grid,
}

/// What the grid matrix needs to know to route a key.
#[derive(Clone, Copy, Debug)]
pub struct GridContext {
    /// The cell with the roving tabindex.
    pub active: ActiveCell,
    /// Whether the column menu is on.
    pub column_menu: bool,
    /// When the active row is a group header: its display position and
    /// whether it is open.
    pub group: Option<(u64, bool)>,
    /// Whether the grid is grouped.
    pub grouped: bool,
}

/// What the grid does about a key.
#[derive(Clone, Copy, Debug, PartialEq, Eq, Structural)]
pub enum KeyAction {
    /// Nothing: the key keeps its native meaning.
    Native,
    /// Select option `index` of the operator select.
    SelectOption(i32),
    /// Apply the filter row.
    ApplyFilters,
    /// The search field's own keys.
    SearchKey,
    /// The open menu's own keys.
    MenuKey,
    /// Close the editor and keep the edit.
    CommitEdit,
    /// Close the editor and drop the edit.
    DiscardEdit,
    /// Open the menu of a column.
    OpenMenu(usize),
    /// Make a column wider (`step > 0`) or narrower.
    ResizeColumn { col: usize, step: i32 },
    /// Move a column one place left (`by == -1`) or right.
    MoveColumn { col: usize, by: i32 },
    /// Open or close the group header at a display position.
    ToggleGroup(u64),
    /// Keep the key from the page and do nothing else.
    Swallow,
    /// Select every matching row.
    SelectAll,
    /// Select every matching row, or clear the selection when all are.
    ToggleAll,
    /// Select or deselect a row; `extend` continues a range from the anchor.
    ToggleRow { row: u64, extend: bool },
    /// Sort by the active header; `shift` adds it to the sort.
    ActivateHeader { shift: bool },
    /// Open the editor on a cell.
    BeginEdit(CellRef),
    /// Go back to the first cell.
    EscapeToFirst,
    /// Move the active cell.
    Move(GridKey),
}

/// Whether `key` is the letter `a`, either case.
pub open spec fn is_letter_a(key: Seq<char>) -> bool {
    key == "a"@ || key == "A"@
}

/// The operator select's own keys: the arrows step, `Home` and `End` jump,
/// and `Enter` applies the filter row.
pub open spec fn select_action(key: Seq<char>, selected: i32, last: i32) -> KeyAction {
    if key == "ArrowDown"@ {
        KeyAction::SelectOption(if selected < last { (selected + 1) as i32 } else { last })
    } else if key == "ArrowUp"@ {
        KeyAction::SelectOption(if selected > 0 { (selected - 1) as i32 } else { 0 })
    } else if key == "Home"@ {
        KeyAction::SelectOption(0)
    } else if key == "End"@ {
        KeyAction::SelectOption(last)
    } else if key == "Enter"@ {
        KeyAction::ApplyFilters
    } else {
        KeyAction::Native
    }
}

/// The keys of the grid matrix.
pub open spec fn grid_action(key: Seq<char>, m: Modifiers, c: GridContext) -> KeyAction {
    let opens_menu = (m.alt && key == "ArrowDown"@) || (m.shift && key == "F10"@) || key
        == "ContextMenu"@;
    let command = m.ctrl || m.meta;
    let on_first = match c.active {
        ActiveCell::Data(cell) => cell.col == 0,
        _ => false,
    };
    let toggles = match c.group {
        Some((_, expanded)) => if key == "Enter"@ || key == " "@ {
            true
        } else if key == "ArrowRight"@ {
            on_first && !expanded
        } else if key == "ArrowLeft"@ {
            on_first && expanded
        } else {
            false
        },
        None => false,
    };
    if opens_menu && c.column_menu && c.active is Header {
        KeyAction::OpenMenu(c.active->col)
    } else if command && (key == "ArrowLeft"@ || key == "ArrowRight"@) && c.active is Header {
        let by: int = if key == "ArrowLeft"@ {
            -1
        } else {
            1
        };
        if m.shift {
            KeyAction::ResizeColumn { col: c.active->col, step: (by * WIDTH_STEP) as i32 }
        } else {
            KeyAction::MoveColumn { col: c.active->col, by: by as i32 }
        }
    } else if toggles && !command {
        KeyAction::ToggleGroup(c.group->Some_0.0)
    } else if c.grouped && (key == "Enter"@ || key == " "@ || (is_letter_a(key) && command)) {
        KeyAction::Swallow
    } else if is_letter_a(key) && command {
        KeyAction::SelectAll
    } else if key == "Enter"@ {
        match c.active {
            ActiveCell::SelectAll => KeyAction::ToggleAll,
            ActiveCell::Select { row } => KeyAction::ToggleRow { row, extend: false },
            ActiveCell::Header { .. } => KeyAction::ActivateHeader { shift: m.shift },
            ActiveCell::Data(cell) => KeyAction::BeginEdit(cell),
        }
    } else if key == " "@ {
        match c.active {
            ActiveCell::SelectAll => KeyAction::ToggleAll,
            ActiveCell::Select { row } => KeyAction::ToggleRow { row, extend: m.shift },
            ActiveCell::Header { .. } => KeyAction::ActivateHeader { shift: m.shift },
            ActiveCell::Data(cell) => KeyAction::ToggleRow { row: cell.row, extend: m.shift },
        }
    } else if key == "Escape"@ {
        KeyAction::EscapeToFirst
    } else if key == "ArrowUp"@ {
        KeyAction::Move(GridKey::ArrowUp)
    } else if key == "ArrowDown"@ {
        KeyAction::Move(GridKey::ArrowDown)
    } else if key == "ArrowLeft"@ {
        KeyAction::Move(GridKey::ArrowLeft)
    } else if key == "ArrowRight"@ {
        KeyAction::Move(GridKey::ArrowRight)
    } else if key == "Home"@ {
        KeyAction::Move(if m.ctrl { GridKey::CtrlHome } else { GridKey::Home })
    } else if key == "End"@ {
        KeyAction::Move(if m.ctrl { GridKey::CtrlEnd } else { GridKey::End })
    } else if key == "PageUp"@ {
        KeyAction::Move(GridKey::PageUp)
    } else if key == "PageDown"@ {
        KeyAction::Move(GridKey::PageDown)
    } else {
        KeyAction::Native
    }
}

/// Where a key goes, by what has focus.
pub open spec fn key_action_spec(key: Seq<char>, m: Modifiers, focus: Focus, c: GridContext) -> KeyAction {
    match focus {
        Focus::FilterSelect { selected, last } => select_action(key, selected, last),
        Focus::FilterButton => KeyAction::Native,
        Focus::FilterField => if key == "Enter"@ {
            KeyAction::ApplyFilters
        } else {
            KeyAction::Native
        },
        Focus::OwnControl => KeyAction::Native,
        Focus::Search => KeyAction::SearchKey,
        Focus::Menu => KeyAction::MenuKey,
        Focus::Editor => if key == "Enter"@ {
            KeyAction::CommitEdit
        } else if key == "Escape"@ {
            KeyAction::DiscardEdit
        } else {
            KeyAction::Native
        },
        Focus::Grid => grid_action(key, m, c),
    }
}

/// The operator select's own keys.
fn select_key(key: &str, selected: i32, last: i32) -> (a: KeyAction)
    ensures
        a == select_action(key@, selected, last),
{
    if same_text(key, "ArrowDown") {
        KeyAction::SelectOption(if selected < last { selected + 1 } else { last })
    } else if same_text(key, "ArrowUp") {
        KeyAction::SelectOption(if selected > 0 { selected - 1 } else { 0 })
    } else if same_text(key, "Home") {
        KeyAction::SelectOption(0)
    } else if same_text(key, "End") {
        KeyAction::SelectOption(last)
    } else if same_text(key, "Enter") {
        KeyAction::ApplyFilters
    } else {
        KeyAction::Native
    }
}

/// The keys of the grid matrix.
fn grid_key(key: &str, m: Modifiers, c: &GridContext) -> (a: KeyAction)
    ensures
        a == grid_action(key@, m, *c),
{
    let opens_menu = (m.alt && same_text(key, "ArrowDown")) || (m.shift && same_text(key, "F10"))
        || same_text(key, "ContextMenu");
    let command = m.ctrl || m.meta;
    let on_first = match c.active {
        ActiveCell::Data(cell) => cell.col == 0,
        _ => false,
    };
    let enter = same_text(key, "Enter");
    let space = same_text(key, " ");
    let left = same_text(key, "ArrowLeft");
    let right = same_text(key, "ArrowRight");
    let toggles = match c.group {
        Some((_, expanded)) => if enter || space {
            true
        } else if right {
            on_first && !expanded
        } else if left {
            on_first && expanded
        } else {
            false
        },
        None => false,
    };
    let letter_a = same_text(key, "a") || same_text(key, "A");
    if let ActiveCell::Header { col } = c.active {
        if opens_menu && c.column_menu {
            return KeyAction::OpenMenu(col);
        }
        if command && (left || right) {
            let by: i32 = if left {
                -1
            } else {
                1
            };
            if m.shift {
                return KeyAction::ResizeColumn { col, step: by * (WIDTH_STEP as i32) };
            }
            return KeyAction::MoveColumn { col, by };
        }
    }
    if toggles && !command {
        if let Some((position, _)) = c.group {
            return KeyAction::ToggleGroup(position);
        }
    }
    if c.grouped && (enter || space || (letter_a && command)) {
        return KeyAction::Swallow;
    }
    if letter_a && command {
        return KeyAction::SelectAll;
    }
    if enter {
        return match c.active {
            ActiveCell::SelectAll => KeyAction::ToggleAll,
            ActiveCell::Select { row } => KeyAction::ToggleRow { row, extend: false },
            ActiveCell::Header { .. } => KeyAction::ActivateHeader { shift: m.shift },
            ActiveCell::Data(cell) => KeyAction::BeginEdit(cell),
        };
    }
    if space {
        return match c.active {
            ActiveCell::SelectAll => KeyAction::ToggleAll,
            ActiveCell::Select { row } => KeyAction::ToggleRow { row, extend: m.shift },
            ActiveCell::Header { .. } => KeyAction::ActivateHeader { shift: m.shift },
            ActiveCell::Data(cell) => KeyAction::ToggleRow { row: cell.row, extend: m.shift },
        };
    }
    if same_text(key, "Escape") {
        KeyAction::EscapeToFirst
    } else if same_text(key, "ArrowUp") {
        KeyAction::Move(GridKey::ArrowUp)
    } else if same_text(key, "ArrowDown") {
        KeyAction::Move(GridKey::ArrowDown)
    } else if left {
        KeyAction::Move(GridKey::ArrowLeft)
    } else if right {
        KeyAction::Move(GridKey::ArrowRight)
    } else if same_text(key, "Home") {
        KeyAction::Move(
            if m.ctrl {
                GridKey::CtrlHome
            } else {
                GridKey::Home
            },
        )
    } else if same_text(key, "End") {
        KeyAction::Move(
            if m.ctrl {
                GridKey::CtrlEnd
            } else {
                GridKey::End
            },
        )
    } else if same_text(key, "PageUp") {
        KeyAction::Move(GridKey::PageUp)
    } else if same_text(key, "PageDown") {
        KeyAction::Move(GridKey::PageDown)
    } else {
        KeyAction::Native
    }
}

/// Where a key pressed in the grid goes: what the grid does about `key`,
/// held with `modifiers`, when `focus` has focus and the grid matrix stands
/// as `context` says.
pub fn on_key_down(key: &str, modifiers: Modifiers, focus: Focus, context: &GridContext) -> (a:
    KeyAction)
    ensures
        a == key_action_spec(key@, modifiers, focus, *context),
{
    match focus {
        Focus::FilterSelect { selected, last } => select_key(key, selected, last),
        Focus::FilterButton => KeyAction::Native,
        Focus::FilterField => if same_text(key, "Enter") {
            KeyAction::ApplyFilters
        } else {
            KeyAction::Native
        },
        Focus::OwnControl => KeyAction::Native,
        Focus::Search => KeyAction::SearchKey,
        Focus::Menu => KeyAction::MenuKey,
        Focus::Editor => if same_text(key, "Enter") {
            KeyAction::CommitEdit
        } else if same_text(key, "Escape") {
            KeyAction::DiscardEdit
        } else {
            KeyAction::Native
        },
        Focus::Grid => grid_key(key, modifiers, context),
    }
}

/// Whether position `pos` of a grouped list is a group header, and if so
/// whether the group is open.
pub open spec fn header_state<V>(g: Grouping<V>, pos: int) -> Option<bool> {
    match g.place(pos) {
        Some(Place::Header1 { group }) => Some(g.is_open(seq![g.group_seq()[group].key@])),
        Some(Place::Header2 { group, child }) => {
            let parent = g.group_seq()[group];
            Some(g.child_size(parent.key@, parent.children->Some_0@[child]) > 1)
        },
        _ => None,
    }
}

/// The group header the active cell stands on, if it stands on one: its
/// display position and whether the group is open. The total opens
/// nothing, so it is no group header here.
pub fn active_group<V: Clone>(grouping: &Grouping<V>, active: ActiveCell) -> (r: Option<(u64, bool)>)
    requires
        grouping.wf(),
    ensures
        r == match active.row_spec() {
            None => None,
            Some(row) => match header_state(*grouping, row as int) {
                Some(open) => Some((row, open)),
                None => None,
            },
        },
{
    match active.row() {
        None => None,
        Some(row) => match grouping.item_at(row) {
            Some(Item::Group { expanded, .. }) => Some((row, expanded)),
            _ => None,
        },
    }
}

/// What a click inside the grid landed on, as the page found it: for each
/// kind of control, whether the click is inside one, with what it carries.
#[derive(Clone, Debug)]
pub struct ClickHits {
    /// The column list's toggle, with whether the list is open now.
    pub columns_toggle: Option<bool>,
    /// A paging button took the click.
    pub pager: bool,
    /// The empty state's reset.
    pub empty_reset: bool,
    /// Whether the toolbar has its filter-row switch.
    pub filter_row_switch_shown: bool,
    /// A suggestion of the search field.
    pub suggestion: bool,
    /// The facet sidebar's switch in the toolbar.
    pub facets_switch: bool,
    /// A facet's pill.
    pub facet_pill: bool,
    /// The facets' reset.
    pub facets_reset: bool,
    /// The toolbar's filter-row switch.
    pub filter_row_switch: bool,
    /// A density button, with its density.
    pub density: Option<String>,
    /// A chip's remove button.
    pub chip_remove: bool,
    /// The chips' "remove all".
    pub chips_clear: bool,
    /// An entry of the open column menu.
    pub menu_item: bool,
    /// A column menu's trigger, with its column.
    pub menu_trigger: Option<usize>,
    /// A group row, with the position of its header.
    pub group_row: Option<u64>,
    /// A cell of the selection column, with the cell it is.
    pub select_cell: Option<ActiveCell>,
    /// Whether the grid is grouped.
    pub grouped: bool,
    /// The filter row's clear button.
    pub filter_clear: bool,
}

/// What the grid does about a click.
#[derive(Clone, Debug, PartialEq, Eq)]
pub enum ClickAction {
    /// Open the column list (`true`) or close it.
    ShowColumns(bool),
    /// Nothing more: the pager has moved.
    Paged,
    /// Remove every filter; put the focus on the first header when the
    /// filter row cannot be switched on from the toolbar.
    ResetFromEmpty { refocus: bool },
    TakeSuggestion,
    ToggleFacets,
    ToggleFacetValue,
    ResetFacets,
    ToggleFilterRow,
    SetDensity(String),
    RemoveChip,
    ClearChips,
    ActivateMenuItem,
    OpenColumnMenu(usize),
    ToggleGroup(u64),
    ToggleAll,
    ToggleRow(u64),
    /// Empty every value of the filter row and apply it.
    ClearFilter,
    Nothing,
}

/// The action of a click: the first control, in this order, that the click
/// is inside. A selection cell counts only in an ungrouped grid, and only
/// for the select-all header or a row's cell.
pub open spec fn click_spec(h: ClickHits) -> ClickAction {
    if h.columns_toggle is Some {
        ClickAction::ShowColumns(!h.columns_toggle->0)
    } else if h.pager {
        ClickAction::Paged
    } else if h.empty_reset {
        ClickAction::ResetFromEmpty { refocus: !h.filter_row_switch_shown }
    } else if h.suggestion {
        ClickAction::TakeSuggestion
    } else if h.facets_switch {
        ClickAction::ToggleFacets
    } else if h.facet_pill {
        ClickAction::ToggleFacetValue
    } else if h.facets_reset {
        ClickAction::ResetFacets
    } else if h.filter_row_switch {
        ClickAction::ToggleFilterRow
    } else if h.density is Some {
        ClickAction::SetDensity(h.density->0)
    } else if h.chip_remove {
        ClickAction::RemoveChip
    } else if h.chips_clear {
        ClickAction::ClearChips
    } else if h.menu_item {
        ClickAction::ActivateMenuItem
    } else if h.menu_trigger is Some {
        ClickAction::OpenColumnMenu(h.menu_trigger->0)
    } else if h.group_row is Some {
        ClickAction::ToggleGroup(h.group_row->0)
    } else if !h.grouped && h.select_cell == Some(ActiveCell::SelectAll) {
        ClickAction::ToggleAll
    } else if !h.grouped && h.select_cell matches Some(ActiveCell::Select { row }) {
        ClickAction::ToggleRow(h.select_cell->0->row)
    } else if h.filter_clear {
        ClickAction::ClearFilter
    } else {
        ClickAction::Nothing
    }
}

/// Decides what a click inside the grid does.
pub fn on_filter_clear(hits: &ClickHits) -> (action: ClickAction)
    ensures
        action == click_spec(*hits),
{
    if let Some(open) = hits.columns_toggle {
        return ClickAction::ShowColumns(!open);
    }
    if hits.pager {
        return ClickAction::Paged;
    }
    if hits.empty_reset {
        return ClickAction::ResetFromEmpty { refocus: !hits.filter_row_switch_shown };
    }
    if hits.suggestion {
        return ClickAction::TakeSuggestion;
    }
    if hits.facets_switch {
        return ClickAction::ToggleFacets;
    }
    if hits.facet_pill {
        return ClickAction::ToggleFacetValue;
    }
    if hits.facets_reset {
        return ClickAction::ResetFacets;
    }
    if hits.filter_row_switch {
        return ClickAction::ToggleFilterRow;
    }
    if let Some(density) = &hits.density {
        return ClickAction::SetDensity(density.clone());
    }
    if hits.chip_remove {
        return ClickAction::RemoveChip;
    }
    if hits.chips_clear {
        return ClickAction::ClearChips;
    }
    if hits.menu_item {
        return ClickAction::ActivateMenuItem;
    }
    if let Some(col) = hits.menu_trigger {
        return ClickAction::OpenColumnMenu(col);
    }
    if let Some(position) = hits.group_row {
        return ClickAction::ToggleGroup(position);
    }
    if !hits.grouped {
        match hits.select_cell {
            Some(ActiveCell::SelectAll) => return ClickAction::ToggleAll,
            Some(ActiveCell::Select { row }) => return ClickAction::ToggleRow(row),
            _ => {},
        }
    }
    if hits.filter_clear {
        ClickAction::ClearFilter
    } else {
        ClickAction::Nothing
    }
}

/// The names of the keys the grid matrix tells apart.
proof fn lemma_key_names()
    ensures
        "End"@ != "ArrowDown"@ && "End"@ != "F10"@ && "End"@ != "ContextMenu"@,
        "End"@ != "ArrowLeft"@ && "End"@ != "ArrowRight"@ && "End"@ != "ArrowUp"@,
        "End"@ != "Enter"@ && "End"@ != " "@ && "End"@ != "a"@ && "End"@ != "A"@,
        "End"@ != "Escape"@ && "End"@ != "Home"@,
        "Home"@ != "ArrowDown"@ && "Home"@ != "F10"@ && "Home"@ != "ContextMenu"@,
        "Home"@ != "ArrowLeft"@ && "Home"@ != "ArrowRight"@ && "Home"@ != "ArrowUp"@,
        "Home"@ != "Enter"@ && "Home"@ != " "@ && "Home"@ != "a"@ && "Home"@ != "A"@,
        "Home"@ != "Escape"@,
{
    reveal_strlit("End");
    reveal_strlit("Home");
    reveal_strlit("ArrowDown");
    reveal_strlit("F10");
    reveal_strlit("ContextMenu");
    reveal_strlit("ArrowLeft");
    reveal_strlit("ArrowRight");
    reveal_strlit("ArrowUp");
    reveal_strlit("Enter");
    reveal_strlit(" ");
    reveal_strlit("a");
    reveal_strlit("A");
    reveal_strlit("Escape");
    assert("End"@.len() != "ArrowDown"@.len());
    assert("End"@[0] != "F10"@[0]);
    assert("End"@.len() != "ContextMenu"@.len());
    assert("End"@.len() != "ArrowLeft"@.len());
    assert("End"@.len() != "ArrowRight"@.len());
    assert("End"@.len() != "ArrowUp"@.len());
    assert("End"@.len() != "Enter"@.len());
    assert("End"@.len() != " "@.len());
    assert("End"@.len() != "a"@.len());
    assert("End"@.len() != "A"@.len());
    assert("End"@.len() != "Escape"@.len());
    assert("End"@.len() != "Home"@.len());
    assert("Home"@.len() != "ArrowDown"@.len());
    assert("Home"@.len() != "F10"@.len());
    assert("Home"@.len() != "ContextMenu"@.len());
    assert("Home"@.len() != "ArrowLeft"@.len());
    assert("Home"@.len() != "ArrowRight"@.len());
    assert("Home"@.len() != "ArrowUp"@.len());
    assert("Home"@.len() != "Enter"@.len());
    assert("Home"@.len() != " "@.len());
    assert("Home"@.len() != "a"@.len());
    assert("Home"@.len() != "A"@.len());
    assert("Home"@.len() != "Escape"@.len());
}

/// `Home` and `End` in the grid matrix always move, whatever cell is active
/// and whatever else is held: without Ctrl to the first or last cell of the
/// row, with Ctrl to the first cell of the grid or the last cell of its last
/// row. Ctrl alone decides which.
pub proof fn lemma_home_end_move(m: Modifiers, c: GridContext)
    ensures
        key_action_spec("End"@, m, Focus::Grid, c) == KeyAction::Move(
            if m.ctrl {
                GridKey::CtrlEnd
            } else {
                GridKey::End
            },
        ),
        key_action_spec("Home"@, m, Focus::Grid, c) == KeyAction::Move(
            if m.ctrl {
                GridKey::CtrlHome
            } else {
                GridKey::Home
            },
        ),
{
    lemma_key_names();
}

/// The names of the moving keys are apart from the others.
proof fn lemma_move_key_names()
    ensures
        "PageUp"@ != "ArrowDown"@ && "PageUp"@ != "F10"@ && "PageUp"@ != "ContextMenu"@
            && "PageUp"@ != "ArrowLeft"@ && "PageUp"@ != "ArrowRight"@ && "PageUp"@ != "ArrowUp"@
            && "PageUp"@ != "Enter"@ && "PageUp"@ != " "@ && "PageUp"@ != "a"@ && "PageUp"@ != "A"@
            && "PageUp"@ != "Escape"@ && "PageUp"@ != "Home"@ && "PageUp"@ != "End"@,
        "PageDown"@ != "ArrowDown"@ && "PageDown"@ != "F10"@ && "PageDown"@ != "ContextMenu"@
            && "PageDown"@ != "ArrowLeft"@ && "PageDown"@ != "ArrowRight"@ && "PageDown"@
            != "ArrowUp"@ && "PageDown"@ != "Enter"@ && "PageDown"@ != " "@ && "PageDown"@ != "a"@
            && "PageDown"@ != "A"@ && "PageDown"@ != "Escape"@ && "PageDown"@ != "Home"@
            && "PageDown"@ != "End"@ && "PageDown"@ != "PageUp"@,
        "Escape"@ != "ArrowDown"@ && "Escape"@ != "F10"@ && "Escape"@ != "ContextMenu"@
            && "Escape"@ != "ArrowLeft"@ && "Escape"@ != "ArrowRight"@ && "Escape"@ != "Enter"@
            && "Escape"@ != " "@ && "Escape"@ != "a"@ && "Escape"@ != "A"@,
        "ArrowUp"@ != "ArrowDown"@ && "ArrowUp"@ != "F10"@ && "ArrowUp"@ != "ContextMenu"@
            && "ArrowUp"@ != "ArrowLeft"@ && "ArrowUp"@ != "ArrowRight"@ && "ArrowUp"@ != "Enter"@
            && "ArrowUp"@ != " "@ && "ArrowUp"@ != "a"@ && "ArrowUp"@ != "A"@ && "ArrowUp"@
            != "Escape"@,
        "ArrowDown"@ != "F10"@ && "ArrowDown"@ != "ContextMenu"@ && "ArrowDown"@ != "ArrowLeft"@
            && "ArrowDown"@ != "ArrowRight"@ && "ArrowDown"@ != "Enter"@ && "ArrowDown"@ != " "@
            && "ArrowDown"@ != "a"@ && "ArrowDown"@ != "A"@ && "ArrowDown"@ != "Escape"@,
{
    reveal_strlit("PageUp");
    reveal_strlit("PageDown");
    reveal_strlit("End");
    reveal_strlit("Home");
    reveal_strlit("ArrowDown");
    reveal_strlit("F10");
    reveal_strlit("ContextMenu");
    reveal_strlit("ArrowLeft");
    reveal_strlit("ArrowRight");
    reveal_strlit("ArrowUp");
    reveal_strlit("Enter");
    reveal_strlit(" ");
    reveal_strlit("a");
    reveal_strlit("A");
    reveal_strlit("Escape");
    assert("PageUp"@.len() != "ArrowDown"@.len() && "PageUp"@.len() != "F10"@.len());
    assert("PageUp"@.len() != "ContextMenu"@.len() && "PageUp"@.len() != "ArrowLeft"@.len());
    assert("PageUp"@.len() != "ArrowRight"@.len() && "PageUp"@.len() != "ArrowUp"@.len());
    assert("PageUp"@.len() != "Enter"@.len() && "PageUp"@.len() != " "@.len());
    assert("PageUp"@.len() != "a"@.len() && "PageUp"@.len() != "A"@.len());
    assert("PageUp"@[0] != "Escape"@[0] && "PageUp"@.len() != "Home"@.len());
    assert("PageUp"@.len() != "End"@.len());
    assert("PageDown"@.len() != "ArrowDown"@.len() && "PageDown"@.len() != "F10"@.len());
    assert("PageDown"@.len() != "ContextMenu"@.len() && "PageDown"@.len() != "ArrowLeft"@.len());
    assert("PageDown"@.len() != "ArrowRight"@.len() && "PageDown"@.len() != "ArrowUp"@.len());
    assert("PageDown"@.len() != "Enter"@.len() && "PageDown"@.len() != " "@.len());
    assert("PageDown"@.len() != "a"@.len() && "PageDown"@.len() != "A"@.len());
    assert("PageDown"@.len() != "Escape"@.len() && "PageDown"@.len() != "Home"@.len());
    assert("PageDown"@.len() != "End"@.len() && "PageDown"@.len() != "PageUp"@.len());
    assert("Escape"@.len() != "ArrowDown"@.len() && "Escape"@.len() != "F10"@.len());
    assert("Escape"@.len() != "ContextMenu"@.len() && "Escape"@.len() != "ArrowLeft"@.len());
    assert("Escape"@.len() != "ArrowRight"@.len() && "Escape"@.len() != "Enter"@.len());
    assert("Escape"@.len() != " "@.len() && "Escape"@.len() != "a"@.len() && "Escape"@.len() != "A"@.len());
    assert("ArrowUp"@.len() != "ArrowDown"@.len() && "ArrowUp"@.len() != "F10"@.len());
    assert("ArrowUp"@.len() != "ContextMenu"@.len() && "ArrowUp"@.len() != "ArrowLeft"@.len());
    assert("ArrowUp"@.len() != "ArrowRight"@.len() && "ArrowUp"@.len() != "Enter"@.len());
    assert("ArrowUp"@.len() != " "@.len() && "ArrowUp"@.len() != "a"@.len() && "ArrowUp"@.len() != "A"@.len());
    assert("ArrowUp"@.len() != "Escape"@.len());
    assert("ArrowDown"@.len() != "F10"@.len() && "ArrowDown"@.len() != "ContextMenu"@.len());
    assert("ArrowDown"@[5] != "ArrowLeft"@[5] && "ArrowDown"@.len() != "ArrowRight"@.len());
    assert("ArrowDown"@.len() != "Enter"@.len() && "ArrowDown"@.len() != " "@.len());
    assert("ArrowDown"@.len() != "a"@.len() && "ArrowDown"@.len() != "A"@.len());
    assert("ArrowDown"@.len() != "Escape"@.len());
}

/// The other moving keys of the grid matrix: `PageUp` and `PageDown` always
/// move by a viewport and `Escape` always goes back to the first cell;
/// `ArrowUp` always moves up, and `ArrowDown` moves down unless, with Alt
/// held on a header cell, it opens the column menu.
pub proof fn lemma_grid_moves(m: Modifiers, c: GridContext)
    ensures
        key_action_spec("PageUp"@, m, Focus::Grid, c) == KeyAction::Move(GridKey::PageUp),
        key_action_spec("PageDown"@, m, Focus::Grid, c) == KeyAction::Move(GridKey::PageDown),
        key_action_spec("Escape"@, m, Focus::Grid, c) == KeyAction::EscapeToFirst,
        key_action_spec("ArrowUp"@, m, Focus::Grid, c) == KeyAction::Move(GridKey::ArrowUp),
        !(m.alt && c.column_menu && c.active is Header) ==> key_action_spec(
            "ArrowDown"@,
            m,
            Focus::Grid,
            c,
        ) == KeyAction::Move(GridKey::ArrowDown),
{
    lemma_move_key_names();
}

} // verus!
