use opengrid_web_components::display::{ASCENDING_GLYPH, DESCENDING_GLYPH};
use opengrid_web_components::filters::DataType;
use opengrid_web_components::grid_patch::{
    patch_grid, FilterColumnNodes, GridFrame, GridNodes, GroupCell, GroupRow, HeaderNodes,
    PagerNodes, RowNodes, SlotContent,
};
use opengrid_web_components::keys::{ActiveCell, CellRef};
use opengrid_web_components::patch::{Patch, PatchList, ROOT};
use opengrid_web_components::query::GridStatus;
use opengrid_web_components::summary::{AggregateFn, Summary};
use opengrid_web_components::window::{assign_pool, window_rows, Paging, DEFAULT_ROW_HEIGHT};

/// The nodes of a skeleton with `cols` columns and `pool` rows, numbered
/// from 100 on.
fn skeleton(cols: usize, pool: usize, selection: bool, operators: usize) -> GridNodes {
    let mut next = 100u64;
    let mut id = move || {
        next += 1;
        next
    };
    let table = id();
    let tbody = id();
    let status = id();
    let select_all_mark = if selection { Some(id()) } else { None };
    let filter_columns = (0..cols)
        .map(|_| FilterColumnNodes {
            select: id(),
            options: (0..operators).map(|_| id()).collect(),
            input: id(),
        })
        .collect();
    let header_cells = (0..cols)
        .map(|_| HeaderNodes {
            cell: id(),
            direction: id(),
            index: id(),
        })
        .collect();
    let rows = (0..pool)
        .map(|_| RowNodes {
            row: id(),
            select: if selection { Some((id(), id())) } else { None },
            cells: (0..cols).map(|_| id()).collect(),
        })
        .collect();
    let pager = PagerNodes {
        container: id(),
        first: id(),
        previous: id(),
        next: id(),
        last: id(),
        label: id(),
    };
    GridNodes {
        table,
        tbody,
        status,
        select_all_mark,
        filter_columns,
        header_cells,
        rows,
        pager,
    }
}

fn operators() -> Vec<String> {
    ["eq", "neq", "contains", "lt", "is_null", "is_not_null"]
        .iter()
        .map(|op| op.to_string())
        .collect()
}

fn fields(names: &[&str]) -> Vec<(String, DataType, bool)> {
    names
        .iter()
        .map(|name| (name.to_string(), DataType::Utf8, true))
        .collect()
}

/// A data row showing `texts`.
fn data(texts: &[&str]) -> SlotContent {
    SlotContent::Data {
        selected: false,
        changed: vec![false; texts.len()],
        editing: None,
        texts: texts.iter().map(|t| t.to_string()).collect(),
    }
}

/// A plain, ungrouped, virtualizing frame over `total` rows.
fn frame<'a>(
    names: &[&str],
    sorts: &'a [(String, &'a str)],
    slots: Vec<Option<u64>>,
    total: u64,
    row_height: u64,
    active: ActiveCell,
    pinned_slot: Option<usize>,
) -> GridFrame<'a> {
    let contents = slots
        .iter()
        .map(|slot| match slot {
            Some(row) => {
                let first = format!("row {row}");
                data(&[first.as_str(), "1"][..names.len().min(2)])
            }
            None => data(&[]),
        })
        .collect();
    GridFrame {
        grouped: false,
        levels: 0,
        paging: Paging::whole(total),
        total_count: total,
        page_label: String::new(),
        row_height,
        selected: 0,
        status: GridStatus::Ready,
        status_text: if total == 1 {
            "1 match".to_string()
        } else {
            format!("{total} matches")
        },
        lang: String::new(),
        fields: fields(names),
        operators: operators(),
        sorts,
        aggregates: Vec::new(),
        active,
        slots,
        pinned_slot,
        contents,
    }
}

fn patch(nodes: &GridNodes, frame: &GridFrame) -> PatchList {
    let mut list = PatchList::new();
    patch_grid(&mut list, nodes, frame);
    list
}

fn attributes(list: &PatchList, wanted: &str) -> Vec<String> {
    list.patches
        .iter()
        .filter_map(|patch| match patch {
            Patch::SetAttribute { name, value, .. } if name == wanted => Some(value.clone()),
            _ => None,
        })
        .collect()
}

fn text_of(list: &PatchList, node: u64) -> Vec<String> {
    list.patches
        .iter()
        .filter_map(|patch| match patch {
            Patch::SetText { node: at, text } if *at == node => Some(text.clone()),
            _ => None,
        })
        .collect()
}

/// Patching the pool recycles the existing rows: counts, rowindexes and
/// exactly one `tabindex=0`.
#[test]
fn patching_recycles_the_pool() {
    let nodes = skeleton(2, 4, false, 6);
    let slots = assign_pool(&[None; 4], None, &window_rows(0, 5, 4), 4);
    let f = frame(
        &["customer", "qty"],
        &[],
        slots,
        5,
        DEFAULT_ROW_HEIGHT,
        ActiveCell::Header { col: 0 },
        None,
    );
    let list = patch(&nodes, &f);
    assert_eq!(attributes(&list, "aria-rowcount"), ["6"]);
    assert_eq!(attributes(&list, "aria-rowindex"), ["2", "3", "4", "5"]);
    let tabindexes = attributes(&list, "tabindex");
    assert_eq!(tabindexes.iter().filter(|value| value.as_str() == "0").count(), 1);
    // No element is created: the pool is only recycled.
    assert!(!list.patches.iter().any(|p| matches!(p, Patch::Create { .. })));
}

/// The sorted column is the only one with a non-`none` `aria-sort`.
#[test]
fn only_the_sorted_header_carries_aria_sort() {
    let nodes = skeleton(2, 1, false, 6);
    let sorts = [("qty".to_owned(), "asc")];
    let slots = assign_pool(&[None], None, &window_rows(0, 1, 1), 1);
    let f = frame(
        &["customer", "qty"],
        &sorts,
        slots,
        1,
        DEFAULT_ROW_HEIGHT,
        ActiveCell::Data(CellRef::new(0, 1)),
        None,
    );
    let list = patch(&nodes, &f);
    assert_eq!(attributes(&list, "aria-sort"), ["none", "ascending"]);
}

/// Multi-sort marks each key with its direction and shows its order index.
#[test]
fn a_multi_sort_shows_each_key_with_its_order() {
    let nodes = skeleton(2, 1, false, 6);
    let sorts = [("customer".to_owned(), "asc"), ("qty".to_owned(), "desc")];
    let slots = assign_pool(&[None], None, &window_rows(0, 1, 1), 1);
    let f = frame(
        &["customer", "qty"],
        &sorts,
        slots,
        1,
        DEFAULT_ROW_HEIGHT,
        ActiveCell::Header { col: 0 },
        None,
    );
    let list = patch(&nodes, &f);
    assert_eq!(attributes(&list, "aria-sort"), ["ascending", "descending"]);
    assert_eq!(text_of(&list, nodes.header_cells[0].index), ["1"]);
    assert_eq!(text_of(&list, nodes.header_cells[1].index), ["2"]);
    assert_eq!(text_of(&list, nodes.status), ["1 match"]);
}

/// Every header's direction mark is written on every frame.
#[test]
fn the_header_shows_its_sort_direction() {
    let nodes = skeleton(2, 1, false, 6);
    let glyphs = |sorts: &[(String, &str)]| -> Vec<String> {
        let f = frame(
            &["customer", "qty"],
            sorts,
            vec![Some(0)],
            1,
            DEFAULT_ROW_HEIGHT,
            ActiveCell::Header { col: 0 },
            None,
        );
        let list = patch(&nodes, &f);
        nodes
            .header_cells
            .iter()
            .map(|header| {
                text_of(&list, header.direction)
                    .pop()
                    .expect("every header's direction is written on every frame")
            })
            .collect()
    };
    assert_eq!(glyphs(&[]), ["", ""]);
    assert_eq!(glyphs(&[("customer".to_owned(), "asc")]), [ASCENDING_GLYPH, ""]);
    assert_eq!(glyphs(&[("qty".to_owned(), "desc")]), ["", DESCENDING_GLYPH]);
    assert_eq!(
        glyphs(&[("customer".to_owned(), "desc"), ("qty".to_owned(), "asc")]),
        [DESCENDING_GLYPH, ASCENDING_GLYPH]
    );
}

/// With one sort key the order index stays empty.
#[test]
fn a_single_sort_hides_the_order_index() {
    let nodes = skeleton(2, 1, false, 6);
    let sorts = [("customer".to_owned(), "asc")];
    let slots = assign_pool(&[None], None, &window_rows(0, 1, 1), 1);
    let f = frame(
        &["customer", "qty"],
        &sorts,
        slots,
        1,
        DEFAULT_ROW_HEIGHT,
        ActiveCell::Header { col: 0 },
        None,
    );
    let list = patch(&nodes, &f);
    assert_eq!(text_of(&list, nodes.header_cells[0].index), [""]);
}

/// The sizer height is `total_count * row_height`.
#[test]
fn the_sizer_reflects_the_total_count() {
    let nodes = skeleton(1, 2, false, 6);
    let slots = assign_pool(&[None, None], None, &window_rows(0, 5, 2), 2);
    let f = frame(
        &["customer"],
        &[],
        slots,
        5,
        DEFAULT_ROW_HEIGHT,
        ActiveCell::Header { col: 0 },
        None,
    );
    let list = patch(&nodes, &f);
    assert!(list.patches.iter().any(|patch| matches!(
        patch,
        Patch::SetAttribute { node, name, value }
            if *node == nodes.tbody && name == "style"
                && *value == format!("position: relative; height: {}px;", 5 * DEFAULT_ROW_HEIGHT)
    )));
}

/// A non-default row height drives both the sizer and the row offsets.
#[test]
fn a_custom_row_height_rescales_the_sizer_and_the_rows() {
    let nodes = skeleton(1, 3, false, 6);
    let slots = assign_pool(&[None, None, None], None, &window_rows(0, 5, 3), 3);
    let f = frame(&["customer"], &[], slots, 5, 48, ActiveCell::Header { col: 0 }, None);
    let list = patch(&nodes, &f);
    assert!(list.patches.iter().any(|patch| matches!(
        patch,
        Patch::SetAttribute { node, name, value }
            if *node == nodes.tbody && name == "style" && value == "position: relative; height: 240px;"
    )));
    assert!(list.patches.iter().any(|patch| matches!(
        patch,
        Patch::SetAttribute { node, name, value }
            if *node == nodes.rows[2].row && name == "style" && value == "transform: translateY(96px);"
    )));
}

/// The pinned slot is not moved, so the focused node keeps its `data-row`.
#[test]
fn the_pinned_slot_is_left_untouched() {
    let nodes = skeleton(1, 4, false, 6);
    let old = [Some(20), Some(21), Some(22), Some(6)];
    let focus = Some(6);
    let rows = window_rows(20, 100, 4);
    let slots = assign_pool(&old, focus, &rows, 4);
    let pinned = old.iter().position(|slot| *slot == focus);
    let mut f = frame(
        &["customer"],
        &[],
        slots.clone(),
        100,
        DEFAULT_ROW_HEIGHT,
        ActiveCell::Data(CellRef::new(6, 0)),
        pinned,
    );
    f.paging = Paging { base: 20, rows: 100, size: None };
    let list = patch(&nodes, &f);

    let pinned_row = nodes.rows[3].row;
    let touched: Vec<&str> = list
        .patches
        .iter()
        .filter_map(|patch| match patch {
            Patch::SetAttribute { node, name, .. } if *node == pinned_row => Some(name.as_str()),
            Patch::RemoveAttribute { node, name } if *node == pinned_row => Some(name.as_str()),
            _ => None,
        })
        .collect();
    assert_eq!(
        touched,
        ["aria-selected", "data-selected"],
        "only the selection may be written to the pinned row"
    );
    assert!(
        !list.patches.iter().any(|patch| matches!(
            patch,
            Patch::SetText { node, .. } if *node == pinned_row || *node == nodes.rows[3].cells[0]
        )),
        "the pinned row keeps its text"
    );
    assert!(slots.contains(&focus));
}

/// No frame patches the root the skeleton hangs from.
#[test]
fn no_frame_writes_to_the_shadow_root() {
    for selection in [false, true] {
        let nodes = skeleton(2, 2, selection, 6);
        let f = frame(
            &["customer", "qty"],
            &[],
            vec![Some(0), Some(1)],
            0,
            DEFAULT_ROW_HEIGHT,
            ActiveCell::Header { col: 0 },
            None,
        );
        let list = patch(&nodes, &f);
        for patch in &list.patches {
            let node = match patch {
                Patch::SetAttribute { node, .. }
                | Patch::RemoveAttribute { node, .. }
                | Patch::SetText { node, .. } => Some(*node),
                _ => None,
            };
            assert_ne!(node, Some(ROOT), "selection={selection}: a frame patched the root ({patch:?})");
        }
    }
}

/// A grouped grid is a treegrid; an ungrouped one a grid.
#[test]
fn the_role_follows_the_grouping() {
    let nodes = skeleton(1, 1, false, 6);
    let mut f = frame(&["customer"], &[], vec![Some(0)], 1, DEFAULT_ROW_HEIGHT, ActiveCell::Header { col: 0 }, None);
    assert_eq!(attributes(&patch(&nodes, &f), "role"), ["grid"]);
    f.grouped = true;
    f.levels = 1;
    let list = patch(&nodes, &f);
    assert_eq!(attributes(&list, "role"), ["treegrid"]);
    // A data row sits one level below the groups.
    assert_eq!(attributes(&list, "aria-level"), ["2"]);
}

/// A slot without a row is hidden; paging shows the pager with the buttons
/// that cannot move disabled.
#[test]
fn an_empty_slot_is_hidden_and_the_pager_follows_the_page() {
    let nodes = skeleton(1, 2, false, 6);
    let mut f = frame(&["customer"], &[], vec![Some(0), None], 3, DEFAULT_ROW_HEIGHT, ActiveCell::Header { col: 0 }, None);
    f.paging = Paging::page(0, 2, 3);
    f.page_label = "Page 1 of 2".to_string();
    let list = patch(&nodes, &f);
    assert!(list.patches.iter().any(|p| matches!(
        p,
        Patch::SetAttribute { node, name, value }
            if *node == nodes.rows[1].row && name == "style" && value == "display: none;"
    )));
    assert_eq!(text_of(&list, nodes.pager.label), ["Page 1 of 2"]);
    let disabled: Vec<u64> = list
        .patches
        .iter()
        .filter_map(|p| match p {
            Patch::SetAttribute { node, name, .. }
                if name == "disabled"
                    && [nodes.pager.first, nodes.pager.previous, nodes.pager.next, nodes.pager.last]
                        .contains(node) =>
            {
                Some(*node)
            }
            _ => None,
        })
        .collect();
    assert_eq!(disabled, [nodes.pager.first, nodes.pager.previous]);
}

/// The selection column: the select-all header in its mixed state, and a
/// selected row with its mark.
#[test]
fn the_selection_column_follows_the_selection() {
    let nodes = skeleton(1, 2, true, 6);
    let mut f = frame(&["customer"], &[], vec![Some(0), Some(1)], 2, DEFAULT_ROW_HEIGHT, ActiveCell::SelectAll, None);
    f.selected = 1;
    f.contents[0] = SlotContent::Data {
        selected: true,
        changed: vec![false],
        editing: None,
        texts: vec!["Alpha".to_string()],
    };
    let list = patch(&nodes, &f);
    assert_eq!(attributes(&list, "aria-checked"), ["mixed"]);
    assert_eq!(attributes(&list, "aria-selected"), ["true", "false"]);
    let (_, mark) = nodes.rows[0].select.unwrap();
    assert_eq!(text_of(&list, mark), ["\u{2713}"]);
    let tabindexes = attributes(&list, "tabindex");
    assert_eq!(tabindexes.iter().filter(|value| value.as_str() == "0").count(), 1);
}

/// A group header written into a pooled row: its kind, level, state, label
/// and the summary of a column.
#[test]
fn a_group_row_carries_its_label_and_summary() {
    let nodes = skeleton(2, 1, false, 6);
    let mut f = frame(&["country", "amount"], &[], vec![Some(0)], 1, DEFAULT_ROW_HEIGHT, ActiveCell::Header { col: 0 }, None);
    f.grouped = true;
    f.levels = 1;
    f.aggregates = vec![("amount".to_string(), Summary::Fn(AggregateFn::Sum))];
    f.contents[0] = SlotContent::Group(GroupRow {
        total: false,
        level: 1,
        expanded: Some(false),
        label: "country: DE (3 rows)".to_string(),
        cells: vec![
            GroupCell { text: String::new(), aggregate: None },
            GroupCell {
                text: "30".to_string(),
                aggregate: Some((Summary::Fn(AggregateFn::Sum), "Sum: 30".to_string())),
            },
        ],
    });
    let list = patch(&nodes, &f);
    assert_eq!(attributes(&list, "data-kind"), ["group"]);
    assert_eq!(attributes(&list, "aria-expanded"), ["false"]);
    assert_eq!(text_of(&list, nodes.rows[0].cells[0]), ["country: DE (3 rows)"]);
    assert_eq!(text_of(&list, nodes.rows[0].cells[1]), ["30"]);
    assert_eq!(attributes(&list, "data-aggregate"), ["sum", "sum"]);
    assert_eq!(attributes(&list, "aria-label"), ["Sum: 30"]);
}
