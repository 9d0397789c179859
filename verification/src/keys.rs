//! The keyboard matrix of `role="grid"`: which cell a key moves the roving
//! tabindex to, and which window that move has to load.
//!
//! Moves clamp: arrows stay inside the columns and the whole result (not the
//! loaded window), `Home`/`End` stay on the row, the page keys move by a
//! viewport, and `Ctrl+Home`/`Ctrl+End` go to the first and the last cell.

use vstd::prelude::*;

use crate::window::{max_int, min_int, window_offset_for_row, window_start};

verus! {

/// A logical data cell: a row of the whole result and a schema column.
#[derive(Clone, Copy, Debug, PartialEq, Eq, Structural)]
pub struct CellRef {
    pub row: u64,
    pub col: usize,
}

impl CellRef {
    pub fn new(row: u64, col: usize) -> (c: Self)
        ensures
            c == (CellRef { row, col }),
    {
        CellRef { row, col }
    }
}

/// The rows currently loaded: `limit` rows from `offset`.
#[derive(Clone, Copy, Debug, PartialEq, Eq, Structural)]
pub struct Window {
    pub offset: u64,
    pub limit: u64,
}

impl Window {
    pub fn new(offset: u64, limit: u64) -> (w: Self)
        ensures
            w == (Window { offset, limit }),
    {
        Window { offset, limit }
    }

    pub open spec fn holds(self, row: u64) -> bool {
        self.offset <= row < self.offset + self.limit
    }

    /// Whether `row` is loaded.
    pub fn contains(&self, row: u64) -> (b: bool)
        ensures
            b == self.holds(row),
    {
        row >= self.offset && row - self.offset < self.limit
    }
}

/// Which cell owns the roving tabindex.
#[derive(Clone, Copy, Debug, PartialEq, Eq, Structural)]
pub enum ActiveCell {
    /// The header above the selection column.
    SelectAll,
    /// A row's selection cell.
    Select { row: u64 },
    /// A header cell of a schema column.
    Header { col: usize },
    /// A data cell.
    Data(CellRef),
}

impl ActiveCell {
    pub open spec fn data_spec(self) -> Option<CellRef> {
        match self {
            ActiveCell::Data(cell) => Some(cell),
            _ => None,
        }
    }

    pub open spec fn row_spec(self) -> Option<u64> {
        match self {
            ActiveCell::Select { row } => Some(row),
            ActiveCell::Data(cell) => Some(cell.row),
            _ => None,
        }
    }

    /// The logical data cell, or `None` for a header or selection cell.
    pub fn data(self) -> (r: Option<CellRef>)
        ensures
            r == self.data_spec(),
    {
        match self {
            ActiveCell::Data(cell) => Some(cell),
            _ => None,
        }
    }

    /// The logical row this cell belongs to, header rows excluded.
    pub fn row(self) -> (r: Option<u64>)
        ensures
            r == self.row_spec(),
    {
        match self {
            ActiveCell::Select { row } => Some(row),
            ActiveCell::Data(cell) => Some(cell.row),
            _ => None,
        }
    }
}

/// A key the grid handles.
#[derive(Clone, Copy, Debug, PartialEq, Eq, Structural)]
pub enum GridKey {
    ArrowUp,
    ArrowDown,
    ArrowLeft,
    ArrowRight,
    Home,
    End,
    CtrlHome,
    CtrlEnd,
    PageUp,
    PageDown,
}

/// The place of a cell on the row's axis: `-1` is the selection column,
/// `0..ncols` the schema columns.
pub open spec fn axis_of(cell: ActiveCell) -> int {
    match cell {
        ActiveCell::SelectAll => -1,
        ActiveCell::Select { .. } => -1,
        ActiveCell::Header { col } => col as int,
        ActiveCell::Data(c) => c.col as int,
    }
}

/// The first place on the axis: the selection column when it is shown.
pub open spec fn first_axis(selection: bool) -> int {
    if selection {
        -1
    } else {
        0
    }
}

/// A place kept inside the axis.
pub open spec fn clamp_axis(col: int, ncols: int, selection: bool) -> int {
    max_int(min_int(col, ncols - 1), first_axis(selection))
}

/// The header cell at a place of the axis, clamped.
pub open spec fn header_at(col: int, ncols: int, selection: bool) -> ActiveCell {
    let c = clamp_axis(col, ncols, selection);
    if c == -1 {
        ActiveCell::SelectAll
    } else {
        ActiveCell::Header { col: c as usize }
    }
}

/// The body cell at a row and a place of the axis, both clamped.
pub open spec fn body_at(row: int, col: int, ncols: int, total: int, selection: bool) -> ActiveCell {
    let last = max_int(total - 1, 0);
    let r = min_int(row, last);
    let c = clamp_axis(col, ncols, selection);
    if c == -1 {
        ActiveCell::Select { row: r as u64 }
    } else {
        ActiveCell::Data(CellRef { row: r as u64, col: c as usize })
    }
}

pub open spec fn is_header(cell: ActiveCell) -> bool {
    cell is SelectAll || cell is Header
}

/// Where `key` takes the active cell.
pub open spec fn moved(
    active: ActiveCell,
    key: GridKey,
    ncols: int,
    total: int,
    viewport: int,
    selection: bool,
) -> ActiveCell {
    let last_row = max_int(total - 1, 0);
    let last_col = ncols - 1;
    let first = first_axis(selection);
    let head = is_header(active);
    let row: int = match active.row_spec() {
        Some(r) => r as int,
        None => 0,
    };
    let col = axis_of(active);
    if ncols == 0 {
        active
    } else {
        match key {
            GridKey::ArrowUp => if head {
                active
            } else if row == 0 {
                header_at(col, ncols, selection)
            } else {
                body_at(row - 1, col, ncols, total, selection)
            },
            GridKey::ArrowDown => if head {
                if total == 0 {
                    active
                } else {
                    body_at(0, col, ncols, total, selection)
                }
            } else {
                body_at(row + 1, col, ncols, total, selection)
            },
            GridKey::ArrowLeft => if head {
                header_at(col - 1, ncols, selection)
            } else {
                body_at(row, col - 1, ncols, total, selection)
            },
            GridKey::ArrowRight => if head {
                header_at(col + 1, ncols, selection)
            } else {
                body_at(row, col + 1, ncols, total, selection)
            },
            GridKey::Home => if head {
                header_at(first, ncols, selection)
            } else {
                body_at(row, first, ncols, total, selection)
            },
            GridKey::End => if head {
                header_at(last_col, ncols, selection)
            } else {
                body_at(row, last_col, ncols, total, selection)
            },
            GridKey::CtrlHome => header_at(first, ncols, selection),
            GridKey::CtrlEnd => if total == 0 {
                header_at(last_col, ncols, selection)
            } else {
                body_at(last_row, last_col, ncols, total, selection)
            },
            GridKey::PageUp => if head {
                active
            } else {
                body_at(max_int(row - viewport, 0), col, ncols, total, selection)
            },
            GridKey::PageDown => if head {
                if total == 0 {
                    active
                } else {
                    body_at(max_int(viewport - 1, 0), col, ncols, total, selection)
                }
            } else {
                body_at(row + viewport, col, ncols, total, selection)
            },
        }
    }
}

fn axis(cell: ActiveCell) -> (a: i128)
    ensures
        a == axis_of(cell),
{
    match cell {
        ActiveCell::SelectAll => -1,
        ActiveCell::Select { .. } => -1,
        ActiveCell::Header { col } => col as i128,
        ActiveCell::Data(c) => c.col as i128,
    }
}

fn clamp(col: i128, ncols: usize, selection: bool) -> (c: i128)
    requires
        ncols > 0,
        -2 <= col <= usize::MAX + 1,
    ensures
        c == clamp_axis(col as int, ncols as int, selection),
        first_axis(selection) <= c < ncols,
{
    let last = ncols as i128 - 1;
    let first: i128 = if selection {
        -1
    } else {
        0
    };
    let upper = if col < last {
        col
    } else {
        last
    };
    if upper > first {
        upper
    } else {
        first
    }
}

fn header(col: i128, ncols: usize, selection: bool) -> (h: ActiveCell)
    requires
        ncols > 0,
        -2 <= col <= usize::MAX + 1,
    ensures
        h == header_at(col as int, ncols as int, selection),
{
    let c = clamp(col, ncols, selection);
    if c == -1 {
        ActiveCell::SelectAll
    } else {
        ActiveCell::Header { col: c as usize }
    }
}

fn body(row: u64, col: i128, ncols: usize, total: u64, selection: bool) -> (b: ActiveCell)
    requires
        ncols > 0,
        -2 <= col <= usize::MAX + 1,
    ensures
        b == body_at(row as int, col as int, ncols as int, total as int, selection),
{
    let last: u64 = if total > 0 {
        total - 1
    } else {
        0
    };
    let r = if row < last {
        row
    } else {
        last
    };
    let c = clamp(col, ncols, selection);
    if c == -1 {
        ActiveCell::Select { row: r }
    } else {
        ActiveCell::Data(CellRef { row: r, col: c as usize })
    }
}

/// The active cell after pressing `key`, before any reload.
pub fn move_active(
    active: ActiveCell,
    key: GridKey,
    ncols: usize,
    total_count: u64,
    viewport_rows: u64,
    selection: bool,
) -> (next: ActiveCell)
    ensures
        next == moved(
            active,
            key,
            ncols as int,
            total_count as int,
            viewport_rows as int,
            selection,
        ),
{
    if ncols == 0 {
        return active;
    }
    let last_row: u64 = if total_count > 0 {
        total_count - 1
    } else {
        0
    };
    let last_col: i128 = ncols as i128 - 1;
    let first: i128 = if selection {
        -1
    } else {
        0
    };
    let head = match active {
        ActiveCell::SelectAll => true,
        ActiveCell::Header { .. } => true,
        _ => false,
    };
    let row: u64 = match active.row() {
        Some(r) => r,
        None => 0,
    };
    let col = axis(active);
    match key {
        GridKey::ArrowUp => {
            if head {
                active
            } else if row == 0 {
                header(col, ncols, selection)
            } else {
                body(row - 1, col, ncols, total_count, selection)
            }
        },
        GridKey::ArrowDown => {
            if head {
                if total_count == 0 {
                    active
                } else {
                    body(0, col, ncols, total_count, selection)
                }
            } else {
                let down = if row < last_row {
                    row + 1
                } else {
                    last_row
                };
                proof {
                    assert(min_int(row + 1, last_row as int) == min_int(down as int, last_row as int));
                }
                body(down, col, ncols, total_count, selection)
            }
        },
        GridKey::ArrowLeft => {
            if head {
                header(col - 1, ncols, selection)
            } else {
                body(row, col - 1, ncols, total_count, selection)
            }
        },
        GridKey::ArrowRight => {
            if head {
                header(col + 1, ncols, selection)
            } else {
                body(row, col + 1, ncols, total_count, selection)
            }
        },
        GridKey::Home => {
            if head {
                header(first, ncols, selection)
            } else {
                body(row, first, ncols, total_count, selection)
            }
        },
        GridKey::End => {
            if head {
                header(last_col, ncols, selection)
            } else {
                body(row, last_col, ncols, total_count, selection)
            }
        },
        GridKey::CtrlHome => header(first, ncols, selection),
        GridKey::CtrlEnd => {
            if total_count == 0 {
                header(last_col, ncols, selection)
            } else {
                body(last_row, last_col, ncols, total_count, selection)
            }
        },
        GridKey::PageUp => {
            if head {
                active
            } else {
                body(row.saturating_sub(viewport_rows), col, ncols, total_count, selection)
            }
        },
        GridKey::PageDown => {
            if head {
                if total_count == 0 {
                    active
                } else {
                    body(viewport_rows.saturating_sub(1), col, ncols, total_count, selection)
                }
            } else {
                let down = row.saturating_add(viewport_rows);
                proof {
                    assert(min_int(row + viewport_rows, last_row as int) == min_int(
                        down as int,
                        last_row as int,
                    ));
                }
                body(down, col, ncols, total_count, selection)
            }
        },
    }
}

/// The window a key asks for: `None` when the move stays inside the loaded
/// window, otherwise the start of the window that holds the new cell.
/// `Ctrl+Home`/`Ctrl+End` name the first and the last window directly.
pub open spec fn wanted_window(key: GridKey, next: ActiveCell, window: Window, total: int, pool: int) -> int {
    match key {
        GridKey::CtrlHome => 0,
        GridKey::CtrlEnd => if total > 0 {
            window_start(total - 1, total, pool)
        } else {
            match next {
                ActiveCell::Data(cell) => if !window.holds(cell.row) {
                    window_start(cell.row as int, total, pool)
                } else {
                    window.offset as int
                },
                _ => window.offset as int,
            }
        },
        _ => match next {
            ActiveCell::Data(cell) => if !window.holds(cell.row) {
                window_start(cell.row as int, total, pool)
            } else {
                window.offset as int
            },
            _ => window.offset as int,
        },
    }
}

/// The window offset a key asks for, given the cell it moved to.
pub fn requested_window(
    key: GridKey,
    next: ActiveCell,
    window: Window,
    total_count: u64,
    pool: u64,
) -> (r: Option<u64>)
    ensures
        ({
            let w = wanted_window(key, next, window, total_count as int, pool as int);
            r == (if w != window.offset {
                Some(w as u64)
            } else {
                None
            })
        }),
{
    let wanted: u64 = match key {
        GridKey::CtrlHome => 0,
        GridKey::CtrlEnd if total_count > 0 => window_offset_for_row(
            total_count - 1,
            total_count,
            pool,
        ),
        _ => match next {
            ActiveCell::Data(cell) => if !window.contains(cell.row) {
                window_offset_for_row(cell.row, total_count, pool)
            } else {
                window.offset
            },
            _ => window.offset,
        },
    };
    if wanted != window.offset {
        Some(wanted)
    } else {
        None
    }
}

/// The cell is one the grid has: a header of one of the columns, a body cell
/// of a row of the result, and a selection cell only when the column is shown.
pub open spec fn inside(cell: ActiveCell, ncols: int, total: int, selection: bool) -> bool {
    match cell {
        ActiveCell::SelectAll => selection,
        ActiveCell::Select { row } => selection && row < total,
        ActiveCell::Header { col } => col < ncols,
        ActiveCell::Data(c) => c.row < total && c.col < ncols,
    }
}

/// No key moves the active cell out of the grid: from a cell the grid has,
/// every key lands on a cell the grid has.
pub proof fn moves_stay_inside(
    active: ActiveCell,
    key: GridKey,
    ncols: int,
    total: int,
    viewport: int,
    selection: bool,
)
    requires
        0 < ncols <= usize::MAX,
        0 <= total <= u64::MAX,
        0 <= viewport <= u64::MAX,
        inside(active, ncols, total, selection),
    ensures
        inside(moved(active, key, ncols, total, viewport, selection), ncols, total, selection),
{
}

/// The window that shows a row holds it, whenever there is a row to show
/// and a pool to show it in.
pub proof fn lemma_window_start_holds(row: int, total: int, pool: int)
    requires
        0 <= row < total,
        pool > 0,
    ensures
        window_start(row, total, pool) <= row < window_start(row, total, pool) + pool,
{
}

/// The window follows the focus: after any key, a data cell the focus moved
/// to lies in the window the grid shows next — the one it had, when the key
/// asks for none, or the one the key asks for.
pub proof fn lemma_window_follows_focus(
    active: ActiveCell,
    key: GridKey,
    ncols: int,
    total: int,
    viewport: int,
    selection: bool,
    window: Window,
    pool: int,
)
    requires
        0 < ncols <= usize::MAX,
        0 <= total <= u64::MAX,
        0 <= viewport <= u64::MAX,
        inside(active, ncols, total, selection),
        pool > 0,
        window.limit == pool,
    ensures
        match moved(active, key, ncols, total, viewport, selection) {
            ActiveCell::Data(cell) => {
                let w = wanted_window(
                    key,
                    moved(active, key, ncols, total, viewport, selection),
                    window,
                    total,
                    pool,
                );
                w <= cell.row < w + pool
            },
            _ => true,
        },
{
    let next = moved(active, key, ncols, total, viewport, selection);
    moves_stay_inside(active, key, ncols, total, viewport, selection);
    match next {
        ActiveCell::Data(cell) => {
            lemma_window_start_holds(cell.row as int, total, pool);
            if key == GridKey::CtrlEnd && total > 0 {
                assert(cell.row == total - 1);
            }
        },
        _ => {},
    }
}

} // verus!
