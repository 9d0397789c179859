//! The virtualized window: which rows are fetched, which pool slot shows
//! which row, paging, and the attributes that size all of it.
//!
//! A logical row `r` sits at `r * row_height` inside the sizer; the first
//! visible row is `scroll_top / row_height`, the fetched window starts
//! [`OVERSCAN`] rows above it, and the pool of recycled DOM rows keeps the slot
//! of the focused row so that scrolling never blurs it.

use vstd::prelude::*;

use crate::columns::lemma_filter_contains;
use crate::text::{name_list, names, parse_u64, parse_u64_spec, text_of, trim, trimmed, views};

verus! {

/// The pool size used when the `window-size` attribute is absent or invalid.
pub const DEFAULT_POOL_SIZE: u64 = 40;

/// The default pixel height of one logical row.
pub const DEFAULT_ROW_HEIGHT: u64 = 42;

/// Rows kept above the first visible row so scrolling stays smooth.
pub const OVERSCAN: u64 = 6;

/// Rows a page key moves when the viewport height is not known.
pub const DEFAULT_VIEWPORT_ROWS: u64 = 12;

/// A positive whole number written in an attribute, white space around it
/// allowed.
pub open spec fn positive_number(raw: Seq<char>) -> Option<u64> {
    match parse_u64_spec(trim(raw)) {
        Some(n) => if n > 0 {
            Some(n)
        } else {
            None
        },
        None => None,
    }
}

fn read_positive(raw: &str) -> (r: Option<u64>)
    ensures
        r == positive_number(raw@),
{
    let t = trimmed(raw);
    match parse_u64(t.as_str()) {
        Some(n) => if n > 0 {
            Some(n)
        } else {
            None
        },
        None => None,
    }
}

/// Splits the `columns` attribute into field names: comma-separated, each
/// trimmed, empty ones dropped.
pub fn parse_columns(raw: Option<&str>) -> (out: Vec<String>)
    ensures
        views(out@) == name_list(text_of(raw)),
{
    names(raw)
}

/// Reads `page-size`; absent, empty or unusable means "do not page".
pub fn parse_page_size(raw: Option<&str>) -> (r: Option<u64>)
    ensures
        r == (match raw {
            Some(text) => positive_number(text@),
            None => None,
        }),
{
    match raw {
        Some(text) => read_positive(text),
        None => None,
    }
}

/// The pool size from the `window-size` attribute, or [`DEFAULT_POOL_SIZE`]
/// when it is missing, not a number, or zero.
pub fn parse_window_size(raw: Option<&str>) -> (r: u64)
    ensures
        r == (match raw {
            Some(text) => match positive_number(text@) {
                Some(n) => n,
                None => DEFAULT_POOL_SIZE,
            },
            None => DEFAULT_POOL_SIZE,
        }),
{
    match raw {
        Some(text) => match read_positive(text) {
            Some(n) => n,
            None => DEFAULT_POOL_SIZE,
        },
        None => DEFAULT_POOL_SIZE,
    }
}

/// The row height a computed CSS value names: `<number>px`, white space
/// allowed around the whole and around the number.
pub open spec fn row_height_of(raw: Seq<char>) -> u64 {
    let t = trim(raw);
    if t.len() >= 2 && t[t.len() - 2] == 'p' && t[t.len() - 1] == 'x' {
        match positive_number(t.subrange(0, t.len() - 2)) {
            Some(h) => h,
            None => DEFAULT_ROW_HEIGHT,
        }
    } else {
        DEFAULT_ROW_HEIGHT
    }
}

/// The row height from a computed CSS value, or [`DEFAULT_ROW_HEIGHT`] for
/// anything that is not a positive `<number>px`.
pub fn parse_row_height(raw: &str) -> (r: u64)
    ensures
        r == row_height_of(raw@),
        r > 0,
{
    let t = trimmed(raw);
    let n = t.as_str().unicode_len();
    if n >= 2 && t.as_str().get_char(n - 2) == 'p' && t.as_str().get_char(n - 1) == 'x' {
        match read_positive(t.as_str().substring_char(0, n - 2)) {
            Some(h) => h,
            None => DEFAULT_ROW_HEIGHT,
        }
    } else {
        DEFAULT_ROW_HEIGHT
    }
}

/// What the rendered area covers.
///
/// While virtualizing it is the whole result (`base = 0`); while paging it is
/// one page, and `aria-rowcount` counts the page.
#[derive(Clone, Copy, Debug, PartialEq, Eq)]
pub struct Paging {
    /// The first logical row of the rendered area.
    pub base: u64,
    /// How many rows the rendered area holds.
    pub rows: u64,
    /// The page size while paging; `None` while virtualizing.
    pub size: Option<u64>,
}

pub open spec fn min_int(a: int, b: int) -> int {
    if a <= b {
        a
    } else {
        b
    }
}

pub open spec fn max_int(a: int, b: int) -> int {
    if a >= b {
        a
    } else {
        b
    }
}

impl Paging {
    /// The whole result, as the virtualizing grid renders it.
    pub fn whole(total_count: u64) -> (p: Self)
        ensures
            p == (Paging { base: 0, rows: total_count, size: None }),
    {
        Paging { base: 0, rows: total_count, size: None }
    }

    /// One page of `size` rows out of `total_count`, `page` counted from 0.
    /// A page past the end is empty and starts at the end.
    pub fn page(page: u64, size: u64, total_count: u64) -> (p: Self)
        ensures
            p.base == min_int(page * size, total_count as int),
            p.rows == min_int(total_count - p.base, size as int),
            p.size == Some(size),
    {
        let product = page.checked_mul(size);
        let base = match product {
            Some(b) => if b < total_count {
                b
            } else {
                total_count
            },
            None => total_count,
        };
        let left = total_count - base;
        let rows = if left < size {
            left
        } else {
            size
        };
        Paging { base, rows, size: Some(size) }
    }

    /// The 0-based page currently rendered; 0 while virtualizing.
    pub fn index(&self) -> (i: u64)
        ensures
            i == (match self.size {
                Some(s) => if s > 0 {
                    self.base / s
                } else {
                    0
                },
                None => 0,
            }),
    {
        match self.size {
            Some(size) => if size > 0 {
                self.base / size
            } else {
                0
            },
            None => 0,
        }
    }

    /// How many pages `total_count` rows make at this size: the fewest pages
    /// that hold every row, and never fewer than one.
    pub fn count(total_count: u64, size: u64) -> (n: u64)
        ensures
            size == 0 ==> n == 1,
            size > 0 ==> n >= 1 && n * size >= total_count && (n == 1 || (n - 1) * size
                < total_count),
    {
        if size == 0 {
            return 1;
        }
        let q = total_count / size;
        let rem = total_count % size;
        proof {
            assert(total_count == q * size + rem && 0 <= rem < size) by (nonlinear_arith)
                requires
                    q == total_count / size,
                    rem == total_count % size,
                    size > 0,
            ;
            if rem != 0 {
                assert((q + 1) * size >= total_count && q * size < total_count && q + 1
                    <= total_count) by (nonlinear_arith)
                    requires
                        total_count == q * size + rem,
                        0 < rem < size,
                ;
            } else if q >= 1 {
                assert(q * size >= total_count && (q - 1) * size < total_count) by (nonlinear_arith)
                    requires
                        total_count == q * size,
                        size > 0,
                        q >= 1,
                ;
            } else {
                assert(size >= total_count) by (nonlinear_arith)
                    requires
                        total_count == q * size + rem,
                        q == 0,
                        rem == 0,
                ;
            }
        }
        let n = if rem != 0 {
            q + 1
        } else {
            q
        };
        let n = if n < 1 {
            1
        } else {
            n
        };
        proof {
            if rem != 0 {
                assert(n == q + 1);
            } else if q >= 1 {
                assert(n == q);
            } else {
                assert(n == 1);
                assert(n * size == size) by (nonlinear_arith)
                    requires
                        n == 1,
                ;
            }
        }
        n
    }
}

/// The first logical row visible at `scroll_top`.
pub fn visible_start(scroll_top: u64, row_height: u64) -> (r: u64)
    requires
        row_height > 0,
    ensures
        r == scroll_top / row_height,
{
    scroll_top / row_height
}

/// The window start for a visible row: see [`window_offset_for_row`].
pub fn window_offset(visible_start: u64, total_count: u64, pool: u64) -> (r: u64)
    ensures
        r == window_start(visible_start as int, total_count as int, pool as int),
{
    window_offset_for_row(visible_start, total_count, pool)
}

/// Where the window that shows `row` starts: [`OVERSCAN`] rows above it (fewer
/// for a small pool), never before the first row and never so late that the
/// window would run past the last.
pub open spec fn window_start(row: int, total: int, pool: int) -> int {
    let max_offset = max_int(total - pool, 0);
    let lead = min_int(OVERSCAN as int, max_int(pool - 1, 0));
    min_int(max_int(row - lead, 0), max_offset)
}

/// The window start that contains `row`.
pub fn window_offset_for_row(row: u64, total_count: u64, pool: u64) -> (r: u64)
    ensures
        r == window_start(row as int, total_count as int, pool as int),
        r + pool <= total_count || r == 0,
        row < total_count && pool > 0 ==> r <= row < r + pool,
{
    let max_offset = total_count.saturating_sub(pool);
    let less = pool.saturating_sub(1);
    let lead = if OVERSCAN < less {
        OVERSCAN
    } else {
        less
    };
    let start = row.saturating_sub(lead);
    if start < max_offset {
        start
    } else {
        max_offset
    }
}

/// The rows from `offset` to `end`, in order.
pub open spec fn row_range(offset: int, end: int) -> Seq<u64> {
    Seq::new(max_int(end - offset, 0) as nat, |i: int| (offset + i) as u64)
}

/// The logical rows of a window, cut at `total_count`.
pub fn window_rows(offset: u64, total_count: u64, pool: u64) -> (rows: Vec<u64>)
    ensures
        rows@ == row_range(offset as int, min_int(offset + pool, total_count as int)),
{
    let sum = offset.checked_add(pool);
    let end = match sum {
        Some(e) => if e < total_count {
            e
        } else {
            total_count
        },
        None => total_count,
    };
    let mut rows: Vec<u64> = Vec::new();
    let mut r = offset;
    while r < end
        invariant
            offset <= r,
            end <= offset ==> r == offset,
            end > offset ==> r <= end,
            rows@ == row_range(offset as int, r as int),
        decreases end - r,
    {
        rows.push(r);
        proof {
            assert(rows@ =~= row_range(offset as int, r + 1));
        }
        r = r + 1;
    }
    proof {
        if end <= offset {
            assert(rows@ =~= row_range(offset as int, min_int(offset + pool, total_count as int)));
        } else {
            assert(r == end);
            assert(end == min_int(offset + pool, total_count as int));
        }
    }
    rows
}

// ---------------------------------------------------------------------------
// The row pool
// ---------------------------------------------------------------------------
/// What slot `s` keeps of the previous assignment: its row when that row is
/// still in the window or is the focused row.
pub open spec fn kept_slot(old: Seq<Option<u64>>, focus: Option<u64>, rows: Seq<u64>, s: int) -> Option<
    u64,
> {
    if 0 <= s < old.len() {
        match old[s] {
            Some(r) => if rows.contains(r) || focus == Some(r) {
                Some(r)
            } else {
                None
            },
            None => None,
        }
    } else {
        None
    }
}

/// The slots after the first step: what every slot keeps.
pub open spec fn kept(old: Seq<Option<u64>>, focus: Option<u64>, rows: Seq<u64>, pool: nat) -> Seq<
    Option<u64>,
> {
    Seq::new(pool, |s: int| kept_slot(old, focus, rows, s))
}

/// How many of the first `s` slots are free.
pub open spec fn free_before(slots: Seq<Option<u64>>, s: int) -> nat
    decreases s,
{
    if s <= 0 {
        0
    } else {
        free_before(slots, s - 1) + if slots[s - 1] is None {
            1nat
        } else {
            0nat
        }
    }
}

/// The focus sits below the window: the window scrolled up past it.
pub open spec fn focus_below(focus: Option<u64>, rows: Seq<u64>) -> bool {
    match focus {
        Some(f) => rows.len() == 0 || f > rows.last(),
        None => false,
    }
}

/// The window rows no kept slot holds, in window order.
pub open spec fn unplaced(slots: Seq<Option<u64>>, rows: Seq<u64>) -> Seq<u64> {
    rows.filter(|r: u64| !slots.contains(Some(r)))
}

/// The rows that go into the free slots: all unplaced rows when there is room;
/// otherwise as many as fit, dropping from the edge farthest from the focus.
pub open spec fn placed(old: Seq<Option<u64>>, focus: Option<u64>, rows: Seq<u64>, pool: nat) -> Seq<
    u64,
> {
    let k = kept(old, focus, rows, pool);
    let todo = unplaced(k, rows);
    let capacity = free_before(k, pool as int);
    if todo.len() > capacity {
        if focus_below(focus, rows) {
            todo.skip(todo.len() - capacity)
        } else {
            todo.take(capacity as int)
        }
    } else {
        todo
    }
}

/// The assignment of rows to pool slots: kept slots stay, the free slots take
/// the placed rows in order.
pub open spec fn assigned(old: Seq<Option<u64>>, focus: Option<u64>, rows: Seq<u64>, pool: nat) -> Seq<
    Option<u64>,
> {
    let k = kept(old, focus, rows, pool);
    let p = placed(old, focus, rows, pool);
    Seq::new(
        pool,
        |s: int|
            if k[s] is Some {
                k[s]
            } else if free_before(k, s) < p.len() {
                Some(p[free_before(k, s) as int])
            } else {
                None
            },
    )
}

fn holds(slots: &Vec<Option<u64>>, row: u64) -> (b: bool)
    ensures
        b == slots@.contains(Some(row)),
{
    let mut i: usize = 0;
    while i < slots.len()
        invariant
            i <= slots.len(),
            forall|j: int| 0 <= j < i ==> slots@[j] != Some(row),
        decreases slots.len() - i,
    {
        if slots[i] == Some(row) {
            return true;
        }
        i = i + 1;
    }
    false
}

fn in_rows(rows: &[u64], row: u64) -> (b: bool)
    ensures
        b == rows@.contains(row),
{
    let mut i: usize = 0;
    while i < rows.len()
        invariant
            i <= rows.len(),
            forall|j: int| 0 <= j < i ==> rows@[j] != row,
        decreases rows.len() - i,
    {
        if rows[i] == row {
            return true;
        }
        i = i + 1;
    }
    false
}

proof fn lemma_free_before_le(slots: Seq<Option<u64>>, s: int)
    requires
        0 <= s <= slots.len(),
    ensures
        free_before(slots, s) <= s,
    decreases s,
{
    if s > 0 {
        lemma_free_before_le(slots, s - 1);
    }
}

/// Assigns logical rows to pool slots, **pinning the focused row**: a slot
/// whose row is still in the window keeps it, the slot holding the focused row
/// keeps it even when it left the window, and the remaining window rows fill
/// the free slots in order.
pub fn assign_pool(old: &[Option<u64>], focus: Option<u64>, rows: &[u64], pool: usize) -> (new: Vec<
    Option<u64>,
>)
    ensures
        new@ == assigned(old@, focus, rows@, pool as nat),
{
    let ghost k = kept(old@, focus, rows@, pool as nat);
    // Keep what is still wanted.
    let mut new: Vec<Option<u64>> = Vec::new();
    let mut slot: usize = 0;
    while slot < pool
        invariant
            slot <= pool,
            k == kept(old@, focus, rows@, pool as nat),
            new@ == k.take(slot as int),
        decreases pool - slot,
    {
        let keep = if slot < old.len() {
            match old[slot] {
                Some(row) => if in_rows(rows, row) || focus == Some(row) {
                    Some(row)
                } else {
                    None
                },
                None => None,
            }
        } else {
            None
        };
        new.push(keep);
        proof {
            assert(new@ =~= k.take(slot + 1));
        }
        slot = slot + 1;
    }
    proof {
        assert(k.take(pool as int) =~= k);
    }
    // How many slots are free.
    let mut capacity: usize = 0;
    let mut s: usize = 0;
    while s < pool
        invariant
            s <= pool,
            new@ == k,
            k.len() == pool,
            capacity == free_before(k, s as int),
        decreases pool - s,
    {
        proof {
            lemma_free_before_le(k, s as int);
        }
        if new[s].is_none() {
            capacity = capacity + 1;
        }
        s = s + 1;
    }
    // The window rows no slot holds yet, in order.
    let ghost pred = |r: u64| !k.contains(Some(r));
    let mut todo: Vec<u64> = Vec::new();
    let mut i: usize = 0;
    while i < rows.len()
        invariant
            i <= rows.len(),
            new@ == k,
            pred == (|r: u64| !k.contains(Some(r))),
            todo@ == rows@.take(i as int).filter(pred),
        decreases rows.len() - i,
    {
        let row = rows[i];
        proof {
            assert(rows@.take(i + 1).drop_last() =~= rows@.take(i as int));
            reveal_with_fuel(Seq::filter, 1);
        }
        if !holds(&new, row) {
            todo.push(row);
        }
        i = i + 1;
    }
    proof {
        assert(rows@.take(rows.len() as int) =~= rows@);
        assert(todo@ == unplaced(k, rows@));
    }
    // Drop what does not fit, from the edge farthest from the focus.
    let below = match focus {
        Some(f) => rows.len() == 0 || f > rows[rows.len() - 1],
        None => false,
    };
    let mut place: Vec<u64> = Vec::new();
    let (from, to) = if todo.len() > capacity {
        if below {
            (todo.len() - capacity, todo.len())
        } else {
            (0, capacity)
        }
    } else {
        (0, todo.len())
    };
    let mut j: usize = from;
    while j < to
        invariant
            from <= j <= to <= todo.len(),
            place@ == todo@.subrange(from as int, j as int),
        decreases to - j,
    {
        place.push(todo[j]);
        proof {
            assert(place@ =~= todo@.subrange(from as int, j + 1));
        }
        j = j + 1;
    }
    let ghost p = placed(old@, focus, rows@, pool as nat);
    proof {
        assert(place@ =~= p);
    }
    // Fill the free slots in order.
    let mut s: usize = 0;
    let mut next: usize = 0;
    let ghost a = assigned(old@, focus, rows@, pool as nat);
    while s < pool
        invariant
            s <= pool,
            new@.len() == pool,
            k.len() == pool,
            place@ == p,
            a == assigned(old@, focus, rows@, pool as nat),
            p == placed(old@, focus, rows@, pool as nat),
            k == kept(old@, focus, rows@, pool as nat),
            next == free_before(k, s as int),
            forall|t: int| 0 <= t < s ==> new@[t] == a[t],
            forall|t: int| s <= t < pool ==> new@[t] == k[t],
        decreases pool - s,
    {
        proof {
            lemma_free_before_le(k, s as int);
        }
        if new[s].is_none() {
            if next < place.len() {
                new.set(s, Some(place[next]));
            }
            next = next + 1;
        }
        s = s + 1;
    }
    proof {
        assert(new@ =~= a);
    }
    new
}

/// The focused row keeps its slot: a slot that held it holds it after any
/// reassignment, whether or not it is still in the window.
pub proof fn lemma_pool_pins_focus(
    old: Seq<Option<u64>>,
    focus: Option<u64>,
    rows: Seq<u64>,
    pool: nat,
    s: int,
)
    requires
        0 <= s < pool,
        s < old.len(),
        focus is Some,
        old[s] == focus,
    ensures
        assigned(old, focus, rows, pool)[s] == focus,
{
    assert(kept(old, focus, rows, pool)[s] == focus);
}

/// A slot shows a row of the window or the focused row, and nothing else.
pub proof fn lemma_pool_shows_only_wanted(
    old: Seq<Option<u64>>,
    focus: Option<u64>,
    rows: Seq<u64>,
    pool: nat,
    s: int,
    r: u64,
)
    requires
        0 <= s < pool,
        assigned(old, focus, rows, pool)[s] == Some(r),
    ensures
        rows.contains(r) || focus == Some(r),
{
    let k = kept(old, focus, rows, pool);
    let p = placed(old, focus, rows, pool);
    let todo = unplaced(k, rows);
    if k[s] is None {
        let i = free_before(k, s) as int;
        assert(p[i] == r);
        let capacity = free_before(k, pool as int);
        let j: int = if todo.len() > capacity {
            if focus_below(focus, rows) {
                i + (todo.len() - capacity)
            } else {
                i
            }
        } else {
            i
        };
        assert(todo[j] == r);
        assert(todo.contains(r));
        lemma_filter_contains(rows, |x: u64| !k.contains(Some(x)), r);
    }
}

/// A page reads back as its own index: the page of `page * size` is `page`,
/// for every page that starts inside the result.
pub proof fn lemma_page_index_round_trip(page: u64, size: u64, total_count: u64)
    requires
        size > 0,
        page * size < total_count,
    ensures
        min_int(page * size, total_count as int) / (size as int) == page,
{
    assert((page * size) / (size as int) == page) by (nonlinear_arith)
        requires
            size > 0,
    ;
}

/// Every row is on exactly the page its index names: the page of row `r`
/// starts at or before it and holds it.
pub proof fn lemma_row_on_its_page(r: u64, size: u64, total_count: u64)
    requires
        size > 0,
        r < total_count,
    ensures
        ({
            let page = r / size;
            let base = min_int(page * size, total_count as int);
            let rows = min_int(total_count - base, size as int);
            base <= r < base + rows
        }),
{
    let page = r / size;
    assert(page * size <= r < page * size + size) by (nonlinear_arith)
        requires
            size > 0,
            page == r / size,
    ;
}

/// The viewport height in rows, the step of `PageUp` and `PageDown`: the
/// measured height over the row height, at least one; the default when the
/// grid has not been laid out yet.
pub fn viewport_rows(height: i32, row_height: u64) -> (n: u64)
    requires
        row_height > 0,
    ensures
        n == if height > 0 {
            max_int((height as int) / (row_height as int), 1)
        } else {
            DEFAULT_VIEWPORT_ROWS as int
        },
{
    if height > 0 {
        let rows = (height as u64) / row_height;
        if rows < 1 {
            1
        } else {
            rows
        }
    } else {
        DEFAULT_VIEWPORT_ROWS
    }
}

} // verus!
