//! The small decisions of drawing the grid: its density, the checkbox
//! glyphs, the sort marks on a header, the roving tabindex and where a pool
//! row is drawn.

use vstd::prelude::*;

use crate::grouping::{key_eq, keys_view, Key, KeyV};
use crate::keys::ActiveCell;
use crate::summary::{AggregateFn, Summary};
use crate::text::{decimal, push_decimal, same_text, trim, trimmed, views};
use crate::window::DEFAULT_ROW_HEIGHT;

verus! {

/// One density step: the attribute value that names it, the row height and
/// the cell padding in pixels, and the font size.
#[derive(Clone, Copy, Debug, PartialEq, Eq)]
pub struct Density {
    pub name: &'static str,
    pub row_height: u64,
    pub padding: u64,
    pub font_size: &'static str,
}

/// The compact step.
pub open spec fn compact() -> (Seq<char>, u64, u64, Seq<char>) {
    ("compact"@, 34, 10, "0.8125rem"@)
}

/// The normal step, the default.
pub open spec fn normal() -> (Seq<char>, u64, u64, Seq<char>) {
    ("normal"@, DEFAULT_ROW_HEIGHT, 12, "0.875rem"@)
}

/// The comfortable step.
pub open spec fn comfortable() -> (Seq<char>, u64, u64, Seq<char>) {
    ("comfortable"@, 50, 16, "0.875rem"@)
}

impl Density {
    pub open spec fn spec_tuple(self) -> (Seq<char>, u64, u64, Seq<char>) {
        (self.name@, self.row_height, self.padding, self.font_size@)
    }
}

/// The three steps, from the densest.
pub fn densities() -> (d: Vec<Density>)
    ensures
        d@.len() == 3,
        d@[0].spec_tuple() == compact(),
        d@[1].spec_tuple() == normal(),
        d@[2].spec_tuple() == comfortable(),
{
    vec![
        Density { name: "compact", row_height: 34, padding: 10, font_size: "0.8125rem" },
        Density { name: "normal", row_height: DEFAULT_ROW_HEIGHT, padding: 12, font_size: "0.875rem" },
        Density { name: "comfortable", row_height: 50, padding: 16, font_size: "0.875rem" },
    ]
}

/// The step a `density` attribute names, white space around it dropped, or
/// the normal one for anything else — absent included.
pub open spec fn density_spec(raw: Option<&str>) -> (Seq<char>, u64, u64, Seq<char>) {
    let wanted = match raw {
        Some(r) => trim(r@),
        None => Seq::empty(),
    };
    if wanted == compact().0 {
        compact()
    } else if wanted == normal().0 {
        normal()
    } else if wanted == comfortable().0 {
        comfortable()
    } else {
        normal()
    }
}

/// The density a value names, or `normal` for anything else.
pub fn density_of(raw: Option<&str>) -> (d: Density)
    ensures
        d.spec_tuple() == density_spec(raw),
{
    let wanted = match raw {
        Some(r) => trimmed(r),
        None => String::new(),
    };
    let all = densities();
    let mut i: usize = 0;
    while i < 3
        invariant
            i <= 3,
            all@.len() == 3,
            all@[0].spec_tuple() == compact(),
            all@[1].spec_tuple() == normal(),
            all@[2].spec_tuple() == comfortable(),
            wanted@ == (match raw {
                Some(r) => trim(r@),
                None => Seq::<char>::empty(),
            }),
            forall|j: int| 0 <= j < i ==> all@[j].name@ != wanted@,
        decreases 3 - i,
    {
        if same_text(all[i].name, wanted.as_str()) {
            return all[i];
        }
        i = i + 1;
    }
    all[1]
}

/// What a checkbox says.
#[derive(Clone, Copy, Debug, PartialEq, Eq, Structural)]
pub enum CheckState {
    Off,
    Mixed,
    On,
}

impl CheckState {
    /// The `aria-checked` value.
    pub open spec fn name(self) -> Seq<char> {
        match self {
            CheckState::Off => "false"@,
            CheckState::Mixed => "mixed"@,
            CheckState::On => "true"@,
        }
    }

    /// The `aria-checked` value.
    pub fn as_str(&self) -> (s: &'static str)
        ensures
            s@ == self.name(),
    {
        match self {
            CheckState::Off => "false",
            CheckState::Mixed => "mixed",
            CheckState::On => "true",
        }
    }
}

/// The glyph of a checkbox in one of its three states: a check mark, a dash,
/// or nothing.
pub open spec fn glyph_spec(state: CheckState) -> Seq<char> {
    match state {
        CheckState::On => seq!['\u{2713}'],
        CheckState::Mixed => seq!['\u{2013}'],
        CheckState::Off => Seq::empty(),
    }
}

/// The glyph of a checkbox. Text rather than an image: it survives forced
/// colours and scales with the font; the state itself is on the cell, in
/// words.
pub fn check_glyph(state: CheckState) -> (g: &'static str)
    ensures
        g@ == glyph_spec(state),
{
    proof {
        reveal_strlit("\u{2713}");
        reveal_strlit("\u{2013}");
        reveal_strlit("");
    }
    match state {
        CheckState::On => "\u{2713}",
        CheckState::Mixed => "\u{2013}",
        CheckState::Off => "",
    }
}

/// The state of the select-all header for a selection of `selected` rows
/// out of `total_count` matching ones: "all" means all matching rows, not
/// the loaded page.
pub open spec fn select_all_spec(selected: int, total_count: int) -> CheckState {
    if total_count == 0 || selected == 0 {
        CheckState::Off
    } else if selected >= total_count {
        CheckState::On
    } else {
        CheckState::Mixed
    }
}

/// The state of the select-all header.
pub fn select_all_state(selected: usize, total_count: u64) -> (s: CheckState)
    ensures
        s == select_all_spec(selected as int, total_count as int),
{
    if total_count == 0 || selected == 0 {
        CheckState::Off
    } else if selected as u64 >= total_count {
        CheckState::On
    } else {
        CheckState::Mixed
    }
}

/// The inline style placing a pool row at its logical position.
pub open spec fn row_style_spec(row: u64, row_height: u64) -> Seq<char> {
    "transform: translateY("@ + decimal((row * row_height) as nat) + "px);"@
}

/// The inline style placing a pool row at its logical position.
pub fn row_style(row: u64, row_height: u64) -> (s: String)
    requires
        row * row_height <= u64::MAX,
    ensures
        s@ == row_style_spec(row, row_height),
{
    let mut s = String::from_str("transform: translateY(");
    push_decimal(&mut s, row * row_height);
    s.append("px);");
    s
}

/// The sort keys as values.
pub open spec fn sorts_view(sorts: Seq<(String, &str)>) -> Seq<Seq<char>> {
    sorts.map_values(|p: (String, &str)| p.0@)
}

/// Where `name` first stands among the sort keys.
pub open spec fn sort_position_spec(fields: Seq<Seq<char>>, name: Seq<char>) -> Option<int>
    decreases fields.len(),
{
    if fields.len() == 0 {
        None
    } else if fields[0] == name {
        Some(0)
    } else {
        match sort_position_spec(fields.drop_first(), name) {
            Some(i) => Some(i + 1),
            None => None,
        }
    }
}

/// The position of a column in the sort list, if it is a key.
pub fn sort_position(sorts: &[(String, &str)], name: &str) -> (p: Option<usize>)
    ensures
        match p {
            Some(i) => sort_position_spec(sorts_view(sorts@), name@) == Some(i as int),
            None => sort_position_spec(sorts_view(sorts@), name@) is None,
        },
{
    let ghost all = sorts_view(sorts@);
    let mut i: usize = 0;
    while i < sorts.len()
        invariant
            i <= sorts@.len(),
            all == sorts_view(sorts@),
            forall|j: int| 0 <= j < i ==> all[j] != name@,
        decreases sorts.len() - i,
    {
        proof {
            assert(all[i as int] == sorts@[i as int].0@);
        }
        if same_text(sorts[i].0.as_str(), name) {
            proof {
                lemma_sort_position(all, name@, i as int);
            }
            return Some(i);
        }
        i = i + 1;
    }
    proof {
        lemma_sort_position(all, name@, i as int);
    }
    None
}

proof fn lemma_sort_position(s: Seq<Seq<char>>, x: Seq<char>, i: int)
    requires
        0 <= i <= s.len(),
        forall|j: int| 0 <= j < i ==> s[j] != x,
    ensures
        i < s.len() && s[i] == x ==> sort_position_spec(s, x) == Some(i),
        i == s.len() ==> sort_position_spec(s, x) is None,
    decreases i,
{
    if s.len() > 0 && i > 0 {
        assert forall|j: int| 0 <= j < i - 1 implies s.drop_first()[j] != x by {
            assert(s.drop_first()[j] == s[j + 1]);
        }
        lemma_sort_position(s.drop_first(), x, i - 1);
        if i < s.len() {
            assert(s.drop_first()[i - 1] == s[i]);
        }
    }
}

/// The mark of an ascending sort.
pub const ASCENDING_GLYPH: &'static str = "\u{25B2}";

/// The mark of a descending sort.
pub const DESCENDING_GLYPH: &'static str = "\u{25BC}";

/// The visible mark of a wire sort direction, empty for an unknown one.
pub open spec fn direction_glyph_spec(direction: Seq<char>) -> Seq<char> {
    if direction == "asc"@ {
        seq!['\u{25B2}']
    } else if direction == "desc"@ {
        seq!['\u{25BC}']
    } else {
        Seq::empty()
    }
}

/// The visible mark of a sort direction.
pub fn direction_glyph(direction: &str) -> (g: &'static str)
    ensures
        g@ == direction_glyph_spec(direction@),
{
    proof {
        reveal_strlit("\u{25B2}");
        reveal_strlit("\u{25BC}");
        reveal_strlit("");
    }
    if same_text(direction, "asc") {
        ASCENDING_GLYPH
    } else if same_text(direction, "desc") {
        DESCENDING_GLYPH
    } else {
        ""
    }
}

/// The `aria-sort` token of a wire direction.
pub open spec fn aria_sort_spec(direction: Seq<char>) -> Seq<char> {
    if direction == "asc"@ {
        "ascending"@
    } else if direction == "desc"@ {
        "descending"@
    } else {
        "none"@
    }
}

/// The `aria-sort` token of a wire direction.
pub fn aria_sort(direction: &str) -> (s: &'static str)
    ensures
        s@ == aria_sort_spec(direction@),
{
    if same_text(direction, "asc") {
        "ascending"
    } else if same_text(direction, "desc") {
        "descending"
    } else {
        "none"
    }
}

/// The `tabindex` of a cell: `0` for the active one, `-1` otherwise — one
/// tab stop for the whole grid.
pub fn tabindex_for(is_active: bool) -> (s: &'static str)
    ensures
        s@ == (if is_active {
            "0"@
        } else {
            "-1"@
        }),
{
    if is_active {
        "0"
    } else {
        "-1"
    }
}

/// A whole number as `to_string` writes it.
pub open spec fn signed_decimal(i: i64) -> Seq<char> {
    if i < 0 {
        seq!['-'] + decimal((-(i as int)) as nat)
    } else {
        decimal(i as nat)
    }
}

/// A wire value in its own notation: NULL as nothing, a boolean as `true`
/// or `false`, a whole number in decimal, any other number as its digits,
/// and text as itself.
pub open spec fn plain_spec(value: KeyV) -> Seq<char> {
    match value {
        KeyV::Null => Seq::empty(),
        KeyV::Bool(b) => if b {
            "true"@
        } else {
            "false"@
        },
        KeyV::Int(i) => signed_decimal(i),
        KeyV::Number(s) => s,
        KeyV::Text(s) => s,
    }
}

/// A wire value in its own notation. NULL is empty: the column header says
/// which column, and "no value" is not a word the data chose.
pub fn plain_text(value: &Key) -> (s: String)
    ensures
        s@ == plain_spec(value@),
{
    match value {
        Key::Null => String::new(),
        Key::Bool(b) => if *b {
            String::from_str("true")
        } else {
            String::from_str("false")
        },
        Key::Int(i) => {
            let mut s = String::new();
            if *i < 0 {
                s.append("-");
                let m: u64 = if *i == i64::MIN {
                    0x8000_0000_0000_0000u64
                } else {
                    (0 - *i) as u64
                };
                push_decimal(&mut s, m);
                proof {
                    reveal_strlit("-");
                    assert(s@ =~= seq!['-'] + decimal((-(*i as int)) as nat));
                }
            } else {
                push_decimal(&mut s, *i as u64);
                proof {
                    assert(s@ =~= decimal(*i as nat));
                }
            }
            s
        },
        Key::Number(t) => t.clone(),
        Key::Text(t) => t.clone(),
    }
}

/// The built-in rendering of cells: each value in its own notation,
/// whatever the column.
#[derive(Clone, Copy, Debug)]
pub struct Plain;

impl Plain {
    /// The text of `value` in the column at `column`.
    pub fn text(&self, column: usize, value: &Key) -> (s: String)
        ensures
            s@ == plain_spec(value@),
    {
        plain_text(value)
    }
}

/// An aggregate as text, given the text the column's format gives each of
/// its values. A count is a number of rows, whatever the column holds, so it
/// is written plainly; NULL — a sum over nothing — is empty, not zero; a
/// range is its two ends, once when they are the same.
pub open spec fn aggregate_text_spec(
    summary: Summary,
    values: Seq<KeyV>,
    formatted: Seq<Seq<char>>,
) -> Seq<char> {
    if summary == Summary::Range && values.len() == 2 {
        if values[0] == KeyV::Null && values[1] == KeyV::Null {
            Seq::empty()
        } else if values[0] == values[1] {
            formatted[0]
        } else {
            formatted[0] + seq![' ', '\u{2013}', ' '] + formatted[1]
        }
    } else if values.len() == 0 || (values.len() == 1 && values[0] == KeyV::Null) {
        Seq::empty()
    } else if summary == Summary::Fn(AggregateFn::Count) && values.len() == 1 {
        plain_spec(values[0])
    } else {
        formatted[0]
    }
}

/// An aggregate as text; `formatted` holds what the column's format makes
/// of each value.
pub fn aggregate_text(summary: Summary, values: &[Key], formatted: &[String]) -> (s: String)
    requires
        formatted@.len() == values@.len(),
    ensures
        s@ == aggregate_text_spec(summary, keys_view(values@), views(formatted@)),
{
    let ghost vs = keys_view(values@);
    let ghost fs = views(formatted@);
    proof {
        if values@.len() > 0 {
            assert(vs[0] == values@[0]@);
            assert(fs[0] == formatted@[0]@);
        }
        if values@.len() > 1 {
            assert(vs[1] == values@[1]@);
            assert(fs[1] == formatted@[1]@);
        }
    }
    let is_range = match summary {
        Summary::Range => true,
        _ => false,
    };
    if is_range && values.len() == 2 {
        let both_null = match (&values[0], &values[1]) {
            (Key::Null, Key::Null) => true,
            _ => false,
        };
        if both_null {
            return String::new();
        }
        if key_eq(&values[0], &values[1]) {
            return formatted[0].clone();
        }
        let mut s = formatted[0].clone();
        s.append(" \u{2013} ");
        s.append(formatted[1].as_str());
        proof {
            reveal_strlit(" \u{2013} ");
        }
        return s;
    }
    let null_only = values.len() == 1 && match &values[0] {
        Key::Null => true,
        _ => false,
    };
    if values.len() == 0 || null_only {
        return String::new();
    }
    let is_count = match summary {
        Summary::Fn(AggregateFn::Count) => true,
        _ => false,
    };
    if is_count && values.len() == 1 {
        return plain_text(&values[0]);
    }
    formatted[0].clone()
}

/// The CSS selector of the node that takes the focus for `active`: the
/// selection column by `data-select`, a header by its schema column, a cell
/// by its logical row and column.
pub open spec fn selector_spec(active: ActiveCell) -> Seq<char> {
    match active {
        ActiveCell::SelectAll => "[data-select=\"all\"] > [part=\"select-mark\"]"@,
        ActiveCell::Select { row } => "tr:has(td[data-row=\""@ + decimal(row as nat)
            + "\"]) > td[data-select=\"row\"]"@,
        ActiveCell::Header { col } => "th[data-col=\""@ + decimal(col as nat) + "\"]"@,
        ActiveCell::Data(cell) => "td[data-row=\""@ + decimal(cell.row as nat)
            + "\"][data-col=\""@ + decimal(cell.col as nat) + "\"]"@,
    }
}

/// The CSS selector of the node that takes the focus for `active`.
pub fn selector(active: ActiveCell) -> (s: String)
    ensures
        s@ == selector_spec(active),
{
    match active {
        ActiveCell::SelectAll => String::from_str("[data-select=\"all\"] > [part=\"select-mark\"]"),
        ActiveCell::Select { row } => {
            let mut s = String::from_str("tr:has(td[data-row=\"");
            push_decimal(&mut s, row);
            s.append("\"]) > td[data-select=\"row\"]");
            s
        },
        ActiveCell::Header { col } => {
            let mut s = String::from_str("th[data-col=\"");
            push_decimal(&mut s, col as u64);
            s.append("\"]");
            s
        },
        ActiveCell::Data(cell) => {
            let mut s = String::from_str("td[data-row=\"");
            push_decimal(&mut s, cell.row);
            s.append("\"][data-col=\"");
            push_decimal(&mut s, cell.col as u64);
            s.append("\"]");
            s
        },
    }
}

} // verus!
