//! The pivot: the request built from the host attributes, the answer read
//! back from its JSON, and the model that answer holds — dimensions,
//! generated columns, subtotal levels and the cells, ready to render as a
//! native table with a two-level header.
//!
//! A subtotal is marked by its level — how many row dimensions are set —
//! never by a NULL, because a NULL group and a total both carry NULL in the
//! dimension column; only the level tells them apart.

use vstd::prelude::*;

use crate::json::{
    as_text, json_seq, json_text, json_text_of, json_value, json_value_of, lemma_array_view, member,
    member_of, text_or_empty, texts_json, texts_value, Json, JsonV,
};
use crate::text::{name_list, names, parse_u64, parse_u64_spec, same_text, text_of, trim, trimmed, views};

verus! {

/// An optional text as a value.
pub open spec fn opt_view(v: Option<String>) -> Option<Seq<char>> {
    match v {
        Some(s) => Some(s@),
        None => None,
    }
}

/// A path of optional texts as values.
pub open spec fn path_view(p: Seq<Option<String>>) -> Seq<Option<Seq<char>>> {
    p.map_values(|v: Option<String>| opt_view(v))
}

/// A comma-separated attribute as a list of names, empty ones dropped.
pub fn parse_dimensions(raw: Option<&str>) -> (out: Vec<String>)
    ensures
        views(out@) == name_list(text_of(raw)),
{
    names(raw)
}

/// One generated column: the column-dimension values it stands for (`None`
/// is NULL; empty when there is no column dimension) and the measure it
/// holds.
#[derive(Debug, PartialEq, Eq)]
pub struct ColumnHeader {
    pub path: Vec<Option<String>>,
    pub measure: String,
}

/// A pivot answer, ready to render.
#[derive(Debug, PartialEq, Eq)]
pub struct PivotModel {
    /// The row dimensions, outermost first.
    pub row_dimensions: Vec<String>,
    pub columns: Vec<ColumnHeader>,
    /// Per row: how many row dimensions are set.
    pub levels: Vec<u16>,
    /// Per row, one cell per row dimension and then per column; `None` is
    /// NULL.
    pub rows: Vec<Vec<Option<String>>>,
}

/// The paths of some generated columns.
pub open spec fn paths_of(cs: Seq<ColumnHeader>) -> Seq<Seq<Option<Seq<char>>>> {
    cs.map_values(|c: ColumnHeader| path_view(c.path@))
}

/// The measures of some generated columns.
pub open spec fn measures_of(cs: Seq<ColumnHeader>) -> Seq<Seq<char>> {
    cs.map_values(|c: ColumnHeader| c.measure@)
}

/// How many paths from the start equal the first one.
pub open spec fn leading_run(ps: Seq<Seq<Option<Seq<char>>>>, n: nat) -> nat
    decreases n,
{
    if n == 0 {
        0
    } else if leading_run(ps, (n - 1) as nat) == n - 1 && ps[n - 1] == ps[0] {
        n
    } else {
        leading_run(ps, (n - 1) as nat)
    }
}

/// The distinct paths in order, each run of equal neighbours once.
pub open spec fn runs(ps: Seq<Seq<Option<Seq<char>>>>) -> Seq<Seq<Option<Seq<char>>>>
    decreases ps.len(),
{
    if ps.len() == 0 {
        Seq::empty()
    } else {
        let r = runs(ps.drop_last());
        if r.len() > 0 && r.last() == ps.last() {
            r
        } else {
            r.push(ps.last())
        }
    }
}

/// Whether two optional texts are the same.
fn same_opt(a: &Option<String>, b: &Option<String>) -> (r: bool)
    ensures
        r == (opt_view(*a) == opt_view(*b)),
{
    match (a, b) {
        (Some(x), Some(y)) => same_text(x.as_str(), y.as_str()),
        (None, None) => true,
        _ => false,
    }
}

/// Whether two paths are the same values.
fn same_path(a: &[Option<String>], b: &[Option<String>]) -> (r: bool)
    ensures
        r == (path_view(a@) == path_view(b@)),
{
    if a.len() != b.len() {
        proof {
            assert(path_view(a@).len() != path_view(b@).len());
        }
        return false;
    }
    let mut i: usize = 0;
    while i < a.len()
        invariant
            a@.len() == b@.len(),
            i <= a@.len(),
            forall|j: int| 0 <= j < i ==> opt_view(a@[j]) == opt_view(b@[j]),
        decreases a.len() - i,
    {
        if !same_opt(&a[i], &b[i]) {
            proof {
                assert(path_view(a@)[i as int] != path_view(b@)[i as int]);
            }
            return false;
        }
        i = i + 1;
    }
    proof {
        assert(path_view(a@) =~= path_view(b@));
    }
    true
}

impl PivotModel {
    /// How many measures repeat under each column value: the columns from
    /// the first on that share its path.
    pub fn measures(&self) -> (n: usize)
        ensures
            n == leading_run(paths_of(self.columns@), self.columns@.len() as nat),
    {
        let ghost ps = paths_of(self.columns@);
        if self.columns.len() == 0 {
            return 0;
        }
        let mut n: usize = 0;
        let mut stopped = false;
        let mut i: usize = 0;
        while i < self.columns.len()
            invariant
                i <= self.columns@.len(),
                ps == paths_of(self.columns@),
                self.columns@.len() > 0,
                n <= i,
                n == leading_run(ps, i as nat),
                stopped == (n < i),
            decreases self.columns.len() - i,
        {
            proof {
                assert(ps[i as int] == path_view(self.columns@[i as int].path@));
                assert(ps[0] == path_view(self.columns@[0].path@));
            }
            if !stopped && same_path(self.columns[i].path.as_slice(), self.columns[0].path.as_slice()) {
                n = n + 1;
            } else {
                stopped = true;
            }
            i = i + 1;
        }
        n
    }

    /// The distinct column-dimension values, in order.
    pub fn groups(&self) -> (gs: Vec<&[Option<String>]>)
        ensures
            gs@.map_values(|g: &[Option<String>]| path_view(g@)) == runs(paths_of(self.columns@)),
    {
        let ghost ps = paths_of(self.columns@);
        let mut gs: Vec<&[Option<String>]> = Vec::new();
        let mut i: usize = 0;
        while i < self.columns.len()
            invariant
                i <= self.columns@.len(),
                ps == paths_of(self.columns@),
                gs@.map_values(|g: &[Option<String>]| path_view(g@)) == runs(ps.take(i as int)),
            decreases self.columns.len() - i,
        {
            let path = self.columns[i].path.as_slice();
            let ghost before = gs@.map_values(|g: &[Option<String>]| path_view(g@));
            proof {
                assert(ps.take(i + 1).drop_last() =~= ps.take(i as int));
                assert(ps.take(i + 1).last() == path_view(path@));
            }
            let fresh = gs.len() == 0 || !same_path(gs[gs.len() - 1], path);
            if fresh {
                gs.push(path);
                proof {
                    assert(gs@.map_values(|g: &[Option<String>]| path_view(g@)) =~= before.push(
                        path_view(path@),
                    ));
                }
            }
            i = i + 1;
        }
        proof {
            assert(ps.take(i as int) =~= ps);
        }
        gs
    }
}

/// A data cell as text: NULL and the empty string both render as nothing.
pub fn cell(value: &Option<String>) -> (s: String)
    ensures
        s@ == (match opt_view(*value) {
            Some(t) => t,
            None => Seq::<char>::empty(),
        }),
{
    match value {
        Some(t) => t.clone(),
        None => String::new(),
    }
}

/// The cell of row `index` in a column of values: `None` past its end.
pub open spec fn cell_at(column: Seq<Option<String>>, index: int) -> Option<Seq<char>> {
    if 0 <= index < column.len() {
        opt_view(column[index])
    } else {
        None
    }
}

/// A row level as the model keeps it: the low 16 bits of the number.
pub open spec fn level_of(n: u64) -> u16 {
    (n % 0x1_0000) as u16
}

/// A copy of an optional text.
fn copy_opt(v: &Option<String>) -> (r: Option<String>)
    ensures
        opt_view(r) == opt_view(*v),
{
    match v {
        Some(t) => Some(t.clone()),
        None => None,
    }
}

/// The model of a pivot answer from its parts: the row dimensions, the
/// generated columns, the level of each row, and the cells as the result
/// form carries them — column by column, one value per row. The cells are
/// turned into rows here and nowhere else.
pub fn model_from_parts(
    row_dimensions: Vec<String>,
    columns: Vec<ColumnHeader>,
    levels: &[u64],
    cells: &[Vec<Option<String>>],
) -> (m: PivotModel)
    ensures
        views(m.row_dimensions@) == views(row_dimensions@),
        paths_of(m.columns@) == paths_of(columns@),
        measures_of(m.columns@) == measures_of(columns@),
        m.levels@.len() == levels@.len(),
        forall|r: int| 0 <= r < levels@.len() ==> m.levels@[r] == level_of(#[trigger] levels@[r]),
        m.rows@.len() == levels@.len(),
        forall|r: int|
            0 <= r < levels@.len() ==> (#[trigger] m.rows@[r])@.len() == cells@.len() && forall|
                c: int,
            |
                0 <= c < cells@.len() ==> opt_view(#[trigger] m.rows@[r]@[c]) == cell_at(
                    cells@[c]@,
                    r,
                ),
{
    let mut lv: Vec<u16> = Vec::new();
    let mut rows: Vec<Vec<Option<String>>> = Vec::new();
    let mut r: usize = 0;
    while r < levels.len()
        invariant
            r <= levels@.len(),
            lv@.len() == r,
            rows@.len() == r,
            forall|k: int| 0 <= k < r ==> lv@[k] == level_of(#[trigger] levels@[k]),
            forall|k: int|
                0 <= k < r ==> (#[trigger] rows@[k])@.len() == cells@.len() && forall|c: int|
                    0 <= c < cells@.len() ==> opt_view(#[trigger] rows@[k]@[c]) == cell_at(
                        cells@[c]@,
                        k,
                    ),
        decreases levels.len() - r,
    {
        lv.push((levels[r] % 0x1_0000) as u16);
        let mut row: Vec<Option<String>> = Vec::new();
        let mut c: usize = 0;
        while c < cells.len()
            invariant
                c <= cells@.len(),
                r < levels@.len(),
                row@.len() == c,
                forall|j: int|
                    0 <= j < c ==> opt_view(#[trigger] row@[j]) == cell_at(cells@[j]@, r as int),
            decreases cells.len() - c,
        {
            if r < cells[c].len() {
                row.push(copy_opt(&cells[c][r]));
            } else {
                row.push(None);
            }
            c = c + 1;
        }
        rows.push(row);
        r = r + 1;
    }
    PivotModel { row_dimensions, columns, levels: lv, rows }
}

/// The pivot request, once the measures' text has been read as JSON: the
/// source, the row and column dimensions and the measures, as one compact
/// JSON object with its members in name order. Measures that are missing,
/// not JSON, or not an array are said in words rather than sent to a
/// server that would answer less helpfully.
pub open spec fn pivot_request_spec(
    source: Seq<char>,
    rows: Seq<Seq<char>>,
    columns: Seq<Seq<char>>,
    raw: Seq<char>,
    parsed: Result<JsonV, Seq<char>>,
) -> Result<Seq<char>, Seq<char>> {
    if raw.len() == 0 {
        Err("the values attribute is empty: a pivot needs a measure"@)
    } else {
        match parsed {
            Err(message) => Err("the values attribute is not JSON: "@ + message),
            Ok(JsonV::Array(measures)) => Ok(
                json_text_of(
                    JsonV::Object(
                        seq![
                            ("columns"@, texts_value(columns)),
                            ("rows"@, texts_value(rows)),
                            ("source"@, JsonV::Text(source)),
                            ("values"@, JsonV::Array(measures)),
                        ],
                    ),
                ),
            ),
            Ok(_) => Err("the values attribute must be a JSON array of measures"@),
        }
    }
}

/// The pivot request from its parts, given the trimmed text of the `values`
/// attribute and what it is as JSON.
pub fn pivot_request(
    source: &str,
    rows: &[String],
    columns: &[String],
    raw: &str,
    parsed: Result<Json, String>,
) -> (r: Result<String, String>)
    ensures
        match r {
            Ok(s) => pivot_request_spec(
                source@,
                views(rows@),
                views(columns@),
                raw@,
                parsed_view(parsed),
            ) == Ok::<Seq<char>, Seq<char>>(s@),
            Err(e) => pivot_request_spec(
                source@,
                views(rows@),
                views(columns@),
                raw@,
                parsed_view(parsed),
            ) == Err::<Seq<char>, Seq<char>>(e@),
        },
{
    if raw.unicode_len() == 0 {
        return Err(String::from_str("the values attribute is empty: a pivot needs a measure"));
    }
    match parsed {
        Err(message) => {
            let mut e = String::from_str("the values attribute is not JSON: ");
            e.append(message.as_str());
            Err(e)
        },
        Ok(measures) => {
            let ghost mv = measures@;
            match measures {
                Json::Array(items) => {
                    let mut members: Vec<(String, Json)> = Vec::new();
                    members.push((String::from_str("columns"), texts_json(columns)));
                    members.push((String::from_str("rows"), texts_json(rows)));
                    members.push((String::from_str("source"), Json::Text(String::from_str(source))));
                    members.push((String::from_str("values"), Json::Array(items)));
                    let ghost ms0 = members@;
                    let request = Json::Object(members);
                    let out = json_text(&request);
                    proof {
                        let want = JsonV::Object(
                            seq![
                                ("columns"@, texts_value(views(columns@))),
                                ("rows"@, texts_value(views(rows@))),
                                ("source"@, JsonV::Text(source@)),
                                ("values"@, mv),
                            ],
                        );
                        assert(ms0[3].1@ == mv);
                        assert(ms0.len() == 4);
                        assert(ms0[0].0@ == "columns"@);
                        assert(ms0[0].1@ == texts_value(views(columns@)));
                        assert(ms0[1].1@ == texts_value(views(rows@)));
                        assert(ms0[2].1@ == JsonV::Text(source@));
                        match request@ {
                            JsonV::Object(ms) => {
                                assert(ms.len() == 4);
                                assert(ms[0] == (ms0[0].0@, ms0[0].1@));
                                assert(ms[3] == (ms0[3].0@, ms0[3].1@));
                                assert(ms =~= seq![
                                    ("columns"@, texts_value(views(columns@))),
                                    ("rows"@, texts_value(views(rows@))),
                                    ("source"@, JsonV::Text(source@)),
                                    ("values"@, mv),
                                ]);
                            },
                            _ => {},
                        }
                        assert(request@ == want);
                    }
                    Ok(out)
                },
                _ => Err(String::from_str("the values attribute must be a JSON array of measures")),
            }
        },
    }
}

/// A parse result as a value.
pub open spec fn parsed_view(parsed: Result<Json, String>) -> Result<JsonV, Seq<char>> {
    match parsed {
        Ok(j) => Ok(j@),
        Err(e) => Err(e@),
    }
}

/// Builds the pivot request from the host attributes: the source, the row
/// and column dimensions, and the measures of the `values` attribute, which
/// must be a JSON array; or why it cannot be sent.
pub fn pivot_json(source: &str, rows: &[String], columns: &[String], values: Option<&str>) -> (r:
    Result<String, String>)
    ensures
        match r {
            Ok(s) => pivot_request_spec(
                source@,
                views(rows@),
                views(columns@),
                trim(text_of(values)),
                json_value_of(trim(text_of(values))),
            ) == Ok::<Seq<char>, Seq<char>>(s@),
            Err(e) => pivot_request_spec(
                source@,
                views(rows@),
                views(columns@),
                trim(text_of(values)),
                json_value_of(trim(text_of(values))),
            ) == Err::<Seq<char>, Seq<char>>(e@),
        },
{
    let text: &str = match values {
        Some(v) => v,
        None => "",
    };
    proof {
        if values.is_none() {
            reveal_strlit("");
            assert(text@ =~= text_of(values));
        }
    }
    let raw = trimmed(text);
    let parsed = json_value(raw.as_str());
    proof {
        assert(parsed_view(parsed) == json_value_of(raw@));
    }
    pivot_request(source, rows, columns, raw.as_str(), parsed)
}

/// A pivot answer as a value: the row dimensions, each generated column's
/// path and measure, the level of each row, and the cells row by row.
pub struct PivotV {
    pub row_dimensions: Seq<Seq<char>>,
    pub paths: Seq<Seq<Option<Seq<char>>>>,
    pub measures: Seq<Seq<char>>,
    pub levels: Seq<u16>,
    pub rows: Seq<Seq<Option<Seq<char>>>>,
}

impl View for PivotModel {
    type V = PivotV;

    open spec fn view(&self) -> PivotV {
        PivotV {
            row_dimensions: views(self.row_dimensions@),
            paths: paths_of(self.columns@),
            measures: measures_of(self.columns@),
            levels: self.levels@,
            rows: self.rows@.map_values(|r: Vec<Option<String>>| path_view(r@)),
        }
    }
}

/// A JSON value as a cell: `null` is NULL, a string is its text, anything
/// else its JSON text.
pub open spec fn render_spec(v: JsonV) -> Option<Seq<char>> {
    match v {
        JsonV::Null => None,
        JsonV::Text(t) => Some(t),
        _ => Some(json_text_of(v)),
    }
}

/// A row level as the answer writes it: a whole number that fits 64 bits,
/// and 0 for anything else.
pub open spec fn level_value(v: JsonV) -> u64 {
    match v {
        JsonV::Number(t) => match parse_u64_spec(t) {
            Some(n) => n,
            None => 0,
        },
        _ => 0,
    }
}

/// The cells of a JSON array, and none for any other value.
pub open spec fn rendered(v: JsonV) -> Seq<Option<Seq<char>>> {
    match v {
        JsonV::Array(items) => items.map_values(|i: JsonV| render_spec(i)),
        _ => Seq::empty(),
    }
}

/// Row `r` of a column of cells: NULL past its end.
pub open spec fn cell_in(column: Seq<Option<Seq<char>>>, r: int) -> Option<Seq<char>> {
    if 0 <= r < column.len() {
        column[r]
    } else {
        None
    }
}

/// The model a pivot answer's JSON holds, or which part it lacks: the
/// `row_dimensions`, `columns` and `levels` arrays and the
/// `result.columns` array of cells, each column of which carries its
/// `values`; the cells are turned from columns into rows.
pub open spec fn pivot_parts_spec(body: JsonV) -> Result<PivotV, Seq<char>> {
    match member(body, "row_dimensions"@) {
        JsonV::Array(names) => match member(body, "columns"@) {
            JsonV::Array(cols) => match member(body, "levels"@) {
                JsonV::Array(levels) => match member(member(body, "result"@), "columns"@) {
                    JsonV::Array(cells) => Ok(
                        PivotV {
                            row_dimensions: names.map_values(|n: JsonV| as_text(n)),
                            paths: cols.map_values(|c: JsonV| rendered(member(c, "path"@))),
                            measures: cols.map_values(|c: JsonV| as_text(member(c, "measure"@))),
                            levels: levels.map_values(|l: JsonV| level_of(level_value(l))),
                            rows: Seq::new(
                                levels.len(),
                                |r: int|
                                    Seq::new(
                                        cells.len(),
                                        |c: int| cell_in(rendered(member(cells[c], "values"@)), r),
                                    ),
                            ),
                        },
                    ),
                    _ => Err("result has no cells"@),
                },
                _ => Err("result has no levels"@),
            },
            _ => Err("result has no columns"@),
        },
        _ => Err("result has no row_dimensions"@),
    }
}

/// What a pivot answer's text gives: the parser's message when it is not
/// JSON, else the model its JSON holds or which part it lacks.
pub open spec fn parse_result_spec(parsed: Result<JsonV, Seq<char>>) -> Result<PivotV, Seq<char>> {
    match parsed {
        Err(message) => Err(message),
        Ok(body) => pivot_parts_spec(body),
    }
}

/// A JSON value as a cell.
fn render(value: &Json) -> (r: Option<String>)
    ensures
        opt_view(r) == render_spec(value@),
{
    match value {
        Json::Null => None,
        Json::Text(t) => Some(t.clone()),
        _ => Some(json_text(value)),
    }
}

/// The cells of a JSON array, and none for a missing member or another value.
fn render_all(value: Option<&Json>) -> (out: Vec<Option<String>>)
    ensures
        path_view(out@) == match value {
            Some(v) => rendered(v@),
            None => Seq::<Option<Seq<char>>>::empty(),
        },
{
    let mut out: Vec<Option<String>> = Vec::new();
    match value {
        Some(Json::Array(items)) => {
            proof {
                lemma_array_view(*items);
            }
            let mut i: usize = 0;
            while i < items.len()
                invariant
                    i <= items@.len(),
                    out@.len() == i,
                    forall|k: int| 0 <= k < i ==> opt_view(#[trigger] out@[k]) == render_spec(items@[k]@),
                decreases items.len() - i,
            {
                out.push(render(&items[i]));
                i = i + 1;
            }
            proof {
                assert(path_view(out@) =~= json_seq(items@).map_values(|i: JsonV| render_spec(i)));
            }
        },
        _ => {
            proof {
                assert(path_view(out@) =~= Seq::<Option<Seq<char>>>::empty());
            }
        },
    }
    out
}

/// The level a JSON value gives a row.
fn level_from(value: &Json) -> (n: u64)
    ensures
        n == level_value(value@),
{
    match value {
        Json::Number(t) => match parse_u64(t.as_str()) {
            Some(n) => n,
            None => 0,
        },
        _ => 0,
    }
}

/// The model a pivot answer's JSON holds, or which part it lacks.
pub fn pivot_parts(body: &Json) -> (r: Result<PivotModel, String>)
    ensures
        match r {
            Ok(m) => pivot_parts_spec(body@) == Ok::<PivotV, Seq<char>>(m@),
            Err(e) => pivot_parts_spec(body@) == Err::<PivotV, Seq<char>>(e@),
        },
{
    let names = match member_of(body, "row_dimensions") {
        Some(Json::Array(items)) => items,
        _ => {
            return Err(String::from_str("result has no row_dimensions"));
        },
    };
    let cols = match member_of(body, "columns") {
        Some(Json::Array(items)) => items,
        _ => {
            return Err(String::from_str("result has no columns"));
        },
    };
    let level_items = match member_of(body, "levels") {
        Some(Json::Array(items)) => items,
        _ => {
            return Err(String::from_str("result has no levels"));
        },
    };
    let result = member_of(body, "result");
    let cell_items = match result {
        Some(res) => match member_of(res, "columns") {
            Some(Json::Array(items)) => items,
            _ => {
                return Err(String::from_str("result has no cells"));
            },
        },
        None => {
            return Err(String::from_str("result has no cells"));
        },
    };
    proof {
        lemma_array_view(*names);
        lemma_array_view(*cols);
        lemma_array_view(*level_items);
        lemma_array_view(*cell_items);
    }
    let mut row_dimensions: Vec<String> = Vec::new();
    let mut i: usize = 0;
    while i < names.len()
        invariant
            i <= names@.len(),
            row_dimensions@.len() == i,
            forall|k: int| 0 <= k < i ==> (#[trigger] row_dimensions@[k])@ == as_text(names@[k]@),
        decreases names.len() - i,
    {
        row_dimensions.push(text_or_empty(Some(&names[i])));
        i = i + 1;
    }
    let mut columns: Vec<ColumnHeader> = Vec::new();
    let mut i: usize = 0;
    while i < cols.len()
        invariant
            i <= cols@.len(),
            columns@.len() == i,
            forall|k: int|
                0 <= k < i ==> path_view((#[trigger] columns@[k]).path@) == rendered(
                    member(cols@[k]@, "path"@),
                ) && columns@[k].measure@ == as_text(member(cols@[k]@, "measure"@)),
        decreases cols.len() - i,
    {
        let path = render_all(member_of(&cols[i], "path"));
        let measure = text_or_empty(member_of(&cols[i], "measure"));
        columns.push(ColumnHeader { path, measure });
        i = i + 1;
    }
    let mut levels: Vec<u64> = Vec::new();
    let mut i: usize = 0;
    while i < level_items.len()
        invariant
            i <= level_items@.len(),
            levels@.len() == i,
            forall|k: int| 0 <= k < i ==> #[trigger] levels@[k] == level_value(level_items@[k]@),
        decreases level_items.len() - i,
    {
        levels.push(level_from(&level_items[i]));
        i = i + 1;
    }
    let mut cells: Vec<Vec<Option<String>>> = Vec::new();
    let mut i: usize = 0;
    while i < cell_items.len()
        invariant
            i <= cell_items@.len(),
            cells@.len() == i,
            forall|k: int|
                0 <= k < i ==> path_view((#[trigger] cells@[k])@) == rendered(
                    member(cell_items@[k]@, "values"@),
                ),
        decreases cell_items.len() - i,
    {
        cells.push(render_all(member_of(&cell_items[i], "values")));
        i = i + 1;
    }
    let ghost dims = row_dimensions@;
    let ghost heads = columns@;
    let m = model_from_parts(row_dimensions, columns, levels.as_slice(), cells.as_slice());
    proof {
        let names_v = json_seq(names@);
        let cols_v = json_seq(cell_items@);
        assert(m@.row_dimensions =~= names_v.map_values(|n: JsonV| as_text(n)));
        assert(paths_of(heads) =~= json_seq(cols@).map_values(
            |c: JsonV| rendered(member(c, "path"@)),
        ));
        assert(measures_of(heads) =~= json_seq(cols@).map_values(
            |c: JsonV| as_text(member(c, "measure"@)),
        ));
        assert forall|r: int| 0 <= r < levels@.len() implies #[trigger] m@.levels[r] == level_of(
            level_value(json_seq(level_items@)[r]),
        ) by {
            assert(m.levels@[r] == level_of(levels@[r]));
        }
        assert(m@.levels =~= json_seq(level_items@).map_values(
            |l: JsonV| level_of(level_value(l)),
        ));
        let want = Seq::new(
            json_seq(level_items@).len(),
            |r: int|
                Seq::new(
                    cols_v.len(),
                    |c: int| cell_in(rendered(member(cols_v[c], "values"@)), r),
                ),
        );
        assert forall|r: int| 0 <= r < want.len() implies #[trigger] m@.rows[r] =~= want[r] by {
            assert forall|c: int| 0 <= c < cols_v.len() implies #[trigger] m@.rows[r][c]
                == want[r][c] by {
                assert(path_view(cells@[c]@) == rendered(member(cell_items@[c]@, "values"@)));
                assert(cell_at(cells@[c]@, r) == cell_in(path_view(cells@[c]@), r));
            }
        }
        assert(m@.rows =~= want);
    }
    Ok(m)
}

/// Reads a pivot answer: the model its JSON holds, or why there is none —
/// the parser's message, or which part the answer lacks.
pub fn parse_result(json: &str) -> (r: Result<PivotModel, String>)
    ensures
        match r {
            Ok(m) => parse_result_spec(json_value_of(json@)) == Ok::<PivotV, Seq<char>>(m@),
            Err(e) => parse_result_spec(json_value_of(json@)) == Err::<PivotV, Seq<char>>(e@),
        },
{
    match json_value(json) {
        Ok(body) => pivot_parts(&body),
        Err(message) => Err(message),
    }
}

} // verus!
