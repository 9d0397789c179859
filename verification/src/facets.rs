//! Facets: what a reader chose in the sidebar, as filters.
//!
//! A facet's counts are taken **without its own restriction** — otherwise,
//! after ticking "Alpha", every other customer counts 0 and the facet can
//! only be undone, never used. [`effective`] with `except` is where that
//! rule lives.
//!
//! Facets are filters: a list of values is an `or` of comparisons, a range
//! and a period are two bounds. NULL among the chosen values is `is_null` —
//! `eq null` matches nothing under three-valued logic — and the empty string
//! is `eq ""`, a different value.

use vstd::prelude::*;

use crate::filters::{
    copy_expr, expr_view, exprs_view, is_valid_name, lemma_and_view, literal, literal_spec,
    lookup, parts_of, problems_of, valid_name, CmpOp, DataType, FieldV, FilterExpr,
    FilterExprView, Outcome, Schema,
};
use crate::grouping::{copy_key, copy_keys, key_eq, keys_view, Key, KeyV};
use crate::json::{
    as_text, has_member, has_member_of, json_seq, key_json, key_of_json, key_of_value, key_value,
    lemma_array_view, lemma_object_view, member, member_of, members_value, text_or_empty, Json,
    JsonV,
};
use crate::paths::{key_text, key_text_of};
use crate::text::{same_text, trim, trimmed};

verus! {

/// How a facet offers its values.
#[derive(Clone, Copy, Debug, PartialEq, Eq, Structural)]
pub enum FacetKind {
    List,
    Pills,
    Range,
    Period,
}

/// What a reader chose in one facet.
#[derive(Clone, Debug, PartialEq, Eq)]
pub enum Selection {
    /// The chosen values of a list or pills facet, NULL among them as
    /// `Key::Null`. Empty means "no restriction".
    Values(Vec<Key>),
    /// A range of numbers, as typed; either bound may be empty.
    Range { min: String, max: String },
    /// A period of dates (`YYYY-MM-DD`); either bound may be empty.
    Period { from: String, to: String },
}

/// A selection as a value.
pub enum SelectionV {
    Values(Seq<KeyV>),
    Range { min: Seq<char>, max: Seq<char> },
    Period { from: Seq<char>, to: Seq<char> },
}

/// The values of some keys.
pub open spec fn key_values(keys: Seq<Key>) -> Seq<KeyV> {
    keys.map_values(|k: Key| k@)
}

impl View for Selection {
    type V = SelectionV;

    open spec fn view(&self) -> SelectionV {
        match self {
            Selection::Values(v) => SelectionV::Values(key_values(v@)),
            Selection::Range { min, max } => SelectionV::Range { min: min@, max: max@ },
            Selection::Period { from, to } => SelectionV::Period { from: from@, to: to@ },
        }
    }
}

/// Whether a selection restricts anything.
pub open spec fn active(s: SelectionV) -> bool {
    match s {
        SelectionV::Values(v) => v.len() > 0,
        SelectionV::Range { min, max } => trim(min).len() > 0 || trim(max).len() > 0,
        SelectionV::Period { from, to } => trim(from).len() > 0 || trim(to).len() > 0,
    }
}

/// Whether `s` has something besides white space.
fn has_text(s: &str) -> (b: bool)
    ensures
        b == (trim(s@).len() > 0),
{
    trimmed(s).unicode_len() > 0
}

impl Selection {
    /// Whether it restricts anything.
    pub fn is_active(&self) -> (b: bool)
        ensures
            b == active(self@),
    {
        match self {
            Selection::Values(values) => values.len() > 0,
            Selection::Range { min, max } => has_text(min.as_str()) || has_text(max.as_str()),
            Selection::Period { from, to } => has_text(from.as_str()) || has_text(to.as_str()),
        }
    }

    /// The empty selection of a facet kind.
    pub fn empty(kind: FacetKind) -> (s: Selection)
        ensures
            s@ == (match kind {
                FacetKind::List | FacetKind::Pills => SelectionV::Values(Seq::empty()),
                FacetKind::Range => SelectionV::Range { min: Seq::empty(), max: Seq::empty() },
                FacetKind::Period => SelectionV::Period { from: Seq::empty(), to: Seq::empty() },
            }),
            !active(s@),
    {
        let s = match kind {
            FacetKind::List | FacetKind::Pills => Selection::Values(Vec::new()),
            FacetKind::Range => Selection::Range { min: String::new(), max: String::new() },
            FacetKind::Period => Selection::Period { from: String::new(), to: String::new() },
        };
        proof {
            assert(key_values(Seq::<Key>::empty()) =~= Seq::<KeyV>::empty());
            assert(trim(Seq::<char>::empty()) =~= Seq::<char>::empty());
        }
        s
    }
}

/// The empty selection of the same kind.
pub fn clear_selection(selection: &Selection) -> (s: Selection)
    ensures
        s@ == (match selection@ {
            SelectionV::Values(_) => SelectionV::Values(Seq::empty()),
            SelectionV::Range { .. } => SelectionV::Range { min: Seq::empty(), max: Seq::empty() },
            SelectionV::Period { .. } => SelectionV::Period {
                from: Seq::empty(),
                to: Seq::empty(),
            },
        }),
        !active(s@),
{
    match selection {
        Selection::Values(_) => Selection::empty(FacetKind::List),
        Selection::Range { .. } => Selection::empty(FacetKind::Range),
        Selection::Period { .. } => Selection::empty(FacetKind::Period),
    }
}

/// A bound that is not a value of its column: the column and the bound.
#[derive(Debug, PartialEq, Eq)]
pub struct Problem {
    pub column: String,
    pub value: String,
}

/// Some expressions as one: none is nothing, one is itself, more are their
/// conjunction.
pub open spec fn all_of(parts: Seq<FilterExprView>) -> Option<FilterExprView> {
    if parts.len() == 0 {
        None
    } else if parts.len() == 1 {
        Some(parts[0])
    } else {
        Some(FilterExprView::And(parts))
    }
}

/// Some expressions as one alternative: none is nothing, one is itself,
/// more are their disjunction.
pub open spec fn any_of(parts: Seq<FilterExprView>) -> Option<FilterExprView> {
    if parts.len() == 0 {
        None
    } else if parts.len() == 1 {
        Some(parts[0])
    } else {
        Some(FilterExprView::Or(parts))
    }
}

/// The test of one chosen value: `is_null` for NULL, `eq` for anything
/// else, the empty string included.
pub open spec fn value_test(field: Seq<char>, k: KeyV) -> FilterExprView {
    match k {
        KeyV::Null => FilterExprView::IsNull { field },
        _ => FilterExprView::Cmp { field, op: CmpOp::Eq, value: k },
    }
}

/// The bounds of a range or a period: `gte` the low one, `lte` the high one;
/// a blank bound adds nothing, and a bound that is not a value of the column
/// is the problem, trimmed.
pub open spec fn bounds_spec(
    column: Seq<char>,
    data_type: DataType,
    low: Seq<char>,
    high: Seq<char>,
) -> Result<Option<FilterExprView>, (Seq<char>, Seq<char>)> {
    let lo = if trim(low).len() == 0 {
        None
    } else {
        Some(literal_spec(low, data_type))
    };
    let hi = if trim(high).len() == 0 {
        None
    } else {
        Some(literal_spec(high, data_type))
    };
    if lo == Some(None::<KeyV>) {
        Err((column, trim(low)))
    } else if hi == Some(None::<KeyV>) {
        Err((column, trim(high)))
    } else {
        let lo_part: Seq<FilterExprView> = match lo {
            Some(Some(v)) => seq![FilterExprView::Cmp { field: column, op: CmpOp::Gte, value: v }],
            _ => Seq::empty(),
        };
        let hi_part: Seq<FilterExprView> = match hi {
            Some(Some(v)) => seq![FilterExprView::Cmp { field: column, op: CmpOp::Lte, value: v }],
            _ => Seq::empty(),
        };
        Ok(all_of(lo_part + hi_part))
    }
}

/// One facet's selection as a filter, `None` when it restricts nothing or
/// the column name is not a valid one.
pub open spec fn filter_of_spec(column: Seq<char>, data_type: DataType, s: SelectionV) -> Result<
    Option<FilterExprView>,
    (Seq<char>, Seq<char>),
> {
    if !valid_name(column) {
        Ok(None)
    } else {
        match s {
            SelectionV::Values(v) => Ok(
                any_of(Seq::new(v.len(), |i: int| value_test(column, v[i]))),
            ),
            SelectionV::Range { min, max } => bounds_spec(column, data_type, min, max),
            SelectionV::Period { from, to } => bounds_spec(column, data_type, from, to),
        }
    }
}

/// Some filter expressions as one, the way `all_of` says.
fn join_all(mut parts: Vec<FilterExpr>) -> (r: Option<FilterExpr>)
    ensures
        match r {
            Some(e) => all_of(exprs_view(parts@)) == Some(expr_view(e)),
            None => all_of(exprs_view(parts@)) is None,
        },
{
    let ghost pv = exprs_view(parts@);
    if parts.len() == 0 {
        None
    } else if parts.len() == 1 {
        let e = parts.pop().unwrap();
        proof {
            assert(pv[0] == expr_view(e));
        }
        Some(e)
    } else {
        proof {
            lemma_and_view(parts);
        }
        Some(FilterExpr::And(parts))
    }
}

/// Some filter expressions as one alternative, the way `any_of` says.
fn join_any(mut parts: Vec<FilterExpr>) -> (r: Option<FilterExpr>)
    ensures
        match r {
            Some(e) => any_of(exprs_view(parts@)) == Some(expr_view(e)),
            None => any_of(exprs_view(parts@)) is None,
        },
{
    let ghost pv = exprs_view(parts@);
    if parts.len() == 0 {
        None
    } else if parts.len() == 1 {
        let e = parts.pop().unwrap();
        proof {
            assert(pv[0] == expr_view(e));
        }
        Some(e)
    } else {
        proof {
            lemma_and_view(parts);
        }
        Some(FilterExpr::Or(parts))
    }
}

/// The two bounds of a range or a period.
fn bounds(column: &str, data_type: DataType, low: &str, high: &str) -> (r: Result<
    Option<FilterExpr>,
    Problem,
>)
    ensures
        match r {
            Ok(Some(e)) => bounds_spec(column@, data_type, low@, high@) == Ok::<
                Option<FilterExprView>,
                (Seq<char>, Seq<char>),
            >(Some(expr_view(e))),
            Ok(None) => bounds_spec(column@, data_type, low@, high@) == Ok::<
                Option<FilterExprView>,
                (Seq<char>, Seq<char>),
            >(None),
            Err(p) => bounds_spec(column@, data_type, low@, high@) == Err::<
                Option<FilterExprView>,
                (Seq<char>, Seq<char>),
            >((p.column@, p.value@)),
        },
{
    let mut parts: Vec<FilterExpr> = Vec::new();
    if has_text(low) {
        match literal(low, data_type) {
            Some(value) => {
                parts.push(FilterExpr::Cmp { field: column.to_string(), op: CmpOp::Gte, value });
            },
            None => {
                return Err(Problem { column: column.to_string(), value: trimmed(low) });
            },
        }
    }
    let ghost after_low = exprs_view(parts@);
    if has_text(high) {
        match literal(high, data_type) {
            Some(value) => {
                parts.push(FilterExpr::Cmp { field: column.to_string(), op: CmpOp::Lte, value });
            },
            None => {
                return Err(Problem { column: column.to_string(), value: trimmed(high) });
            },
        }
    }
    proof {
        let lo = if trim(low@).len() == 0 {
            None
        } else {
            Some(literal_spec(low@, data_type))
        };
        let hi = if trim(high@).len() == 0 {
            None
        } else {
            Some(literal_spec(high@, data_type))
        };
        let lo_part: Seq<FilterExprView> = match lo {
            Some(Some(v)) => seq![FilterExprView::Cmp { field: column@, op: CmpOp::Gte, value: v }],
            _ => Seq::empty(),
        };
        let hi_part: Seq<FilterExprView> = match hi {
            Some(Some(v)) => seq![FilterExprView::Cmp { field: column@, op: CmpOp::Lte, value: v }],
            _ => Seq::empty(),
        };
        assert(after_low =~= lo_part);
        assert(exprs_view(parts@) =~= lo_part + hi_part);
    }
    let r = join_all(parts);
    match r {
        Some(e) => Ok(Some(e)),
        None => Ok(None),
    }
}

/// The tests of some chosen values, in order.
fn value_tests(column: &str, values: &Vec<Key>) -> (parts: Vec<FilterExpr>)
    ensures
        exprs_view(parts@) == Seq::new(
            values@.len(),
            |i: int| value_test(column@, key_values(values@)[i]),
        ),
{
    let ghost want = Seq::new(values@.len(), |i: int| value_test(column@, key_values(values@)[i]));
    let mut parts: Vec<FilterExpr> = Vec::new();
    let mut i: usize = 0;
    while i < values.len()
        invariant
            i <= values@.len(),
            want == Seq::new(values@.len(), |i: int| value_test(column@, key_values(values@)[i])),
            exprs_view(parts@) == want.take(i as int),
        decreases values.len() - i,
    {
        let e = match &values[i] {
            Key::Null => FilterExpr::IsNull { field: column.to_string() },
            k => FilterExpr::Cmp { field: column.to_string(), op: CmpOp::Eq, value: copy_key(k) },
        };
        let ghost before = exprs_view(parts@);
        parts.push(e);
        proof {
            assert(expr_view(e) == want[i as int]);
            assert(exprs_view(parts@) =~= before.push(expr_view(e)));
            assert(want.take(i + 1) =~= want.take(i as int).push(want[i as int]));
        }
        i = i + 1;
    }
    proof {
        assert(want.take(i as int) =~= want);
    }
    parts
}

/// One facet's selection as a filter, or `None` when it restricts nothing.
///
/// Answers `Err` for a bound that is not a value of the column ("abc" as a
/// minimum amount): said, not dropped — a range that silently ignored its
/// minimum would look applied and be half of it.
pub fn filter_of(column: &str, data_type: DataType, selection: &Selection) -> (r: Result<
    Option<FilterExpr>,
    Problem,
>)
    ensures
        match r {
            Ok(Some(e)) => filter_of_spec(column@, data_type, selection@) == Ok::<
                Option<FilterExprView>,
                (Seq<char>, Seq<char>),
            >(Some(expr_view(e))),
            Ok(None) => filter_of_spec(column@, data_type, selection@) == Ok::<
                Option<FilterExprView>,
                (Seq<char>, Seq<char>),
            >(None),
            Err(p) => filter_of_spec(column@, data_type, selection@) == Err::<
                Option<FilterExprView>,
                (Seq<char>, Seq<char>),
            >((p.column@, p.value@)),
        },
{
    if !is_valid_name(column) {
        return Ok(None);
    }
    match selection {
        Selection::Values(values) => {
            let parts = value_tests(column, values);
            match join_any(parts) {
                Some(e) => Ok(Some(e)),
                None => Ok(None),
            }
        },
        Selection::Range { min, max } => bounds(column, data_type, min.as_str(), max.as_str()),
        Selection::Period { from, to } => bounds(column, data_type, from.as_str(), to.as_str()),
    }
}

/// What one facet contributes to the filter a query runs under: nothing
/// when it is the one excepted, when the schema lacks its column, or when
/// it restricts nothing; otherwise its filter or its problem.
pub open spec fn facet_outcome(
    column: Seq<char>,
    s: SelectionV,
    except: Option<Seq<char>>,
    fields: Seq<FieldV>,
) -> Outcome {
    if except == Some(column) {
        Outcome::Skip
    } else {
        match lookup(fields, column) {
            None => Outcome::Skip,
            Some(f) => match filter_of_spec(column, f.data_type, s) {
                Ok(Some(e)) => Outcome::Part(e),
                Ok(None) => Outcome::Skip,
                Err(p) => Outcome::Problem(p.0, p.1),
            },
        }
    }
}

/// The facets as values.
pub open spec fn facets_view(fs: Seq<(String, Selection)>) -> Seq<(Seq<char>, SelectionV)> {
    fs.map_values(|p: (String, Selection)| (p.0@, p.1@))
}

/// What each facet contributes.
pub open spec fn facet_outcomes(
    fs: Seq<(Seq<char>, SelectionV)>,
    except: Option<Seq<char>>,
    fields: Seq<FieldV>,
) -> Seq<Outcome> {
    fs.map_values(|p: (Seq<char>, SelectionV)| facet_outcome(p.0, p.1, except, fields))
}

/// The filter a query runs under: the filter row's, and every facet's but
/// the excepted one's; or every problem, in order.
pub open spec fn effective_spec(
    base: Option<FilterExprView>,
    fs: Seq<(Seq<char>, SelectionV)>,
    except: Option<Seq<char>>,
    fields: Seq<FieldV>,
) -> Result<Option<FilterExprView>, Seq<(Seq<char>, Seq<char>)>> {
    let os = facet_outcomes(fs, except, fields);
    let first: Seq<FilterExprView> = match base {
        Some(b) => seq![b],
        None => Seq::empty(),
    };
    if problems_of(os).len() > 0 {
        Err(problems_of(os))
    } else {
        Ok(all_of(first + parts_of(os)))
    }
}

/// The values of some problems.
pub open spec fn problems_view(ps: Seq<Problem>) -> Seq<(Seq<char>, Seq<char>)> {
    ps.map_values(|p: Problem| (p.column@, p.value@))
}

/// The value of an optional expression.
pub open spec fn opt_expr_view(e: Option<FilterExpr>) -> Option<FilterExprView> {
    match e {
        Some(x) => Some(expr_view(x)),
        None => None,
    }
}

/// The value of an optional borrowed expression.
pub open spec fn opt_ref_view(e: Option<&FilterExpr>) -> Option<FilterExprView> {
    match e {
        Some(x) => Some(expr_view(*x)),
        None => None,
    }
}

/// The value of an optional name.
pub open spec fn opt_text(e: Option<&str>) -> Option<Seq<char>> {
    match e {
        Some(x) => Some(x@),
        None => None,
    }
}

/// What one facet contributes, computed.
fn facet_part(
    column: &String,
    selection: &Selection,
    except: Option<&str>,
    schema: &Schema,
) -> (r: Result<Option<FilterExpr>, Problem>)
    ensures
        match facet_outcome(column@, selection@, opt_text(except), schema@) {
            Outcome::Skip => r == Ok::<Option<FilterExpr>, Problem>(None),
            Outcome::Part(e) => r is Ok && r->Ok_0 is Some && expr_view(r->Ok_0->0) == e,
            Outcome::Problem(c, v) => r is Err && r->Err_0.column@ == c && r->Err_0.value@ == v,
        },
{
    match except {
        Some(x) => {
            if same_text(column.as_str(), x) {
                return Ok(None);
            }
        },
        None => {},
    }
    let field = match schema.field(column.as_str()) {
        Some(f) => f,
        None => return Ok(None),
    };
    filter_of(column.as_str(), field.data_type, selection)
}

/// The filter a query runs under: the filter row's, **and** every facet's —
/// except the one named by `except`, which is how a facet counts its values
/// without its own restriction. Facets on columns the schema does not have
/// are skipped; every bound that is not a value of its column is a problem.
pub fn effective(
    base: Option<&FilterExpr>,
    facets: &[(String, Selection)],
    except: Option<&str>,
    schema: &Schema,
) -> (r: Result<Option<FilterExpr>, Vec<Problem>>)
    ensures
        match r {
            Ok(e) => effective_spec(opt_ref_view(base), facets_view(facets@), opt_text(except), schema@)
                == Ok::<Option<FilterExprView>, Seq<(Seq<char>, Seq<char>)>>(opt_expr_view(e)),
            Err(ps) => effective_spec(
                opt_ref_view(base),
                facets_view(facets@),
                opt_text(except),
                schema@,
            ) == Err::<Option<FilterExprView>, Seq<(Seq<char>, Seq<char>)>>(problems_view(ps@)),
        },
{
    let ghost os = facet_outcomes(facets_view(facets@), opt_text(except), schema@);
    let mut parts: Vec<FilterExpr> = Vec::new();
    match base {
        Some(b) => {
            parts.push(copy_expr(b));
        },
        None => {},
    }
    let ghost first = exprs_view(parts@);
    let mut problems: Vec<Problem> = Vec::new();
    let mut i: usize = 0;
    while i < facets.len()
        invariant
            i <= facets@.len(),
            os == facet_outcomes(facets_view(facets@), opt_text(except), schema@),
            exprs_view(parts@) == first + parts_of(os.take(i as int)),
            problems_view(problems@) == problems_of(os.take(i as int)),
        decreases facets.len() - i,
    {
        let r = facet_part(&facets[i].0, &facets[i].1, except, schema);
        proof {
            assert(os.take(i + 1).drop_last() =~= os.take(i as int));
            assert(os.take(i + 1).last() == os[i as int]);
            assert(facets_view(facets@)[i as int] == (facets@[i as int].0@, facets@[i as int].1@));
        }
        match r {
            Ok(Some(e)) => {
                let ghost before = exprs_view(parts@);
                parts.push(e);
                proof {
                    assert(exprs_view(parts@) =~= before.push(expr_view(e)));
                }
            },
            Ok(None) => {},
            Err(p) => {
                let ghost before = problems_view(problems@);
                problems.push(p);
                proof {
                    assert(problems_view(problems@) =~= before.push((p.column@, p.value@)));
                }
            },
        }
        i = i + 1;
    }
    proof {
        assert(os.take(i as int) =~= os);
        let fst: Seq<FilterExprView> = match opt_ref_view(base) {
            Some(b) => seq![b],
            None => Seq::empty(),
        };
        assert(first =~= fst);
    }
    if problems.len() > 0 {
        return Err(problems);
    }
    Ok(join_all(parts))
}

/// A selection that restricts nothing adds nothing to a filter.
pub proof fn lemma_inactive_adds_nothing(column: Seq<char>, data_type: DataType, s: SelectionV)
    requires
        !active(s),
    ensures
        filter_of_spec(column, data_type, s) == Ok::<
            Option<FilterExprView>,
            (Seq<char>, Seq<char>),
        >(None),
{
    match s {
        SelectionV::Values(v) => {
            assert(Seq::new(v.len(), |i: int| value_test(column, v[i])).len() == 0);
        },
        SelectionV::Range { min, max } => {
            assert(Seq::<FilterExprView>::empty() + Seq::<FilterExprView>::empty() =~= Seq::<
                FilterExprView,
            >::empty());
        },
        SelectionV::Period { from, to } => {
            assert(Seq::<FilterExprView>::empty() + Seq::<FilterExprView>::empty() =~= Seq::<
                FilterExprView,
            >::empty());
        },
    }
}

/// Counting a facet's values without its own restriction is counting them
/// under every other facet: excepting a column is the same as leaving its
/// facets out.
pub proof fn lemma_except_leaves_out(
    base: Option<FilterExprView>,
    fs: Seq<(Seq<char>, SelectionV)>,
    column: Seq<char>,
    fields: Seq<FieldV>,
)
    ensures
        effective_spec(base, fs, Some(column), fields) == effective_spec(
            base,
            fs.filter(|p: (Seq<char>, SelectionV)| p.0 != column),
            None,
            fields,
        ),
{
    lemma_except_outcomes(fs, column, fields);
}

proof fn lemma_except_outcomes(
    fs: Seq<(Seq<char>, SelectionV)>,
    column: Seq<char>,
    fields: Seq<FieldV>,
)
    ensures
        parts_of(facet_outcomes(fs, Some(column), fields)) == parts_of(
            facet_outcomes(fs.filter(|p: (Seq<char>, SelectionV)| p.0 != column), None, fields),
        ),
        problems_of(facet_outcomes(fs, Some(column), fields)) == problems_of(
            facet_outcomes(fs.filter(|p: (Seq<char>, SelectionV)| p.0 != column), None, fields),
        ),
    decreases fs.len(),
{
    let keep = |p: (Seq<char>, SelectionV)| p.0 != column;
    reveal(Seq::filter);
    if fs.len() > 0 {
        let d = fs.drop_last();
        lemma_except_outcomes(d, column, fields);
        let a = facet_outcomes(fs, Some(column), fields);
        let a0 = facet_outcomes(d, Some(column), fields);
        assert(a.drop_last() =~= a0);
        let kept = fs.filter(keep);
        let kept0 = d.filter(keep);
        let b = facet_outcomes(kept, None, fields);
        let b0 = facet_outcomes(kept0, None, fields);
        let last = fs.last();
        if last.0 == column {
            assert(kept == kept0);
            assert(a.last() == Outcome::Skip);
        } else {
            assert(kept == kept0.push(last));
            assert(b.drop_last() =~= b0);
            assert(b.last() == facet_outcome(last.0, last.1, None, fields));
            assert(a.last() == facet_outcome(last.0, last.1, Some(column), fields));
        }
    } else {
        assert(fs.filter(keep) =~= fs);
    }
}

/// With nothing chosen anywhere, the filter a query runs under is the
/// filter row's alone.
pub proof fn lemma_nothing_chosen(
    base: Option<FilterExprView>,
    fs: Seq<(Seq<char>, SelectionV)>,
    except: Option<Seq<char>>,
    fields: Seq<FieldV>,
)
    requires
        forall|i: int| 0 <= i < fs.len() ==> !active(#[trigger] fs[i].1),
    ensures
        effective_spec(base, fs, except, fields) == Ok::<
            Option<FilterExprView>,
            Seq<(Seq<char>, Seq<char>)>,
        >(base),
    decreases fs.len(),
{
    lemma_nothing_chosen_outcomes(fs, except, fields);
    let first: Seq<FilterExprView> = match base {
        Some(b) => seq![b],
        None => Seq::empty(),
    };
    assert(first + Seq::<FilterExprView>::empty() =~= first);
}

proof fn lemma_nothing_chosen_outcomes(
    fs: Seq<(Seq<char>, SelectionV)>,
    except: Option<Seq<char>>,
    fields: Seq<FieldV>,
)
    requires
        forall|i: int| 0 <= i < fs.len() ==> !active(#[trigger] fs[i].1),
    ensures
        parts_of(facet_outcomes(fs, except, fields)) == Seq::<FilterExprView>::empty(),
        problems_of(facet_outcomes(fs, except, fields)) == Seq::<(Seq<char>, Seq<char>)>::empty(),
    decreases fs.len(),
{
    if fs.len() > 0 {
        let d = fs.drop_last();
        assert forall|i: int| 0 <= i < d.len() implies !active(#[trigger] d[i].1) by {
            assert(d[i] == fs[i]);
        }
        lemma_nothing_chosen_outcomes(d, except, fields);
        let a = facet_outcomes(fs, except, fields);
        assert(a.drop_last() =~= facet_outcomes(d, except, fields));
        let last = fs.last();
        assert(!active(fs[fs.len() - 1].1));
        match lookup(fields, last.0) {
            Some(f) => lemma_inactive_adds_nothing(last.0, f.data_type, last.1),
            None => {},
        }
    }
}

/// Where `v` first stands among the chosen values, or `-1`.
pub open spec fn first_value(vs: Seq<KeyV>, v: KeyV) -> int
    decreases vs.len(),
{
    if vs.len() == 0 {
        -1
    } else if vs[0] == v {
        0
    } else {
        let r = first_value(vs.drop_first(), v);
        if r < 0 {
            -1
        } else {
            r + 1
        }
    }
}

proof fn lemma_first_value(vs: Seq<KeyV>, v: KeyV, i: int)
    requires
        0 <= i <= vs.len(),
        forall|j: int| 0 <= j < i ==> vs[j] != v,
    ensures
        i < vs.len() && vs[i] == v ==> first_value(vs, v) == i,
        i == vs.len() ==> first_value(vs, v) == -1,
    decreases i,
{
    if vs.len() > 0 && i > 0 {
        assert forall|j: int| 0 <= j < i - 1 implies vs.drop_first()[j] != v by {
            assert(vs.drop_first()[j] == vs[j + 1]);
        }
        lemma_first_value(vs.drop_first(), v, i - 1);
        if i < vs.len() {
            assert(vs.drop_first()[i - 1] == vs[i]);
        }
    }
}

/// The chosen values with `v` ticked or unticked: a value already chosen
/// leaves (its first place), any other joins at the end.
pub open spec fn toggled(vs: Seq<KeyV>, v: KeyV) -> Seq<KeyV> {
    let i = first_value(vs, v);
    if i < 0 {
        vs.push(v)
    } else {
        vs.remove(i)
    }
}

/// A facet after `value` was ticked or unticked in the facets of `column`:
/// only a list of values of that column changes.
pub open spec fn facet_toggled(f: (Seq<char>, SelectionV), column: Seq<char>, value: KeyV) -> (
    Seq<char>,
    SelectionV,
) {
    if f.0 == column {
        match f.1 {
            SelectionV::Values(vs) => (f.0, SelectionV::Values(toggled(vs, value))),
            _ => f,
        }
    } else {
        f
    }
}

/// The chosen values with `value` ticked or unticked.
fn toggle_in(values: &Vec<Key>, value: &Key) -> (out: Vec<Key>)
    ensures
        keys_view(out@) == toggled(keys_view(values@), value@),
{
    let ghost vs = keys_view(values@);
    let mut i: usize = 0;
    while i < values.len()
        invariant
            i <= values@.len(),
            vs == keys_view(values@),
            forall|j: int| 0 <= j < i ==> vs[j] != value@,
        ensures
            i <= values@.len(),
            forall|j: int| 0 <= j < i ==> vs[j] != value@,
            i < values@.len() ==> vs[i as int] == value@,
        decreases values.len() - i,
    {
        proof {
            assert(vs[i as int] == values@[i as int]@);
        }
        if key_eq(&values[i], value) {
            break;
        }
        i = i + 1;
    }
    proof {
        lemma_first_value(vs, value@, i as int);
    }
    let mut out = copy_keys(values.as_slice());
    if i < values.len() {
        out.remove(i);
        proof {
            assert(keys_view(out@) =~= vs.remove(i as int));
        }
    } else {
        let ghost before = keys_view(out@);
        out.push(copy_key(value));
        proof {
            assert(keys_view(out@) =~= before.push(value@));
        }
    }
    out
}

/// Ticks or unticks `value` in every list of values of `column`.
pub fn toggle_value(facets: &mut Vec<(String, Selection)>, column: &str, value: &Key)
    ensures
        facets_view(final(facets)@) == facets_view(old(facets)@).map_values(
            |f: (Seq<char>, SelectionV)| facet_toggled(f, column@, value@),
        ),
{
    let ghost start = facets_view(facets@);
    let mut i: usize = 0;
    while i < facets.len()
        invariant
            i <= facets@.len(),
            facets@.len() == start.len(),
            forall|j: int|
                0 <= j < i ==> #[trigger] facets_view(facets@)[j] == facet_toggled(
                    start[j],
                    column@,
                    value@,
                ),
            forall|j: int| i <= j < facets@.len() ==> #[trigger] facets_view(facets@)[j] == start[j],
        decreases facets.len() - i,
    {
        let replace: Option<Vec<Key>> = if same_text(facets[i].0.as_str(), column) {
            match &facets[i].1 {
                Selection::Values(values) => Some(toggle_in(values, value)),
                _ => None,
            }
        } else {
            None
        };
        proof {
            assert(facets_view(facets@)[i as int] == start[i as int]);
        }
        match replace {
            Some(vs) => {
                let name = facets[i].0.clone();
                let ghost before = facets@;
                facets.set(i, (name, Selection::Values(vs)));
                proof {
                    assert forall|j: int| 0 <= j < facets@.len() && j != i implies #[trigger] facets_view(
                        facets@,
                    )[j] == facets_view(before)[j] by {
                        assert(facets@[j] == before[j]);
                    }
                }
            },
            None => {},
        }
        i = i + 1;
    }
    proof {
        assert(facets_view(facets@) =~= start.map_values(
            |f: (Seq<char>, SelectionV)| facet_toggled(f, column@, value@),
        ));
    }
}

/// Ticking a value that was not chosen and unticking it again leaves the
/// choice as it was.
pub proof fn lemma_toggle_value_twice(vs: Seq<KeyV>, v: KeyV)
    requires
        !vs.contains(v),
    ensures
        toggled(toggled(vs, v), v) == vs,
{
    assert forall|j: int| 0 <= j < vs.len() implies vs[j] != v by {
        if vs[j] == v {
            assert(vs.contains(v));
        }
    }
    lemma_first_value(vs, v, vs.len() as int);
    let t = vs.push(v);
    assert forall|j: int| 0 <= j < vs.len() implies t[j] != v by {
        assert(t[j] == vs[j]);
    }
    lemma_first_value(t, v, vs.len() as int);
    assert(t.remove(vs.len() as int) =~= vs);
}

// ---------------------------------------------------------------------------
// Selections in the view
// ---------------------------------------------------------------------------
/// A selection as the view writes it: the chosen values, or the two bounds.
pub open spec fn selection_value(s: SelectionV) -> JsonV {
    match s {
        SelectionV::Values(vs) => JsonV::Object(
            seq![("values"@, JsonV::Array(vs.map_values(|k: KeyV| key_value(k))))],
        ),
        SelectionV::Range { min, max } => JsonV::Object(
            seq![("min"@, JsonV::Text(min)), ("max"@, JsonV::Text(max))],
        ),
        SelectionV::Period { from, to } => JsonV::Object(
            seq![("from"@, JsonV::Text(from)), ("to"@, JsonV::Text(to))],
        ),
    }
}

/// A selection the view wrote: chosen values under `values` (an array, or
/// nothing is read), else a range when `min` or `max` is there, else a
/// period when `from` or `to` is; a bound that is no string is empty.
pub open spec fn selection_of(v: JsonV) -> Option<SelectionV> {
    match v {
        JsonV::Object(_) => if has_member(v, "values"@) {
            match member(v, "values"@) {
                JsonV::Array(items) => Some(
                    SelectionV::Values(items.map_values(|i: JsonV| key_of_value(i))),
                ),
                _ => None,
            }
        } else if has_member(v, "min"@) || has_member(v, "max"@) {
            Some(
                SelectionV::Range {
                    min: as_text(member(v, "min"@)),
                    max: as_text(member(v, "max"@)),
                },
            )
        } else if has_member(v, "from"@) || has_member(v, "to"@) {
            Some(
                SelectionV::Period {
                    from: as_text(member(v, "from"@)),
                    to: as_text(member(v, "to"@)),
                },
            )
        } else {
            None
        },
        _ => None,
    }
}

/// An optional selection as a value.
pub open spec fn opt_selection_view(s: Option<Selection>) -> Option<SelectionV> {
    match s {
        Some(x) => Some(x@),
        None => None,
    }
}

/// A member from a name and a value.
fn named(name: &str, value: Json) -> (m: (String, Json))
    ensures
        m.0@ == name@,
        m.1 == value,
{
    (name.to_string(), value)
}

impl Selection {
    /// The selection as the view writes it.
    pub fn to_json(&self) -> (j: Json)
        ensures
            j@ == selection_value(self@),
    {
        let mut ms: Vec<(String, Json)> = Vec::new();
        match self {
            Selection::Values(values) => {
                let mut items: Vec<Json> = Vec::new();
                let mut i: usize = 0;
                while i < values.len()
                    invariant
                        i <= values@.len(),
                        items@.len() == i,
                        forall|k: int| 0 <= k < i ==> (#[trigger] items@[k])@ == key_value(values@[k]@),
                    decreases values.len() - i,
                {
                    items.push(key_json(&values[i]));
                    i = i + 1;
                }
                proof {
                    lemma_array_view(items);
                    assert(json_seq(items@) =~= key_values(values@).map_values(|k: KeyV| key_value(k)));
                }
                ms.push(named("values", Json::Array(items)));
            },
            Selection::Range { min, max } => {
                ms.push(named("min", Json::Text(min.clone())));
                ms.push(named("max", Json::Text(max.clone())));
            },
            Selection::Period { from, to } => {
                ms.push(named("from", Json::Text(from.clone())));
                ms.push(named("to", Json::Text(to.clone())));
            },
        }
        proof {
            lemma_object_view(ms);
            match self@ {
                SelectionV::Values(vs) => {
                    assert(members_value(ms@) =~= seq![
                        ("values"@, JsonV::Array(vs.map_values(|k: KeyV| key_value(k)))),
                    ]);
                },
                SelectionV::Range { min, max } => {
                    assert(members_value(ms@) =~= seq![
                        ("min"@, JsonV::Text(min)),
                        ("max"@, JsonV::Text(max)),
                    ]);
                },
                SelectionV::Period { from, to } => {
                    assert(members_value(ms@) =~= seq![
                        ("from"@, JsonV::Text(from)),
                        ("to"@, JsonV::Text(to)),
                    ]);
                },
            }
        }
        Json::Object(ms)
    }

    /// Reads a selection from the view.
    pub fn from_json(value: &Json) -> (s: Option<Selection>)
        ensures
            opt_selection_view(s) == selection_of(value@),
    {
        match value {
            Json::Object(_) => {
                if has_member_of(value, "values") {
                    match member_of(value, "values") {
                        Some(Json::Array(items)) => {
                            let mut keys: Vec<Key> = Vec::new();
                            let mut i: usize = 0;
                            while i < items.len()
                                invariant
                                    i <= items@.len(),
                                    keys@.len() == i,
                                    forall|k: int|
                                        0 <= k < i ==> (#[trigger] keys@[k])@ == key_of_value(
                                            items@[k]@,
                                        ),
                                decreases items.len() - i,
                            {
                                keys.push(key_of_json(&items[i]));
                                i = i + 1;
                            }
                            proof {
                                lemma_array_view(*items);
                                assert(key_values(keys@) =~= json_seq(items@).map_values(
                                    |i: JsonV| key_of_value(i),
                                ));
                            }
                            Some(Selection::Values(keys))
                        },
                        _ => None,
                    }
                } else if has_member_of(value, "min") || has_member_of(value, "max") {
                    Some(
                        Selection::Range {
                            min: text_or_empty(member_of(value, "min")),
                            max: text_or_empty(member_of(value, "max")),
                        },
                    )
                } else if has_member_of(value, "from") || has_member_of(value, "to") {
                    Some(
                        Selection::Period {
                            from: text_or_empty(member_of(value, "from")),
                            to: text_or_empty(member_of(value, "to")),
                        },
                    )
                } else {
                    None
                }
            },
            _ => None,
        }
    }
}

/// The facets as the view writes them: `{ column: selection }`, the ones
/// that restrict nothing left out.
pub open spec fn facets_value(fs: Seq<(Seq<char>, SelectionV)>) -> JsonV {
    JsonV::Object(
        fs.filter(|f: (Seq<char>, SelectionV)| active(f.1)).map_values(
            |f: (Seq<char>, SelectionV)| (f.0, selection_value(f.1)),
        ),
    )
}

/// The facets as the view writes them.
pub fn to_json(facets: &[(String, Selection)]) -> (j: Json)
    ensures
        j@ == facets_value(facets_view(facets@)),
{
    let ghost fs = facets_view(facets@);
    let mut ms: Vec<(String, Json)> = Vec::new();
    let mut i: usize = 0;
    while i < facets.len()
        invariant
            i <= facets@.len(),
            fs == facets_view(facets@),
            members_value(ms@) == fs.take(i as int).filter(
                |f: (Seq<char>, SelectionV)| active(f.1),
            ).map_values(|f: (Seq<char>, SelectionV)| (f.0, selection_value(f.1))),
        decreases facets.len() - i,
    {
        proof {
            reveal(Seq::filter);
            assert(fs.take(i + 1).drop_last() =~= fs.take(i as int));
            assert(fs.take(i + 1).last() == (facets@[i as int].0@, facets@[i as int].1@));
        }
        let ghost before = members_value(ms@);
        if facets[i].1.is_active() {
            ms.push((facets[i].0.clone(), facets[i].1.to_json()));
            proof {
                assert(members_value(ms@) =~= before.push(
                    (facets@[i as int].0@, selection_value(facets@[i as int].1@)),
                ));
            }
        }
        i = i + 1;
    }
    proof {
        assert(fs.take(i as int) =~= fs);
        lemma_object_view(ms);
    }
    Json::Object(ms)
}

/// Whether the reader chose an item of a list or pills facet: the
/// selection lists its key.
pub open spec fn chosen_spec(s: SelectionV, key: KeyV) -> bool {
    match s {
        SelectionV::Values(vs) => vs.contains(key),
        _ => false,
    }
}

/// The count filed under `text`: the first one, or 0 when there is none.
pub open spec fn count_for(counts: Seq<(String, u64)>, text: Seq<char>) -> u64
    decreases counts.len(),
{
    if counts.len() == 0 {
        0
    } else if counts[0].0@ == text {
        counts[0].1
    } else {
        count_for(counts.drop_first(), text)
    }
}

/// How an item of a list or pills facet is drawn: whether the reader chose
/// it, and the count filed under its key's JSON text.
pub fn facet_item(selection: &Selection, key: &Key, counts: &[(String, u64)]) -> (r: (bool, u64))
    ensures
        r.0 == chosen_spec(selection@, key@),
        r.1 == count_for(counts@, key_text(key@)),
{
    let chosen = match selection {
        Selection::Values(values) => {
            let ghost kv = key_values(values@);
            let mut found = false;
            let mut i: usize = 0;
            while i < values.len()
                invariant
                    i <= values@.len(),
                    kv == key_values(values@),
                    !found ==> forall|j: int| 0 <= j < i ==> kv[j] != key@,
                    found ==> kv.contains(key@),
                decreases values.len() - i,
            {
                if key_eq(&values[i], key) {
                    found = true;
                    proof {
                        assert(kv[i as int] == key@);
                    }
                }
                i = i + 1;
            }
            found
        },
        _ => false,
    };
    let text = key_text_of(key);
    let mut count: u64 = 0;
    let mut i: usize = 0;
    proof {
        assert(counts@.skip(0) =~= counts@);
    }
    while i < counts.len()
        invariant
            i <= counts@.len(),
            text@ == key_text(key@),
            chosen == chosen_spec(selection@, key@),
            count == 0,
            count_for(counts@, text@) == count_for(counts@.skip(i as int), text@),
        decreases counts.len() - i,
    {
        proof {
            assert(counts@.skip(i as int)[0] == counts@[i as int]);
            assert(counts@.skip(i as int).drop_first() =~= counts@.skip(i + 1));
        }
        if same_text(counts[i].0.as_str(), text.as_str()) {
            count = counts[i].1;
            return (chosen, count);
        }
        i = i + 1;
    }
    proof {
        assert(counts@.skip(i as int).len() == 0);
    }
    (chosen, count)
}

/// The bounds a range or period facet shows in its two inputs; a list or
/// pills facet has none.
pub fn facet_bounds(selection: &Selection) -> (r: Option<(String, String)>)
    ensures
        match selection@ {
            SelectionV::Range { min, max } => r matches Some(b) && b.0@ == min && b.1@ == max,
            SelectionV::Period { from, to } => r matches Some(b) && b.0@ == from && b.1@ == to,
            SelectionV::Values(_) => r is None,
        },
{
    match selection {
        Selection::Range { min, max } => Some((min.clone(), max.clone())),
        Selection::Period { from, to } => Some((from.clone(), to.clone())),
        Selection::Values(_) => None,
    }
}

/// A range (`period == false`) or a period with these two bounds.
pub open spec fn bounded(period: bool, low: Seq<char>, high: Seq<char>) -> SelectionV {
    if period {
        SelectionV::Period { from: low, to: high }
    } else {
        SelectionV::Range { min: low, max: high }
    }
}

/// A range or period facet on a column with a valid name: each non-blank
/// bound adds exactly one comparison — `gte` the low bound, `lte` the high
/// one — whether or not the other bound is blank; two bounds are their
/// conjunction, none is no restriction. A non-blank bound that is no value
/// of the column is the problem, trimmed, the low one first.
pub proof fn lemma_bounded_filter(
    column: Seq<char>,
    data_type: DataType,
    period: bool,
    low: Seq<char>,
    high: Seq<char>,
)
    requires
        valid_name(column),
    ensures
        ({
            let r = filter_of_spec(column, data_type, bounded(period, low, high));
            let low_set = trim(low).len() > 0;
            let high_set = trim(high).len() > 0;
            &&& (low_set && literal_spec(low, data_type) is None) ==> r == Err::<
                Option<FilterExprView>,
                (Seq<char>, Seq<char>),
            >((column, trim(low)))
            &&& (!(low_set && literal_spec(low, data_type) is None) && high_set && literal_spec(
                high,
                data_type,
            ) is None) ==> r == Err::<Option<FilterExprView>, (Seq<char>, Seq<char>)>(
                (column, trim(high)),
            )
            &&& (!low_set && !high_set) ==> r == Ok::<
                Option<FilterExprView>,
                (Seq<char>, Seq<char>),
            >(None)
            &&& (!low_set && high_set) ==> (literal_spec(high, data_type) matches Some(v) ==> r
                == Ok::<Option<FilterExprView>, (Seq<char>, Seq<char>)>(
                Some(FilterExprView::Cmp { field: column, op: CmpOp::Lte, value: v }),
            ))
            &&& (low_set && !high_set) ==> (literal_spec(low, data_type) matches Some(v) ==> r
                == Ok::<Option<FilterExprView>, (Seq<char>, Seq<char>)>(
                Some(FilterExprView::Cmp { field: column, op: CmpOp::Gte, value: v }),
            ))
            &&& (low_set && high_set && literal_spec(low, data_type) is Some && literal_spec(
                high,
                data_type,
            ) is Some) ==> r == Ok::<Option<FilterExprView>, (Seq<char>, Seq<char>)>(
                Some(
                    FilterExprView::And(
                        seq![
                            FilterExprView::Cmp {
                                field: column,
                                op: CmpOp::Gte,
                                value: literal_spec(low, data_type)->0,
                            },
                            FilterExprView::Cmp {
                                field: column,
                                op: CmpOp::Lte,
                                value: literal_spec(high, data_type)->0,
                            },
                        ],
                    ),
                ),
            )
        }),
{
    let r = filter_of_spec(column, data_type, bounded(period, low, high));
    assert(r == bounds_spec(column, data_type, low, high));
    let lo = literal_spec(low, data_type);
    let hi = literal_spec(high, data_type);
    if trim(low).len() > 0 && trim(high).len() > 0 && lo is Some && hi is Some {
        let a = FilterExprView::Cmp { field: column, op: CmpOp::Gte, value: lo->0 };
        let b = FilterExprView::Cmp { field: column, op: CmpOp::Lte, value: hi->0 };
        assert(seq![a] + seq![b] =~= seq![a, b]);
    } else if trim(low).len() == 0 && trim(high).len() > 0 && hi is Some {
        let b = FilterExprView::Cmp { field: column, op: CmpOp::Lte, value: hi->0 };
        assert(Seq::<FilterExprView>::empty() + seq![b] =~= seq![b]);
    } else if trim(low).len() > 0 && trim(high).len() == 0 && lo is Some {
        let a = FilterExprView::Cmp { field: column, op: CmpOp::Gte, value: lo->0 };
        assert(seq![a] + Seq::<FilterExprView>::empty() =~= seq![a]);
    } else if trim(low).len() == 0 && trim(high).len() == 0 {
        assert(Seq::<FilterExprView>::empty() + Seq::<FilterExprView>::empty() =~= Seq::<
            FilterExprView,
        >::empty());
    }
}

/// A list or pills facet on a column with a valid name: no chosen value
/// restricts nothing; one is its test alone; more are their alternative, one
/// test per value in order — `is_null` for NULL, `eq` for any other value.
pub proof fn lemma_values_filter(column: Seq<char>, data_type: DataType, values: Seq<KeyV>)
    requires
        valid_name(column),
    ensures
        ({
            let r = filter_of_spec(column, data_type, SelectionV::Values(values));
            let test = |k: KeyV|
                match k {
                    KeyV::Null => FilterExprView::IsNull { field: column },
                    _ => FilterExprView::Cmp { field: column, op: CmpOp::Eq, value: k },
                };
            &&& values.len() == 0 ==> r == Ok::<Option<FilterExprView>, (Seq<char>, Seq<char>)>(None)
            &&& values.len() == 1 ==> r == Ok::<Option<FilterExprView>, (Seq<char>, Seq<char>)>(
                Some(test(values[0])),
            )
            &&& values.len() >= 2 ==> (r matches Ok(Some(FilterExprView::Or(parts))) && parts.len()
                == values.len() && forall|i: int|
                0 <= i < values.len() ==> #[trigger] parts[i] == test(values[i]))
        }),
{
}

} // verus!
