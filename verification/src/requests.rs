//! The queries the grid sends, in the query model's JSON form: one query
//! model, a JSON tree, for a window, a whole view, a level of groups and
//! the grand total.
//!
//! A window query has the source, the projection, the filter when there is
//! one, the sort list when it is not empty, and the window as `limit` and
//! `offset`; a view query has no window. A group query asks one level of
//! groups with their row count and the chosen aggregates, its key sorted
//! ascending with NULL last; the total asks the same aggregates without a
//! key.

use vstd::prelude::*;

use crate::facets::opt_ref_view;
use crate::filters::{expr_view, CmpOp, FilterExpr, FilterExprView};
use crate::grouping::{
    aggregate_list, alias_of, asked, group_select, summaries_view, total_select, COUNT_ALIAS,
};
use crate::json::{
    json_seq, json_text, json_text_of, key_json, key_value, lemma_array_view, lemma_object_view,
    members_value, texts_json, texts_value, unsigned_text, Json, JsonV,
};
use crate::query::{plain_keys, query_sort, sort_keys_view, sorts_of, view_sort, view_sort_spec, SortKey, SortKeyV};
use crate::summary::{AggregateFn, Summary};
use crate::text::{decimal, views};

verus! {

/// A filter expression as JSON.
pub open spec fn filter_value(e: FilterExprView) -> JsonV
    decreases e,
{
    match e {
        FilterExprView::Cmp { field, op, value } => JsonV::Object(
            seq![
                ("field"@, JsonV::Text(field)),
                ("op"@, JsonV::Text(op.name())),
                ("value"@, key_value(value)),
            ],
        ),
        FilterExprView::IsNull { field } => JsonV::Object(
            seq![("field"@, JsonV::Text(field)), ("op"@, JsonV::Text("is_null"@))],
        ),
        FilterExprView::IsNotNull { field } => JsonV::Object(
            seq![("field"@, JsonV::Text(field)), ("op"@, JsonV::Text("is_not_null"@))],
        ),
        FilterExprView::And(parts) => JsonV::Object(
            seq![
                (
                    "and"@,
                    JsonV::Array(parts_value(parts)),
                ),
            ],
        ),
        FilterExprView::Or(parts) => JsonV::Object(
            seq![
                (
                    "or"@,
                    JsonV::Array(parts_value(parts)),
                ),
            ],
        ),
    }
}

/// The parts of an `and` or an `or` as JSON.
pub open spec fn parts_value(parts: Seq<FilterExprView>) -> Seq<JsonV>
    decreases parts,
{
    Seq::new(
        parts.len(),
        |i: int|
            if 0 <= i < parts.len() {
                filter_value(parts[i])
            } else {
                JsonV::Null
            },
    )
}

/// A JSON object from its members.
fn object(members: Vec<(String, Json)>) -> (j: Json)
    ensures
        j@ == JsonV::Object(members_value(members@)),
{
    proof {
        lemma_object_view(members);
    }
    Json::Object(members)
}

/// A JSON array from its items.
fn array(items: Vec<Json>) -> (j: Json)
    ensures
        j@ == JsonV::Array(json_seq(items@)),
{
    proof {
        lemma_array_view(items);
    }
    Json::Array(items)
}

/// A member from a name and a value.
fn member(name: &str, value: Json) -> (m: (String, Json))
    ensures
        m.0@ == name@,
        m.1 == value,
{
    (name.to_string(), value)
}

/// A text as JSON.
fn text(t: &str) -> (j: Json)
    ensures
        j@ == JsonV::Text(t@),
{
    Json::Text(t.to_string())
}

/// The parts of an `and` or an `or` as JSON.
fn parts_json(e: &FilterExpr, parts: &Vec<FilterExpr>) -> (j: Json)
    requires
        *e == FilterExpr::And(*parts) || *e == FilterExpr::Or(*parts),
    ensures
        j@ == JsonV::Array(
            Seq::new(
                parts@.len(),
                |i: int|
                    if 0 <= i < parts@.len() {
                        filter_value(expr_view(parts@[i]))
                    } else {
                        JsonV::Null
                    },
            ),
        ),
    decreases e, 0nat,
{
    let mut items: Vec<Json> = Vec::new();
    let mut i: usize = 0;
    while i < parts.len()
        invariant
            i <= parts@.len(),
            *e == FilterExpr::And(*parts) || *e == FilterExpr::Or(*parts),
            items@.len() == i,
            forall|k: int|
                0 <= k < i ==> (#[trigger] items@[k])@ == filter_value(expr_view(parts@[k])),
        decreases parts.len() - i,
    {
        proof {
            if *e == FilterExpr::And(*parts) {
                assert(decreases_to!(*e => (*e)->And_0));
                assert(decreases_to!((*e)->And_0 => (*e)->And_0@));
                assert(decreases_to!((*e)->And_0@ => (*e)->And_0@[i as int]));
            } else {
                assert(decreases_to!(*e => (*e)->Or_0));
                assert(decreases_to!((*e)->Or_0 => (*e)->Or_0@));
                assert(decreases_to!((*e)->Or_0@ => (*e)->Or_0@[i as int]));
            }
        }
        items.push(filter_json(&parts[i]));
        i = i + 1;
    }
    let j = array(items);
    proof {
        assert(json_seq(items@) =~= Seq::new(
            parts@.len(),
            |i: int|
                if 0 <= i < parts@.len() {
                    filter_value(expr_view(parts@[i]))
                } else {
                    JsonV::Null
                },
        ));
    }
    j
}

/// A filter expression in the query model's JSON form.
pub fn filter_json(e: &FilterExpr) -> (j: Json)
    ensures
        j@ == filter_value(expr_view(*e)),
    decreases e, 1nat,
{
    match e {
        FilterExpr::Cmp { field, op, value } => {
            let mut ms: Vec<(String, Json)> = Vec::new();
            ms.push(member("field", Json::Text(field.clone())));
            ms.push(member("op", text(op.as_str())));
            ms.push(member("value", key_json(value)));
            let j = object(ms);
            proof {
                assert(members_value(ms@) =~= seq![
                    ("field"@, JsonV::Text(field@)),
                    ("op"@, JsonV::Text(op.name())),
                    ("value"@, key_value(value@)),
                ]);
            }
            j
        },
        FilterExpr::IsNull { field } => {
            let mut ms: Vec<(String, Json)> = Vec::new();
            ms.push(member("field", Json::Text(field.clone())));
            ms.push(member("op", text("is_null")));
            let j = object(ms);
            proof {
                assert(members_value(ms@) =~= seq![
                    ("field"@, JsonV::Text(field@)),
                    ("op"@, JsonV::Text("is_null"@)),
                ]);
            }
            j
        },
        FilterExpr::IsNotNull { field } => {
            let mut ms: Vec<(String, Json)> = Vec::new();
            ms.push(member("field", Json::Text(field.clone())));
            ms.push(member("op", text("is_not_null")));
            let j = object(ms);
            proof {
                assert(members_value(ms@) =~= seq![
                    ("field"@, JsonV::Text(field@)),
                    ("op"@, JsonV::Text("is_not_null"@)),
                ]);
            }
            j
        },
        FilterExpr::And(parts) => {
            let inner = parts_json(e, parts);
            proof {
                match expr_view(*e) {
                    FilterExprView::And(vs) => {
                        assert(parts_value(vs) =~= Seq::new(
                            parts@.len(),
                            |i: int|
                                if 0 <= i < parts@.len() {
                                    filter_value(expr_view(parts@[i]))
                                } else {
                                    JsonV::Null
                                },
                        ));
                    },
                    _ => {},
                }
            }
            let mut ms: Vec<(String, Json)> = Vec::new();
            ms.push(member("and", inner));
            let j = object(ms);
            proof {
                let ev = expr_view(*e);
                match ev {
                    FilterExprView::And(vs) => {
                        assert(vs.len() == parts@.len());
                        assert forall|i: int| 0 <= i < vs.len() implies vs[i] == expr_view(
                            parts@[i],
                        ) by {}
                    },
                    _ => {},
                }
                assert(members_value(ms@) =~= seq![("and"@, inner@)]);
            }
            j
        },
        FilterExpr::Or(parts) => {
            let inner = parts_json(e, parts);
            proof {
                match expr_view(*e) {
                    FilterExprView::Or(vs) => {
                        assert(parts_value(vs) =~= Seq::new(
                            parts@.len(),
                            |i: int|
                                if 0 <= i < parts@.len() {
                                    filter_value(expr_view(parts@[i]))
                                } else {
                                    JsonV::Null
                                },
                        ));
                    },
                    _ => {},
                }
            }
            let mut ms: Vec<(String, Json)> = Vec::new();
            ms.push(member("or", inner));
            let j = object(ms);
            proof {
                assert(members_value(ms@) =~= seq![("or"@, inner@)]);
            }
            j
        },
    }
}

/// A sort key as JSON: its field and direction, and `nulls: last` when it
/// says so.
pub open spec fn sort_value(k: SortKeyV) -> JsonV {
    if k.nulls_last {
        JsonV::Object(
            seq![
                ("field"@, JsonV::Text(k.field)),
                ("direction"@, JsonV::Text(k.direction)),
                ("nulls"@, JsonV::Text("last"@)),
            ],
        )
    } else {
        JsonV::Object(
            seq![("field"@, JsonV::Text(k.field)), ("direction"@, JsonV::Text(k.direction))],
        )
    }
}

/// Sort keys as JSON.
fn sorts_json(keys: &Vec<SortKey>) -> (j: Json)
    ensures
        j@ == JsonV::Array(sort_keys_view(keys@).map_values(|k: SortKeyV| sort_value(k))),
{
    let mut items: Vec<Json> = Vec::new();
    let mut i: usize = 0;
    while i < keys.len()
        invariant
            i <= keys@.len(),
            items@.len() == i,
            forall|k: int|
                0 <= k < i ==> (#[trigger] items@[k])@ == sort_value(sort_keys_view(keys@)[k]),
        decreases keys.len() - i,
    {
        let key = &keys[i];
        let mut ms: Vec<(String, Json)> = Vec::new();
        ms.push(member("field", Json::Text(key.field.clone())));
        ms.push(member("direction", Json::Text(key.direction.clone())));
        if key.nulls_last {
            ms.push(member("nulls", text("last")));
        }
        let j = object(ms);
        proof {
            let kv = sort_keys_view(keys@)[i as int];
            if key.nulls_last {
                assert(members_value(ms@) =~= seq![
                    ("field"@, JsonV::Text(kv.field)),
                    ("direction"@, JsonV::Text(kv.direction)),
                    ("nulls"@, JsonV::Text("last"@)),
                ]);
            } else {
                assert(members_value(ms@) =~= seq![
                    ("field"@, JsonV::Text(kv.field)),
                    ("direction"@, JsonV::Text(kv.direction)),
                ]);
            }
        }
        items.push(j);
        i = i + 1;
    }
    let j = array(items);
    proof {
        assert(json_seq(items@) =~= sort_keys_view(keys@).map_values(|k: SortKeyV| sort_value(k)));
    }
    j
}

/// A number as JSON.
pub open spec fn number_value(n: u64) -> JsonV {
    JsonV::Number(decimal(n as nat))
}

/// A query of rows as JSON: the source, the projection, the filter when
/// there is one, the sort list when it is not empty, and the window when
/// there is one, as `limit` and `offset`.
pub open spec fn query_value(
    source: Seq<char>,
    columns: Seq<Seq<char>>,
    sort: Seq<SortKeyV>,
    filter: Option<FilterExprView>,
    window: Option<(u64, u64)>,
) -> JsonV {
    JsonV::Object(
        seq![("source"@, JsonV::Text(source)), ("select"@, texts_value(columns))] + (match filter {
            Some(f) => seq![("filter"@, filter_value(f))],
            None => Seq::empty(),
        }) + (if sort.len() > 0 {
            seq![("sort"@, JsonV::Array(sort.map_values(|k: SortKeyV| sort_value(k))))]
        } else {
            Seq::empty()
        }) + (match window {
            Some((offset, limit)) => seq![
                ("limit"@, number_value(limit)),
                ("offset"@, number_value(offset)),
            ],
            None => Seq::empty(),
        }),
    )
}

/// A query of rows as JSON.
fn query_tree(
    source: &str,
    columns: &[String],
    keys: &Vec<SortKey>,
    filter: Option<&FilterExpr>,
    window: Option<(u64, u64)>,
) -> (j: Json)
    ensures
        j@ == query_value(source@, views(columns@), sort_keys_view(keys@), opt_ref_view(filter), window),
{
    let mut ms: Vec<(String, Json)> = Vec::new();
    ms.push(member("source", text(source)));
    ms.push(member("select", texts_json(columns)));
    let ghost head = members_value(ms@);
    match filter {
        Some(f) => ms.push(member("filter", filter_json(f))),
        None => {},
    }
    let ghost with_filter = members_value(ms@);
    if keys.len() > 0 {
        ms.push(member("sort", sorts_json(keys)));
    }
    let ghost with_sort = members_value(ms@);
    match window {
        Some((offset, limit)) => {
            ms.push(member("limit", Json::Number(unsigned_text(limit))));
            ms.push(member("offset", Json::Number(unsigned_text(offset))));
        },
        None => {},
    }
    let j = object(ms);
    proof {
        let sort = sort_keys_view(keys@);
        assert(head =~= seq![
            ("source"@, JsonV::Text(source@)),
            ("select"@, texts_value(views(columns@))),
        ]);
        assert(with_filter =~= head + (match opt_ref_view(filter) {
            Some(f) => seq![("filter"@, filter_value(f))],
            None => Seq::empty(),
        }));
        assert(with_sort =~= with_filter + (if sort.len() > 0 {
            seq![("sort"@, JsonV::Array(sort.map_values(|k: SortKeyV| sort_value(k))))]
        } else {
            Seq::empty()
        }));
        assert(members_value(ms@) =~= with_sort + (match window {
            Some((offset, limit)) => seq![
                ("limit"@, number_value(limit)),
                ("offset"@, number_value(offset)),
            ],
            None => Seq::empty(),
        }));
    }
    j
}

/// The query of a grid window: source, projection, filter, the whole sort
/// list in the reader's order, and the window.
pub fn query_json(
    source: &str,
    columns: &[String],
    sorts: &[(String, &str)],
    filter: Option<&FilterExpr>,
    offset: u64,
    limit: u64,
) -> (s: String)
    ensures
        s@ == json_text_of(
            query_value(
                source@,
                views(columns@),
                plain_keys(sorts_of(sorts@)),
                opt_ref_view(filter),
                Some((offset, limit)),
            ),
        ),
{
    let keys = query_sort(sorts);
    json_text(&query_tree(source, columns, &keys, filter, Some((offset, limit))))
}

/// The query of a whole view: the group keys first, ascending with NULL
/// last, then the other sorts, and no window.
pub fn view_query_json(
    source: &str,
    columns: &[String],
    groups: &[String],
    sorts: &[(String, &str)],
    filter: Option<&FilterExpr>,
) -> (s: String)
    ensures
        s@ == json_text_of(
            query_value(
                source@,
                views(columns@),
                view_sort_spec(views(groups@), sorts_of(sorts@)),
                opt_ref_view(filter),
                None,
            ),
        ),
{
    let keys = view_sort(groups, sorts);
    json_text(&query_tree(source, columns, &keys, filter, None))
}

/// The aggregates a group or total query asks for, as JSON: the row count
/// under its alias, then every asked function with its column under its
/// position's alias.
pub open spec fn asks_value(aggregates: Seq<(Seq<char>, Summary)>) -> JsonV {
    let a = asked(aggregates);
    JsonV::Array(
        seq![
            JsonV::Object(
                seq![("fn"@, JsonV::Text("count"@)), ("as"@, JsonV::Text(COUNT_ALIAS@))],
            ),
        ] + Seq::new(
            a.len(),
            |k: int|
                JsonV::Object(
                    seq![
                        ("fn"@, JsonV::Text(a[k].1.name())),
                        ("field"@, JsonV::Text(a[k].0)),
                        ("as"@, JsonV::Text(alias_of(k as nat))),
                    ],
                ),
        ),
    )
}

/// The aggregates a query asks for, as JSON.
fn asks_json(aggregates: &[(String, Summary)]) -> (j: Json)
    requires
        aggregates@.len() <= usize::MAX / 4,
    ensures
        j@ == asks_value(summaries_view(aggregates@)),
{
    let list = aggregate_list(aggregates);
    let ghost a = asked(summaries_view(aggregates@));
    let mut items: Vec<Json> = Vec::new();
    let mut i: usize = 0;
    while i < list.len()
        invariant
            i <= list@.len(),
            list@.len() == 1 + a.len(),
            a == asked(summaries_view(aggregates@)),
            list@[0].function == AggregateFn::Count,
            list@[0].field is None,
            list@[0].alias@ == COUNT_ALIAS@,
            forall|k: int|
                1 <= k < list@.len() ==> {
                    &&& (#[trigger] list@[k]).function == a[k - 1].1
                    &&& list@[k].field is Some
                    &&& list@[k].field->Some_0@ == a[k - 1].0
                    &&& list@[k].alias@ == alias_of((k - 1) as nat)
                },
            items@.len() == i,
            forall|k: int|
                0 <= k < i ==> (#[trigger] items@[k])@ == (seq![
                    JsonV::Object(
                        seq![("fn"@, JsonV::Text("count"@)), ("as"@, JsonV::Text(COUNT_ALIAS@))],
                    ),
                ] + Seq::new(
                    a.len(),
                    |k: int|
                        JsonV::Object(
                            seq![
                                ("fn"@, JsonV::Text(a[k].1.name())),
                                ("field"@, JsonV::Text(a[k].0)),
                                ("as"@, JsonV::Text(alias_of(k as nat))),
                            ],
                        ),
                ))[k],
        decreases list.len() - i,
    {
        let ask = &list[i];
        let mut ms: Vec<(String, Json)> = Vec::new();
        ms.push(member("fn", text(ask.function.as_str())));
        match &ask.field {
            Some(field) => ms.push(member("field", Json::Text(field.clone()))),
            None => {},
        }
        ms.push(member("as", Json::Text(ask.alias.clone())));
        let j = object(ms);
        proof {
            if i == 0 {
                reveal_strlit("count");
                assert(AggregateFn::Count.name() =~= "count"@);
                assert(members_value(ms@) =~= seq![
                    ("fn"@, JsonV::Text("count"@)),
                    ("as"@, JsonV::Text(COUNT_ALIAS@)),
                ]);
            } else {
                let k = i - 1;
                assert(members_value(ms@) =~= seq![
                    ("fn"@, JsonV::Text(a[k].1.name())),
                    ("field"@, JsonV::Text(a[k].0)),
                    ("as"@, JsonV::Text(alias_of(k as nat))),
                ]);
            }
        }
        items.push(j);
        i = i + 1;
    }
    let j = array(items);
    proof {
        let want = seq![
            JsonV::Object(seq![("fn"@, JsonV::Text("count"@)), ("as"@, JsonV::Text(COUNT_ALIAS@))]),
        ] + Seq::new(
            a.len(),
            |k: int|
                JsonV::Object(
                    seq![
                        ("fn"@, JsonV::Text(a[k].1.name())),
                        ("field"@, JsonV::Text(a[k].0)),
                        ("as"@, JsonV::Text(alias_of(k as nat))),
                    ],
                ),
        );
        assert(json_seq(items@) =~= want);
    }
    j
}

/// The aliases `from` positions on, one per asked aggregate.
pub open spec fn aliases(n: nat) -> Seq<Seq<char>> {
    Seq::new(n, |k: int| alias_of(k as nat))
}

/// The query of one level of groups as JSON: every key of `column` with its
/// row count and the chosen aggregates, NULL last, no limit.
pub open spec fn group_query_value(
    source: Seq<char>,
    column: Seq<char>,
    filter: Option<FilterExprView>,
    aggregates: Seq<(Seq<char>, Summary)>,
) -> JsonV {
    JsonV::Object(
        seq![
            ("source"@, JsonV::Text(source)),
            ("group"@, texts_value(seq![column])),
            ("aggregate"@, asks_value(aggregates)),
            ("select"@, texts_value(seq![column, COUNT_ALIAS@] + aliases(asked(aggregates).len()))),
            (
                "sort"@,
                JsonV::Array(
                    seq![
                        sort_value(SortKeyV { field: column, direction: "asc"@, nulls_last: true }),
                    ],
                ),
            ),
        ] + match filter {
            Some(f) => seq![("filter"@, filter_value(f))],
            None => Seq::empty(),
        },
    )
}

/// The grand total as JSON: the same aggregates without `group`.
pub open spec fn total_query_value(
    source: Seq<char>,
    filter: Option<FilterExprView>,
    aggregates: Seq<(Seq<char>, Summary)>,
) -> JsonV {
    JsonV::Object(
        seq![
            ("source"@, JsonV::Text(source)),
            ("aggregate"@, asks_value(aggregates)),
            ("select"@, texts_value(seq![COUNT_ALIAS@] + aliases(asked(aggregates).len()))),
        ] + match filter {
            Some(f) => seq![("filter"@, filter_value(f))],
            None => Seq::empty(),
        },
    )
}

/// The group query of one level: every key of `column` with its row count
/// and the chosen aggregates, NULL last, no limit.
pub fn group_query_json(
    source: &str,
    column: &str,
    filter: Option<&FilterExpr>,
    aggregates: &[(String, Summary)],
) -> (s: String)
    requires
        aggregates@.len() <= usize::MAX / 4,
    ensures
        s@ == json_text_of(
            group_query_value(source@, column@, opt_ref_view(filter), summaries_view(aggregates@)),
        ),
{
    let ghost n = asked(summaries_view(aggregates@)).len();
    let select = group_select(column, aggregates);
    let mut group: Vec<String> = Vec::new();
    group.push(column.to_string());
    let mut sort_keys: Vec<SortKey> = Vec::new();
    sort_keys.push(
        SortKey { field: column.to_string(), direction: "asc".to_string(), nulls_last: true },
    );
    let mut ms: Vec<(String, Json)> = Vec::new();
    ms.push(member("source", text(source)));
    ms.push(member("group", texts_json(&group)));
    ms.push(member("aggregate", asks_json(aggregates)));
    ms.push(member("select", texts_json(&select)));
    ms.push(member("sort", sorts_json(&sort_keys)));
    let ghost head = members_value(ms@);
    match filter {
        Some(f) => ms.push(member("filter", filter_json(f))),
        None => {},
    }
    let j = object(ms);
    proof {
        assert(views(group@) =~= seq![column@]);
        assert(views(select@) =~= seq![column@, COUNT_ALIAS@] + aliases(n));
        assert(sort_keys_view(sort_keys@).map_values(|k: SortKeyV| sort_value(k)) =~= seq![
            sort_value(SortKeyV { field: column@, direction: "asc"@, nulls_last: true }),
        ]);
        assert(members_value(ms@) =~= seq![
            ("source"@, JsonV::Text(source@)),
            ("group"@, texts_value(seq![column@])),
            ("aggregate"@, asks_value(summaries_view(aggregates@))),
            ("select"@, texts_value(seq![column@, COUNT_ALIAS@] + aliases(n))),
            (
                "sort"@,
                JsonV::Array(
                    seq![
                        sort_value(SortKeyV { field: column@, direction: "asc"@, nulls_last: true }),
                    ],
                ),
            ),
        ] + match opt_ref_view(filter) {
            Some(f) => seq![("filter"@, filter_value(f))],
            None => Seq::empty(),
        });
    }
    json_text(&j)
}

/// The grand total: the same aggregates without `group`.
pub fn total_query_json(
    source: &str,
    filter: Option<&FilterExpr>,
    aggregates: &[(String, Summary)],
) -> (s: String)
    requires
        aggregates@.len() <= usize::MAX / 4,
    ensures
        s@ == json_text_of(total_query_value(source@, opt_ref_view(filter), summaries_view(aggregates@))),
{
    let ghost n = asked(summaries_view(aggregates@)).len();
    let select = total_select(aggregates);
    let mut ms: Vec<(String, Json)> = Vec::new();
    ms.push(member("source", text(source)));
    ms.push(member("aggregate", asks_json(aggregates)));
    ms.push(member("select", texts_json(&select)));
    match filter {
        Some(f) => ms.push(member("filter", filter_json(f))),
        None => {},
    }
    let j = object(ms);
    proof {
        assert(views(select@) =~= seq![COUNT_ALIAS@] + aliases(n));
        assert(members_value(ms@) =~= seq![
            ("source"@, JsonV::Text(source@)),
            ("aggregate"@, asks_value(summaries_view(aggregates@))),
            ("select"@, texts_value(seq![COUNT_ALIAS@] + aliases(n))),
        ] + match opt_ref_view(filter) {
            Some(f) => seq![("filter"@, filter_value(f))],
            None => Seq::empty(),
        });
    }
    json_text(&j)
}

} // verus!
