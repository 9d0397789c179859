//! What a query asks besides its filter: the sort keys of a window and of a
//! whole view, and the state a result leaves the status line in.

use vstd::prelude::*;

use crate::text::{contains_text, same_text, views};

verus! {

/// One sort key of a query.
#[derive(Debug, PartialEq, Eq)]
pub struct SortKey {
    pub field: String,
    /// The wire direction, `asc` or `desc`.
    pub direction: String,
    /// Whether NULL is stated to sort last.
    pub nulls_last: bool,
}

/// A sort key as a value.
pub struct SortKeyV {
    pub field: Seq<char>,
    pub direction: Seq<char>,
    pub nulls_last: bool,
}

/// The values of some sort keys.
pub open spec fn sort_keys_view(s: Seq<SortKey>) -> Seq<SortKeyV> {
    s.map_values(|k: SortKey| SortKeyV { field: k.field@, direction: k.direction@, nulls_last: k.nulls_last })
}

/// The sorts of the grid as values: a field and a direction each.
pub open spec fn sorts_of(sorts: Seq<(String, &str)>) -> Seq<(Seq<char>, Seq<char>)> {
    sorts.map_values(|p: (String, &str)| (p.0@, p.1@))
}

/// Each sort as a key, in the reader's order.
pub open spec fn plain_keys(sorts: Seq<(Seq<char>, Seq<char>)>) -> Seq<SortKeyV> {
    sorts.map_values(|p: (Seq<char>, Seq<char>)| SortKeyV { field: p.0, direction: p.1, nulls_last: false })
}

/// The sort keys of a window query: the whole sort list, in the reader's
/// order.
pub fn query_sort(sorts: &[(String, &str)]) -> (keys: Vec<SortKey>)
    ensures
        sort_keys_view(keys@) == plain_keys(sorts_of(sorts@)),
{
    let ghost want = plain_keys(sorts_of(sorts@));
    let mut keys: Vec<SortKey> = Vec::new();
    let mut i: usize = 0;
    while i < sorts.len()
        invariant
            i <= sorts@.len(),
            want == plain_keys(sorts_of(sorts@)),
            sort_keys_view(keys@) == want.take(i as int),
        decreases sorts.len() - i,
    {
        let k = SortKey {
            field: sorts[i].0.clone(),
            direction: sorts[i].1.to_string(),
            nulls_last: false,
        };
        let ghost before = sort_keys_view(keys@);
        keys.push(k);
        proof {
            assert(sort_keys_view(keys@) =~= before.push(want[i as int]));
            assert(want.take(i + 1) =~= want.take(i as int).push(want[i as int]));
        }
        i = i + 1;
    }
    proof {
        assert(want.take(i as int) =~= want);
    }
    keys
}

/// The sort keys of a whole view: the group keys first, ascending with NULL
/// last — the order the groups are shown in — then the reader's sorts on
/// the other columns.
pub open spec fn view_sort_spec(
    groups: Seq<Seq<char>>,
    sorts: Seq<(Seq<char>, Seq<char>)>,
) -> Seq<SortKeyV> {
    groups.map_values(|g: Seq<char>| SortKeyV { field: g, direction: "asc"@, nulls_last: true })
        + plain_keys(sorts.filter(|p: (Seq<char>, Seq<char>)| !groups.contains(p.0)))
}

/// The sort keys of a whole view, the query a page exports.
pub fn view_sort(groups: &[String], sorts: &[(String, &str)]) -> (keys: Vec<SortKey>)
    ensures
        sort_keys_view(keys@) == view_sort_spec(views(groups@), sorts_of(sorts@)),
{
    let ghost gs = views(groups@);
    let ghost head = gs.map_values(
        |g: Seq<char>| SortKeyV { field: g, direction: "asc"@, nulls_last: true },
    );
    let mut keys: Vec<SortKey> = Vec::new();
    let mut i: usize = 0;
    while i < groups.len()
        invariant
            i <= groups@.len(),
            gs == views(groups@),
            head == gs.map_values(
                |g: Seq<char>| SortKeyV { field: g, direction: "asc"@, nulls_last: true },
            ),
            sort_keys_view(keys@) == head.take(i as int),
        decreases groups.len() - i,
    {
        let k = SortKey { field: groups[i].clone(), direction: "asc".to_string(), nulls_last: true };
        let ghost before = sort_keys_view(keys@);
        keys.push(k);
        proof {
            assert(sort_keys_view(keys@) =~= before.push(head[i as int]));
            assert(head.take(i + 1) =~= head.take(i as int).push(head[i as int]));
        }
        i = i + 1;
    }
    proof {
        assert(head.take(i as int) =~= head);
    }
    let ghost ss = sorts_of(sorts@);
    let ghost keep = |p: (Seq<char>, Seq<char>)| !gs.contains(p.0);
    let mut j: usize = 0;
    while j < sorts.len()
        invariant
            j <= sorts@.len(),
            gs == views(groups@),
            ss == sorts_of(sorts@),
            keep == (|p: (Seq<char>, Seq<char>)| !gs.contains(p.0)),
            sort_keys_view(keys@) == head + plain_keys(ss.take(j as int).filter(keep)),
        decreases sorts.len() - j,
    {
        proof {
            reveal(Seq::filter);
            assert(ss.take(j + 1).drop_last() =~= ss.take(j as int));
            assert(ss.take(j + 1).last() == (sorts@[j as int].0@, sorts@[j as int].1@));
        }
        if !contains_text(groups, sorts[j].0.as_str()) {
            let k = SortKey {
                field: sorts[j].0.clone(),
                direction: sorts[j].1.to_string(),
                nulls_last: false,
            };
            let ghost before = sort_keys_view(keys@);
            keys.push(k);
            proof {
                let f = ss.take(j as int).filter(keep);
                assert(plain_keys(f.push(ss[j as int])) =~= plain_keys(f).push(
                    SortKeyV { field: k.field@, direction: k.direction@, nulls_last: false },
                ));
                assert(sort_keys_view(keys@) =~= before.push(
                    SortKeyV { field: k.field@, direction: k.direction@, nulls_last: false },
                ));
            }
        }
        j = j + 1;
    }
    proof {
        assert(ss.take(j as int) =~= ss);
    }
    keys
}

/// What a grid's result left it in.
#[derive(Debug, PartialEq, Eq)]
pub enum GridStatus {
    Loading,
    Ready,
    Empty,
    /// The user-facing sentence of what went wrong.
    Error(String),
}

/// The `data-state` token of the status line, for styling.
pub fn status_state(status: &GridStatus) -> (s: &'static str)
    ensures
        s@ == (match status {
            GridStatus::Loading => "loading"@,
            GridStatus::Ready => "ready"@,
            GridStatus::Empty => "empty"@,
            GridStatus::Error(_) => "error"@,
        }),
{
    match status {
        GridStatus::Loading => "loading",
        GridStatus::Ready => "ready",
        GridStatus::Empty => "empty",
        GridStatus::Error(_) => "error",
    }
}

/// The sentences of the status line, in the page's words.
pub struct StatusTexts {
    pub loading: String,
    pub empty: String,
    /// The notice that a selection was dropped.
    pub selection_cleared: String,
}

/// The sentence of a state: `matches` is the count sentence the page's
/// words make of the number of matches; an error is its own sentence.
pub open spec fn status_text_spec(t: StatusTexts, status: GridStatus, matches: Seq<char>) -> Seq<
    char,
> {
    match status {
        GridStatus::Loading => t.loading@,
        GridStatus::Ready => matches,
        GridStatus::Empty => t.empty@,
        GridStatus::Error(message) => message@,
    }
}

/// One sentence per state, for what the reader reads and what the live
/// region announces.
pub fn status_text(texts: &StatusTexts, status: &GridStatus, matches: &str) -> (s: String)
    ensures
        s@ == status_text_spec(*texts, *status, matches@),
{
    match status {
        GridStatus::Loading => texts.loading.clone(),
        GridStatus::Ready => matches.to_string(),
        GridStatus::Empty => texts.empty.clone(),
        GridStatus::Error(message) => message.clone(),
    }
}

/// What joins the notices to the status sentence.
pub open spec fn joiner() -> Seq<char> {
    seq![' ', '\u{00B7}', ' ']
}

/// The status line: the sentence of the state, then the notice that a
/// selection was dropped, then a column operation's notice, each after a
/// middle dot.
pub open spec fn status_line_spec(
    t: StatusTexts,
    status: GridStatus,
    matches: Seq<char>,
    cleared: bool,
    notice: Option<Seq<char>>,
) -> Seq<char> {
    let base = status_text_spec(t, status, matches);
    let with_cleared = if cleared {
        base + joiner() + t.selection_cleared@
    } else {
        base
    };
    match notice {
        Some(n) => with_cleared + joiner() + n,
        None => with_cleared,
    }
}

/// The status line with the number of matches given as its sentence: the
/// notices ride along with the result in the one live region the grid has.
pub fn status_line_counting(
    texts: &StatusTexts,
    status: &GridStatus,
    matches: &str,
    cleared: bool,
    notice: Option<&str>,
) -> (s: String)
    ensures
        s@ == status_line_spec(
            *texts,
            *status,
            matches@,
            cleared,
            match notice {
                Some(n) => Some(n@),
                None => None,
            },
        ),
{
    let mut text = status_text(texts, status, matches);
    if cleared {
        text.append(" \u{00B7} ");
        text.append(texts.selection_cleared.as_str());
    }
    if let Some(n) = notice {
        text.append(" \u{00B7} ");
        text.append(n);
    }
    proof {
        reveal_strlit(" \u{00B7} ");
    }
    text
}

/// A sort direction.
#[derive(Clone, Copy, Debug, PartialEq, Eq, Structural)]
pub enum SortDirection {
    Asc,
    Desc,
}

/// The sort a header click asks for, given the current one: a column
/// sorted ascending turns descending, one sorted descending turns unsorted,
/// and any other column starts ascending.
pub open spec fn next_sort_spec(current: Option<(Seq<char>, SortDirection)>, column: Seq<char>) -> Option<
    (Seq<char>, SortDirection),
> {
    match current {
        Some((c, SortDirection::Asc)) if c == column => Some((column, SortDirection::Desc)),
        Some((c, SortDirection::Desc)) if c == column => None,
        _ => Some((column, SortDirection::Asc)),
    }
}

/// The sort a header click asks for.
pub fn next_sort(current: Option<(&str, SortDirection)>, column: &str) -> (next: Option<
    (String, SortDirection),
>)
    ensures
        match next {
            Some((c, d)) => next_sort_spec(
                match current {
                    Some((x, y)) => Some((x@, y)),
                    None => None,
                },
                column@,
            ) == Some((c@, d)),
            None => next_sort_spec(
                match current {
                    Some((x, y)) => Some((x@, y)),
                    None => None,
                },
                column@,
            ) is None,
        },
{
    match current {
        Some((c, SortDirection::Asc)) => {
            if same_text(c, column) {
                return Some((column.to_string(), SortDirection::Desc));
            }
        },
        Some((c, SortDirection::Desc)) => {
            if same_text(c, column) {
                return None;
            }
        },
        None => {},
    }
    Some((column.to_string(), SortDirection::Asc))
}

/// Three clicks on one header come back to no sort.
pub proof fn lemma_three_clicks_unsort(column: Seq<char>)
    ensures
        next_sort_spec(
            next_sort_spec(next_sort_spec(None, column), column),
            column,
        ) is None,
{
}

/// The sort cycle of a header click: the answer always sorts by the
/// clicked column or by nothing; a click on a column other than the sorted
/// one sorts it ascending, whatever the direction of the current sort; only
/// a click on the sorted column itself turns ascending into descending and
/// descending into no sort.
pub proof fn lemma_click_sorts(current: Option<(Seq<char>, SortDirection)>, column: Seq<char>)
    ensures
        next_sort_spec(current, column) matches Some((c, _)) ==> c == column,
        (match current {
            Some((c, _)) => c != column,
            None => true,
        }) ==> next_sort_spec(current, column) == Some(
            (column, SortDirection::Asc),
        ),
        current == Some((column, SortDirection::Asc)) ==> next_sort_spec(current, column) == Some(
            (column, SortDirection::Desc),
        ),
        current == Some((column, SortDirection::Desc)) ==> next_sort_spec(current, column) is None,
{
}

} // verus!
