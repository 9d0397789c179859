//! JSON values as the library reads and writes them: the tree `serde_json`
//! hands back and writes, the members of an object, and wire values as JSON.

use vstd::prelude::*;

use crate::grouping::{Key, KeyV};
use crate::text::{decimal, parse_i64, parse_i64_spec, push_decimal, same_text, views};

verus! {

/// A JSON value. A number keeps its text; an object keeps its members in
/// order.
#[derive(Debug, PartialEq, Eq)]
pub enum Json {
    Null,
    Bool(bool),
    Number(String),
    Text(String),
    Array(Vec<Json>),
    Object(Vec<(String, Json)>),
}

/// A JSON value as a value.
pub enum JsonV {
    Null,
    Bool(bool),
    Number(Seq<char>),
    Text(Seq<char>),
    Array(Seq<JsonV>),
    Object(Seq<(Seq<char>, JsonV)>),
}

/// The value of a JSON tree.
pub open spec fn json_view(j: Json) -> JsonV
    decreases j,
{
    match j {
        Json::Null => JsonV::Null,
        Json::Bool(b) => JsonV::Bool(b),
        Json::Number(t) => JsonV::Number(t@),
        Json::Text(t) => JsonV::Text(t@),
        Json::Array(items) => JsonV::Array(
            Seq::new(
                items@.len(),
                |i: int|
                    if 0 <= i < items@.len() {
                        json_view(items@[i])
                    } else {
                        JsonV::Null
                    },
            ),
        ),
        Json::Object(members) => JsonV::Object(
            Seq::new(
                members@.len(),
                |i: int|
                    if 0 <= i < members@.len() {
                        (members@[i].0@, json_view(members@[i].1))
                    } else {
                        (Seq::empty(), JsonV::Null)
                    },
            ),
        ),
    }
}

impl View for Json {
    type V = JsonV;

    open spec fn view(&self) -> JsonV {
        json_view(*self)
    }
}

/// The value of the first member named `key`, from member `i` on; `null`
/// when there is none.
pub open spec fn lookup_from(members: Seq<(Seq<char>, JsonV)>, key: Seq<char>, i: nat) -> JsonV
    decreases members.len() - i,
{
    if i >= members.len() {
        JsonV::Null
    } else if members[i as int].0 == key {
        members[i as int].1
    } else {
        lookup_from(members, key, i + 1)
    }
}

/// `value[key]`: the member named `key` of an object, and `null` for a
/// missing member or a value that is no object.
pub open spec fn member(value: JsonV, key: Seq<char>) -> JsonV {
    match value {
        JsonV::Object(members) => lookup_from(members, key, 0),
        _ => JsonV::Null,
    }
}

/// The member named `key` of an object: `None` stands for `null`, which is
/// what a missing member or a value that is no object reads as.
pub fn member_of<'a>(value: &'a Json, key: &str) -> (m: Option<&'a Json>)
    ensures
        match m {
            Some(v) => v@ == member(value@, key@),
            None => member(value@, key@) == JsonV::Null,
        },
{
    match value {
        Json::Object(members) => {
            let ghost ms = match value@ {
                JsonV::Object(ms) => ms,
                _ => Seq::empty(),
            };
            let mut i: usize = 0;
            while i < members.len()
                invariant
                    i <= members@.len(),
                    ms.len() == members@.len(),
                    value@ == JsonV::Object(ms),
                    forall|k: int|
                        0 <= k < members@.len() ==> #[trigger] ms[k] == (
                            members@[k].0@,
                            json_view(members@[k].1),
                        ),
                    lookup_from(ms, key@, 0) == lookup_from(ms, key@, i as nat),
                decreases members.len() - i,
            {
                if same_text(members[i].0.as_str(), key) {
                    return Some(&members[i].1);
                }
                i = i + 1;
            }
            None
        },
        _ => None,
    }
}

/// Whether an object has a member named `key`, whatever its value.
pub open spec fn has_member(value: JsonV, key: Seq<char>) -> bool {
    match value {
        JsonV::Object(members) => members.map_values(|m: (Seq<char>, JsonV)| m.0).contains(key),
        _ => false,
    }
}

/// Whether an object has a member named `key`.
pub fn has_member_of(value: &Json, key: &str) -> (b: bool)
    ensures
        b == has_member(value@, key@),
{
    match value {
        Json::Object(members) => {
            let ghost ms = match value@ {
                JsonV::Object(ms) => ms,
                _ => Seq::empty(),
            };
            let mut i: usize = 0;
            while i < members.len()
                invariant
                    i <= members@.len(),
                    ms.len() == members@.len(),
                    value@ == JsonV::Object(ms),
                    forall|k: int|
                        0 <= k < members@.len() ==> #[trigger] ms[k] == (
                            members@[k].0@,
                            json_view(members@[k].1),
                        ),
                    forall|k: int| 0 <= k < i ==> ms[k].0 != key@,
                decreases members.len() - i,
            {
                if same_text(members[i].0.as_str(), key) {
                    proof {
                        let names = ms.map_values(|m: (Seq<char>, JsonV)| m.0);
                        assert(names[i as int] == key@);
                    }
                    return true;
                }
                i = i + 1;
            }
            proof {
                let names = ms.map_values(|m: (Seq<char>, JsonV)| m.0);
                assert forall|k: int| 0 <= k < names.len() implies names[k] != key@ by {
                    assert(names[k] == ms[k].0);
                }
            }
            false
        },
        _ => false,
    }
}

/// A string's text, and nothing for any other value.
pub open spec fn as_text(v: JsonV) -> Seq<char> {
    match v {
        JsonV::Text(t) => t,
        _ => Seq::empty(),
    }
}

/// A string's text, and nothing for a missing member or another value.
pub fn text_or_empty(value: Option<&Json>) -> (s: String)
    ensures
        s@ == match value {
            Some(v) => as_text(v@),
            None => Seq::<char>::empty(),
        },
{
    match value {
        Some(Json::Text(t)) => t.clone(),
        _ => String::new(),
    }
}

/// A whole number in decimal, with a minus sign when it is negative.
pub open spec fn signed_decimal(i: int) -> Seq<char> {
    if i < 0 {
        seq!['-'] + decimal((-i) as nat)
    } else {
        decimal(i as nat)
    }
}

/// A signed number in decimal.
pub fn signed_text(i: i64) -> (s: String)
    ensures
        s@ == signed_decimal(i as int),
{
    let mut s = String::new();
    let wide: i128 = i as i128;
    if wide < 0 {
        s.append("-");
        proof {
            reveal_strlit("-");
        }
        push_decimal(&mut s, (0 - wide) as u64);
    } else {
        push_decimal(&mut s, wide as u64);
    }
    proof {
        assert(s@ =~= signed_decimal(i as int));
    }
    s
}

/// An unsigned number in decimal.
pub fn unsigned_text(n: u64) -> (s: String)
    ensures
        s@ == decimal(n as nat),
{
    let mut s = String::new();
    push_decimal(&mut s, n);
    proof {
        assert(s@ =~= decimal(n as nat));
    }
    s
}

/// A wire value as JSON: a whole number by its digits, any other number by
/// the digits that were written.
pub open spec fn key_value(k: KeyV) -> JsonV {
    match k {
        KeyV::Null => JsonV::Null,
        KeyV::Bool(b) => JsonV::Bool(b),
        KeyV::Int(i) => JsonV::Number(signed_decimal(i as int)),
        KeyV::Number(t) => JsonV::Number(t),
        KeyV::Text(t) => JsonV::Text(t),
    }
}

/// A wire value as JSON.
pub fn key_json(k: &Key) -> (j: Json)
    ensures
        j@ == key_value(k@),
{
    match k {
        Key::Null => Json::Null,
        Key::Bool(b) => Json::Bool(*b),
        Key::Int(i) => Json::Number(signed_text(*i)),
        Key::Number(t) => Json::Number(t.clone()),
        Key::Text(t) => Json::Text(t.clone()),
    }
}

/// A JSON value as a wire value: a number that is a 64-bit integer as that
/// integer, another number by its text, an array or an object by its JSON
/// text.
pub open spec fn key_of_value(v: JsonV) -> KeyV {
    match v {
        JsonV::Null => KeyV::Null,
        JsonV::Bool(b) => KeyV::Bool(b),
        JsonV::Number(t) => match parse_i64_spec(t) {
            Some(i) => KeyV::Int(i),
            None => KeyV::Number(t),
        },
        JsonV::Text(t) => KeyV::Text(t),
        _ => KeyV::Text(json_text_of(v)),
    }
}

/// A JSON value as a wire value.
pub fn key_of_json(v: &Json) -> (k: Key)
    ensures
        k@ == key_of_value(v@),
{
    match v {
        Json::Null => Key::Null,
        Json::Bool(b) => Key::Bool(*b),
        Json::Number(t) => match parse_i64(t.as_str()) {
            Some(i) => Key::Int(i),
            None => Key::Number(t.clone()),
        },
        Json::Text(t) => Key::Text(t.clone()),
        _ => Key::Text(json_text(v)),
    }
}

/// A list of texts as a JSON array of strings.
pub open spec fn texts_value(names: Seq<Seq<char>>) -> JsonV {
    JsonV::Array(names.map_values(|n: Seq<char>| JsonV::Text(n)))
}

/// A list of texts as a JSON array of strings.
pub fn texts_json(names: &[String]) -> (j: Json)
    ensures
        j@ == texts_value(views(names@)),
{
    let mut items: Vec<Json> = Vec::new();
    let mut i: usize = 0;
    while i < names.len()
        invariant
            i <= names@.len(),
            items@.len() == i,
            forall|k: int| 0 <= k < i ==> (#[trigger] items@[k])@ == JsonV::Text(names@[k]@),
        decreases names.len() - i,
    {
        items.push(Json::Text(names[i].clone()));
        i = i + 1;
    }
    proof {
        lemma_array_view(items);
        assert(json_seq(items@) =~= views(names@).map_values(|n: Seq<char>| JsonV::Text(n)));
    }
    Json::Array(items)
}

/// An object's members as values.
pub open spec fn members_value(ms: Seq<(String, Json)>) -> Seq<(Seq<char>, JsonV)> {
    ms.map_values(|m: (String, Json)| (m.0@, m.1@))
}

/// An object's value holds the values of its members.
pub proof fn lemma_object_view(members: Vec<(String, Json)>)
    ensures
        json_view(Json::Object(members)) == JsonV::Object(members_value(members@)),
{
    match json_view(Json::Object(members)) {
        JsonV::Object(ms) => {
            assert(ms =~= members_value(members@));
        },
        _ => {},
    }
}

/// The values of a sequence of trees.
pub open spec fn json_seq(items: Seq<Json>) -> Seq<JsonV> {
    items.map_values(|j: Json| j@)
}

/// An array's value holds the values of its items.
pub proof fn lemma_array_view(items: Vec<Json>)
    ensures
        json_view(Json::Array(items)) == JsonV::Array(json_seq(items@)),
{
    match json_view(Json::Array(items)) {
        JsonV::Array(vs) => {
            assert(vs =~= json_seq(items@));
        },
        _ => {},
    }
}

/// `serde_json::Value`, carried from the parser to the conversion below and
/// never looked into.
#[verifier::external_type_specification]
#[verifier::external_body]
pub struct ExValue(serde_json::Value);

/// What `serde_json::from_str` makes of a text read as a
/// `serde_json::Value`: the value as a tree, or the error's message.
pub uninterp spec fn json_value_of(text: Seq<char>) -> Result<JsonV, Seq<char>>;

/// Reads `text` with `serde_json::from_str` into a `serde_json::Value` and
/// hands it back as a tree, or the error's message (its `Display`). The
/// contract claims only that the answer is a function of the text: which
/// texts are JSON, what the tree of one holds and what a message says are
/// left to the parser.
#[verifier::external_body]
pub(crate) fn json_value(text: &str) -> (r: Result<Json, String>)
    ensures
        match r {
            Ok(j) => json_value_of(text@) == Ok::<JsonV, Seq<char>>(j@),
            Err(e) => json_value_of(text@) == Err::<JsonV, Seq<char>>(e@),
        },
{
    match serde_json::from_str::<serde_json::Value>(text) {
        Ok(value) => Ok(json_tree(value)),
        Err(error) => Err(error.to_string()),
    }
}

/// What `serde_json` writes for a value: the compact text that the
/// `Display` of a `serde_json::Value` gives, once the tree is made one.
pub uninterp spec fn json_text_of(value: JsonV) -> Seq<char>;

/// The compact JSON text of a tree: the tree made a `serde_json::Value`
/// (`serde_value`) and written by its `Display`. The contract claims only
/// that the text is a function of the tree; what it says is left to
/// `serde_json`.
#[verifier::external_body]
pub(crate) fn json_text(value: &Json) -> (s: String)
    ensures
        s@ == json_text_of(value@),
{
    serde_value(value).to_string()
}

/// A tree as a `serde_json::Value`, variant for variant: a number through
/// `serde_json::Number`'s `FromStr` — digits it cannot read as a number
/// (one too large for a float) are `null`, as `serde_json` writes such a
/// float — and an object's members into its map, a later one of the same
/// name in place of an earlier. It stands apart from `json_text` because
/// it calls itself for the items of arrays and objects; only `json_text`
/// calls it, and nothing is claimed of it.
#[verifier::external_body]
fn serde_value(value: &Json) -> serde_json::Value {
    match value {
        Json::Null => serde_json::Value::Null,
        Json::Bool(b) => serde_json::Value::Bool(*b),
        Json::Number(t) => t.parse::<serde_json::Number>().map_or(serde_json::Value::Null, serde_json::Value::Number),
        Json::Text(t) => serde_json::Value::String(t.clone()),
        Json::Array(items) => serde_json::Value::Array(items.iter().map(serde_value).collect()),
        Json::Object(members) => serde_json::Value::Object(
            members.iter().map(|(k, v)| (k.clone(), serde_value(v))).collect(),
        ),
    }
}

/// A `serde_json::Value` as a tree, variant for variant: a number by its
/// text (the `Display` of `serde_json::Number`), an object's members in the
/// order its map yields them — by name, the map being ordered. It stands
/// apart from `json_value` because it calls itself for the items of arrays
/// and objects; only `json_value` calls it, and nothing is claimed of it.
#[verifier::external_body]
fn json_tree(value: serde_json::Value) -> Json {
    match value {
        serde_json::Value::Null => Json::Null,
        serde_json::Value::Bool(b) => Json::Bool(b),
        serde_json::Value::Number(n) => Json::Number(n.to_string()),
        serde_json::Value::String(s) => Json::Text(s),
        serde_json::Value::Array(items) => Json::Array(items.into_iter().map(json_tree).collect()),
        serde_json::Value::Object(map) => Json::Object(
            map.into_iter().map(|(k, v)| (k, json_tree(v))).collect(),
        ),
    }
}

} // verus!
