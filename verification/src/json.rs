use vstd::prelude::*;

verus! {

/// A JSON value, as far as the subject data is read from it. A number keeps
/// only what it is worth as an unsigned 64-bit integer: `Some(n)` for a
/// non-negative integer `n` that fits, `None` for any other number.
/// An object keeps its members in order; a key is looked up at its first
/// member.
#[derive(Debug)]
pub enum Json {
    Null,
    Bool(bool),
    Number(Option<u64>),
    Str(String),
    Array(Vec<Json>),
    Object(Vec<(String, Json)>),
}

/// A JSON value, as plain values.
pub enum JsonView {
    Null,
    Bool(bool),
    Number(Option<u64>),
    Str(Seq<char>),
    Array(Seq<JsonView>),
    Object(Seq<(Seq<char>, JsonView)>),
}

pub open spec fn json_view(j: Json) -> JsonView
    decreases j,
{
    match j {
        Json::Null => JsonView::Null,
        Json::Bool(b) => JsonView::Bool(b),
        Json::Number(n) => JsonView::Number(n),
        Json::Str(s) => JsonView::Str(s@),
        Json::Array(a) => JsonView::Array(
            Seq::new(a@.len(), |i: int| if 0 <= i < a@.len() { json_view(a@[i]) } else { JsonView::Null }),
        ),
        Json::Object(m) => JsonView::Object(
            Seq::new(
                m@.len(),
                |i: int|
                    if 0 <= i < m@.len() {
                        (m@[i].0@, json_view(m@[i].1))
                    } else {
                        (Seq::empty(), JsonView::Null)
                    },
            ),
        ),
    }
}

impl View for Json {
    type V = JsonView;

    open spec fn view(&self) -> JsonView {
        json_view(*self)
    }
}

/// The values of a sequence of JSON values.
pub open spec fn views(v: Seq<Json>) -> Seq<JsonView> {
    v.map_values(|j: Json| j@)
}

/// The value of the first member named `key`.
pub open spec fn member(entries: Seq<(Seq<char>, JsonView)>, key: Seq<char>) -> Option<JsonView>
    decreases entries.len(),
{
    if entries.len() == 0 {
        None
    } else if entries[0].0 == key {
        Some(entries[0].1)
    } else {
        member(entries.drop_first(), key)
    }
}

/// The value under `key` when `v` is an object that has one.
pub open spec fn json_get(v: JsonView, key: Seq<char>) -> Option<JsonView> {
    match v {
        JsonView::Object(entries) => member(entries, key),
        _ => None,
    }
}

/// The text of a JSON string.
pub open spec fn json_str(v: Option<JsonView>) -> Option<Seq<char>> {
    match v {
        Some(JsonView::Str(s)) => Some(s),
        _ => None,
    }
}

/// The value of a JSON number as an unsigned 64-bit integer.
pub open spec fn json_u64(v: Option<JsonView>) -> Option<u64> {
    match v {
        Some(JsonView::Number(n)) => n,
        _ => None,
    }
}

/// The value of a JSON boolean.
pub open spec fn json_bool(v: Option<JsonView>) -> Option<bool> {
    match v {
        Some(JsonView::Bool(b)) => Some(b),
        _ => None,
    }
}

/// The elements of a JSON array.
pub open spec fn json_array(v: Option<JsonView>) -> Option<Seq<JsonView>> {
    match v {
        Some(JsonView::Array(a)) => Some(a),
        _ => None,
    }
}

/// The value under `key` when `v` is an object that has one.
pub fn get<'a>(v: &'a Json, key: &String) -> (r: Option<&'a Json>)
    ensures
        match r {
            Some(x) => json_get(v@, key@) == Some(x@),
            None => json_get(v@, key@) is None,
        },
{
    match v {
        Json::Object(entries) => {
            let ghost ev = match v@ {
                JsonView::Object(e) => e,
                _ => Seq::empty(),
            };
            assert(v@ == JsonView::Object(ev));
            let mut i: usize = 0;
            assert(ev.skip(0) =~= ev);
            while i < entries.len()
                invariant
                    i <= entries@.len(),
                    ev.len() == entries@.len(),
                    forall|k: int|
                        0 <= k < entries@.len() ==> #[trigger] ev[k] == (
                            entries@[k].0@,
                            entries@[k].1@,
                        ),
                    json_get(v@, key@) == member(ev, key@),
                    member(ev, key@) == member(ev.skip(i as int), key@),
                decreases entries@.len() - i,
            {
                assert(ev.skip(i as int).drop_first() =~= ev.skip(i + 1));
                assert(ev.skip(i as int)[0] == ev[i as int]);
                if entries[i].0 == *key {
                    return Some(&entries[i].1);
                }
                i = i + 1;
            }
            None
        },
        _ => None,
    }
}

/// The text of the string under `key`, when there is one.
pub fn get_str<'a>(v: &'a Json, key: &String) -> (r: Option<&'a String>)
    ensures
        match r {
            Some(s) => json_str(json_get(v@, key@)) == Some(s@),
            None => json_str(json_get(v@, key@)) is None,
        },
{
    match get(v, key) {
        Some(Json::Str(s)) => Some(s),
        _ => None,
    }
}

/// The elements of the array under `key`, when there is one.
pub fn get_array<'a>(v: &'a Json, key: &String) -> (r: Option<&'a Vec<Json>>)
    ensures
        match r {
            Some(a) => json_array(json_get(v@, key@)) == Some(views(a@)),
            None => json_array(json_get(v@, key@)) is None,
        },
{
    match get(v, key) {
        Some(Json::Array(a)) => {
            assert(views(a@) =~= Seq::new(
                a@.len(),
                |i: int| if 0 <= i < a@.len() { json_view(a@[i]) } else { JsonView::Null },
            ));
            Some(a)
        },
        _ => None,
    }
}

/// The truth value of the boolean under `key`, when there is one.
pub fn get_bool(v: &Json, key: &String) -> (r: Option<bool>)
    ensures
        r == json_bool(json_get(v@, key@)),
{
    match get(v, key) {
        Some(Json::Bool(b)) => Some(*b),
        _ => None,
    }
}

/// The unsigned value of the number under `key`, when there is one.
pub fn get_u64(v: &Json, key: &String) -> (r: Option<u64>)
    ensures
        r == json_u64(json_get(v@, key@)),
{
    match get(v, key) {
        Some(Json::Number(n)) => *n,
        _ => None,
    }
}

// ---------------------------------------------------------------------------
// Reading JSON text
// ---------------------------------------------------------------------------

#[verifier::external_type_specification]
#[verifier::external_body]
pub struct ExJsonValue(serde_json::Value);

/// What serde_json makes of `text` as a `serde_json::Value`, in the terms of
/// `Json`: the value, or the message of the error when `text` is no JSON.
pub uninterp spec fn parsed_json(text: Seq<char>) -> Result<JsonView, Seq<char>>;

/// serde_json's `from_str::<Value>`, its value converted variant for variant
/// into a `Json` (`json_of_value`) and its error shown as text. The result is
/// named `parsed_json`; the JSON grammar that serde_json accepts, and the
/// wording of its messages, are left unsaid here.
#[verifier::external_body]
pub(crate) fn parse_json(text: &str) -> (r: Result<Json, String>)
    ensures
        match r {
            Ok(j) => parsed_json(text@) == Ok::<JsonView, Seq<char>>(j@),
            Err(m) => parsed_json(text@) == Err::<JsonView, Seq<char>>(m@),
        },
{
    match serde_json::from_str::<serde_json::Value>(text) {
        Ok(v) => Ok(json_of_value(&v)),
        Err(e) => Err(e.to_string()),
    }
}

/// A `serde_json::Value` as a `Json`, variant for variant: a number by its
/// `as_u64`, an object's members in the map's order. It is the conversion
/// step of `parse_json`; nothing is promised of it on its own.
#[verifier::external_body]
fn json_of_value(v: &serde_json::Value) -> Json {
    match v {
        serde_json::Value::Null => Json::Null,
        serde_json::Value::Bool(b) => Json::Bool(*b),
        serde_json::Value::Number(n) => Json::Number(n.as_u64()),
        serde_json::Value::String(s) => Json::Str(s.clone()),
        serde_json::Value::Array(a) => Json::Array(a.iter().map(json_of_value).collect()),
        serde_json::Value::Object(m) => Json::Object(
            m.iter().map(|(k, x)| (k.clone(), json_of_value(x))).collect(),
        ),
    }
}

} // verus!
