//! JSON documents, as the store reads them.
use crate::text::same_text;
use vstd::prelude::*;
use vstd::string::*;

verus! {

broadcast use vstd::string::group_string_axioms;

/// A JSON value. Of a number it is kept whether it is a whole number that fits
/// in a `u64`, and how it is written. The keys of an object are distinct.
#[derive(Debug)]
pub enum Json {
    Null,
    Bool(bool),
    Number { value: Option<u64>, text: String },
    Text(String),
    Array(Vec<Json>),
    Object(Vec<JsonField>),
}

/// A member of a JSON object.
#[derive(Debug)]
pub struct JsonField {
    pub key: String,
    pub value: Json,
}

pub enum JsonView {
    Null,
    Bool(bool),
    Number { value: Option<u64>, text: Seq<char> },
    Text(Seq<char>),
    Array(Seq<JsonView>),
    Object(Seq<(Seq<char>, JsonView)>),
}

/// What a JSON value stands for.
pub open spec fn json_view(json: Json) -> JsonView
    decreases json,
{
    match json {
        Json::Null => JsonView::Null,
        Json::Bool(value) => JsonView::Bool(value),
        Json::Number { value, text } => JsonView::Number { value, text: text@ },
        Json::Text(text) => JsonView::Text(text@),
        Json::Array(items) => JsonView::Array(
            Seq::new(
                items@.len(),
                |i: int|
                    if 0 <= i < items@.len() {
                        json_view(items@[i])
                    } else {
                        JsonView::Null
                    },
            ),
        ),
        Json::Object(fields) => JsonView::Object(
            Seq::new(
                fields@.len(),
                |i: int|
                    if 0 <= i < fields@.len() {
                        (fields@[i].key@, json_view(fields@[i].value))
                    } else {
                        (Seq::empty(), JsonView::Null)
                    },
            ),
        ),
    }
}

impl View for Json {
    type V = JsonView;

    open spec fn view(&self) -> JsonView {
        json_view(*self)
    }
}

pub open spec fn item_views(items: Seq<Json>) -> Seq<JsonView> {
    items.map_values(|item: Json| item@)
}

pub open spec fn field_views(fields: Seq<JsonField>) -> Seq<(Seq<char>, JsonView)> {
    fields.map_values(|field: JsonField| (field.key@, field.value@))
}

pub proof fn json_array_view(items: Vec<Json>)
    ensures
        Json::Array(items)@ == JsonView::Array(item_views(items@)),
{
    assert(json_view(Json::Array(items))->Array_0 =~= item_views(items@));
}

pub proof fn json_object_view(fields: Vec<JsonField>)
    ensures
        Json::Object(fields)@ == JsonView::Object(field_views(fields@)),
{
    assert(json_view(Json::Object(fields))->Object_0 =~= field_views(fields@));
}

/// `serde_json::Value`, opaque: what it stands for is named by `value_json`.
#[verifier::external_type_specification]
#[verifier::external_body]
pub struct ExValue(serde_json::Value);

/// What a `serde_json::Value` holds.
pub uninterp spec fn value_json(value: serde_json::Value) -> JsonView;

/// What `serde_json::from_str` makes of a text: a value, or the text of its error.
pub uninterp spec fn json_document(content: Seq<char>) -> Result<JsonView, Seq<char>>;

/// One level of a `serde_json::Value`.
enum Level<'a> {
    Null,
    Bool(bool),
    Number { value: Option<u64>, text: String },
    Text(String),
    Array(&'a Vec<serde_json::Value>),
    Object(Vec<(&'a String, &'a serde_json::Value)>),
}

spec fn level_view(level: Level) -> JsonView {
    match level {
        Level::Null => JsonView::Null,
        Level::Bool(value) => JsonView::Bool(value),
        Level::Number { value, text } => JsonView::Number { value, text: text@ },
        Level::Text(text) => JsonView::Text(text@),
        Level::Array(items) => JsonView::Array(
            items@.map_values(|item: serde_json::Value| value_json(item)),
        ),
        Level::Object(fields) => JsonView::Object(
            fields@.map_values(
                |field: (&String, &serde_json::Value)| (field.0@, value_json(*field.1)),
            ),
        ),
    }
}

/// Calls `serde_json::from_str` for a `serde_json::Value`. The outcome is a
/// function of the text.
#[verifier::external_body]
fn parse_value(content: &str) -> (r: Result<serde_json::Value, String>)
    ensures
        match r {
            Ok(value) => json_document(content@) == Ok::<JsonView, Seq<char>>(value_json(value)),
            Err(message) => json_document(content@) == Err::<JsonView, Seq<char>>(message@),
        },
{
    serde_json::from_str::<serde_json::Value>(content).map_err(|error| error.to_string())
}

/// Tells the variants of a `serde_json::Value` apart and hands out what is
/// inside: of a number what `serde_json::Number::as_u64` gives and how it is
/// written, of an object its members in the order of `serde_json::Map::iter`.
#[verifier::external_body]
fn open_value<'a>(value: &'a serde_json::Value) -> (r: Level<'a>)
    ensures
        level_view(r) == value_json(*value),
{
    match value {
        serde_json::Value::Null => Level::Null,
        serde_json::Value::Bool(inner) => Level::Bool(*inner),
        serde_json::Value::Number(n) => Level::Number { value: n.as_u64(), text: n.to_string() },
        serde_json::Value::String(text) => Level::Text(text.clone()),
        serde_json::Value::Array(items) => Level::Array(items),
        serde_json::Value::Object(map) => Level::Object(map.iter().collect()),
    }
}

/// The whole of a `serde_json::Value`.
fn json_of_value(value: &serde_json::Value) -> (r: Json)
    ensures
        r@ == value_json(*value),
    decreases value_json(*value),
{
    match open_value(value) {
        Level::Null => Json::Null,
        Level::Bool(inner) => Json::Bool(inner),
        Level::Number { value, text } => Json::Number { value, text },
        Level::Text(text) => Json::Text(text),
        Level::Array(items) => {
            let mut r: Vec<Json> = Vec::new();
            let mut i: usize = 0;
            let ghost all = value_json(*value)->Array_0;
            while i < items.len()
                invariant
                    i <= items@.len(),
                    value_json(*value) == JsonView::Array(all),
                    all == items@.map_values(|item: serde_json::Value| value_json(item)),
                    item_views(r@) == all.take(i as int),
                decreases items@.len() - i,
            {
                proof {
                    assert(all[i as int] == value_json(items@[i as int]));
                    let whole = value_json(*value);
                    assert(decreases_to!(whole => whole->Array_0));
                    assert(decreases_to!(whole->Array_0 => whole->Array_0[i as int]));
                }
                let item = json_of_value(&items[i]);
                let ghost before = item_views(r@);
                r.push(item);
                proof {
                    assert(item_views(r@) =~= before.push(all[i as int]));
                    assert(all.take(i + 1) =~= all.take(i as int).push(all[i as int]));
                }
                i = i + 1;
            }
            proof {
                assert(all.take(all.len() as int) =~= all);
                json_array_view(r);
            }
            Json::Array(r)
        },
        Level::Object(fields) => {
            let mut r: Vec<JsonField> = Vec::new();
            let mut i: usize = 0;
            let ghost all = value_json(*value)->Object_0;
            while i < fields.len()
                invariant
                    i <= fields@.len(),
                    value_json(*value) == JsonView::Object(all),
                    all == fields@.map_values(
                        |field: (&String, &serde_json::Value)| (field.0@, value_json(*field.1)),
                    ),
                    field_views(r@) == all.take(i as int),
                decreases fields@.len() - i,
            {
                proof {
                    assert(all[i as int] == (fields@[i as int].0@, value_json(*fields@[i as int].1)));
                    let whole = value_json(*value);
                    assert(decreases_to!(whole => whole->Object_0));
                    assert(decreases_to!(whole->Object_0 => whole->Object_0[i as int]));
                    assert(decreases_to!(whole->Object_0[i as int] => whole->Object_0[i as int].1));
                }
                let inner = json_of_value(fields[i].1);
                let ghost before = field_views(r@);
                r.push(JsonField { key: fields[i].0.clone(), value: inner });
                proof {
                    assert(field_views(r@) =~= before.push(all[i as int]));
                    assert(all.take(i + 1) =~= all.take(i as int).push(all[i as int]));
                }
                i = i + 1;
            }
            proof {
                assert(all.take(all.len() as int) =~= all);
                json_object_view(r);
            }
            Json::Object(r)
        },
    }
}

/// Reads a JSON document; where it cannot be read, the error says why.
pub fn parse_json(content: &str) -> (r: Result<Json, String>)
    ensures
        match r {
            Ok(json) => json_document(content@) == Ok::<JsonView, Seq<char>>(json@),
            Err(message) => json_document(content@) == Err::<JsonView, Seq<char>>(message@),
        },
{
    match parse_value(content) {
        Ok(value) => Ok(json_of_value(&value)),
        Err(message) => Err(message),
    }
}

/// The first member under a key.
pub open spec fn member(fields: Seq<(Seq<char>, JsonView)>, key: Seq<char>) -> Option<JsonView>
    decreases fields.len(),
{
    if fields.len() == 0 {
        None
    } else if fields[0].0 == key {
        Some(fields[0].1)
    } else {
        member(fields.skip(1), key)
    }
}

/// Whether two values are objects with the same members, in whatever order.
pub open spec fn same_members(a: JsonView, b: JsonView) -> bool {
    a matches JsonView::Object(x) && b matches JsonView::Object(y) && forall|key: Seq<char>| #[trigger]
        member(x, key) == member(y, key)
}

pub open spec fn opt_json(value: Option<&Json>) -> Option<JsonView> {
    match value {
        Some(json) => Some(json@),
        None => None,
    }
}

/// The member of an object under a key.
pub fn get_field<'a>(fields: &'a Vec<JsonField>, key: &str) -> (r: Option<&'a Json>)
    ensures
        opt_json(r) == member(field_views(fields@), key@),
{
    let ghost all = field_views(fields@);
    let mut i: usize = 0;
    proof {
        assert(all.skip(0) =~= all);
    }
    while i < fields.len()
        invariant
            i <= fields@.len(),
            all == field_views(fields@),
            member(all.skip(i as int), key@) == member(all, key@),
        decreases fields@.len() - i,
    {
        proof {
            assert(all.skip(i as int)[0] == all[i as int]);
            assert(all.skip(i as int).skip(1) =~= all.skip(i + 1));
        }
        if same_text(fields[i].key.as_str(), key) {
            return Some(&fields[i].value);
        }
        i = i + 1;
    }
    None
}

/// A value stands for what it holds.
pub proof fn json_is_what_it_holds(value: Option<u64>, text: String, yes: bool)
    ensures
        Json::Null@ == JsonView::Null,
        Json::Bool(yes)@ == JsonView::Bool(yes),
        Json::Text(text)@ == JsonView::Text(text@),
        (Json::Number { value, text })@ == (JsonView::Number { value, text: text@ }),
{
}

} // verus!
