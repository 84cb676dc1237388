//! JSON documents, held in the `serde_json` crate's `Value`.

use serde_json::Value;
use vstd::prelude::*;

use crate::table;
use crate::text;

verus! {

/// What a JSON document says.
pub enum JsonModel {
    Null,
    Bool(bool),
    /// A number: the `i64` that it is, if it is one, and its JSON text.
    Number { int: Option<i64>, text: Seq<char> },
    Text(Seq<char>),
    Array(Seq<JsonModel>),
    /// The members of an object, in the order in which they stand in it.
    Object(Seq<(Seq<char>, JsonModel)>),
}

#[verifier::external_type_specification]
#[verifier::external_body]
pub struct ExValue(serde_json::Value);

/// What a `serde_json::Value` holds.
pub uninterp spec fn json_of(v: serde_json::Value) -> JsonModel;

/// What each of several values holds.
pub open spec fn values_of(v: Seq<Value>) -> Seq<JsonModel> {
    Seq::new(v.len(), |i: int| json_of(v[i]))
}

/// The members that stand in a list of keys and values.
pub open spec fn members_of(v: Seq<(String, Value)>) -> Seq<(Seq<char>, JsonModel)> {
    Seq::new(v.len(), |i: int| (v[i].0@, json_of(v[i].1)))
}

/// The members that stand in a list of borrowed keys and values.
pub open spec fn borrowed_members<'a>(v: Seq<(&'a String, &'a Value)>) -> Seq<
    (Seq<char>, JsonModel),
> {
    Seq::new(v.len(), |i: int| (v[i].0@, json_of(*v[i].1)))
}

/// `Value::clone` gives the same document again.
pub assume_specification[ <serde_json::Value as Clone>::clone ](v: &serde_json::Value) -> (r:
    serde_json::Value)
    ensures
        r == *v,
;

/// A JSON document, opened by one level.
pub enum JsonRef<'a> {
    Null,
    Bool(bool),
    /// The `i64` that the number is, if it is one.
    Number(Option<i64>),
    Text(&'a String),
    Array(&'a Vec<Value>),
    Object(Vec<(&'a String, &'a Value)>),
}

/// Opens a `serde_json::Value` by one level: which of its variants it is, with
/// `Number::as_i64` of a number and `Map::iter` over the members of an object,
/// which come in the order in which they were put in.
#[verifier::external_body]
pub(crate) fn open_value(v: &Value) -> (r: JsonRef<'_>)
    ensures
        match r {
            JsonRef::Null => json_of(*v) == JsonModel::Null,
            JsonRef::Bool(b) => json_of(*v) == JsonModel::Bool(b),
            JsonRef::Number(i) => json_of(*v) is Number && json_of(*v)->int == i,
            JsonRef::Text(s) => json_of(*v) == JsonModel::Text(s@),
            JsonRef::Array(a) => json_of(*v) == JsonModel::Array(values_of(a@)),
            JsonRef::Object(m) => json_of(*v) == JsonModel::Object(borrowed_members(m@))
                && table::distinct_keys(borrowed_members(m@)),
        },
{
    match v {
        Value::Null => JsonRef::Null,
        Value::Bool(b) => JsonRef::Bool(*b),
        Value::Number(n) => JsonRef::Number(n.as_i64()),
        Value::String(s) => JsonRef::Text(s),
        Value::Array(a) => JsonRef::Array(a),
        Value::Object(m) => JsonRef::Object(m.iter().collect()),
    }
}

/// The parts that a JSON document is made of.
pub enum JsonParts {
    Null,
    Bool(bool),
    Integer(i64),
    Text(String),
    Array(Vec<Value>),
    Object(Vec<(String, Value)>),
}

/// Builds a `serde_json::Value`: its variants by their constructors, an integer
/// by `Value::from`, the members of an object by `Map::from_iter`, which keeps
/// the order in which they come.
#[verifier::external_body]
pub(crate) fn make_value(parts: JsonParts) -> (r: Value)
    requires
        parts matches JsonParts::Object(m) ==> table::distinct_keys(members_of(m@)),
    ensures
        match parts {
            JsonParts::Null => json_of(r) == JsonModel::Null,
            JsonParts::Bool(b) => json_of(r) == JsonModel::Bool(b),
            JsonParts::Integer(i) => json_of(r) == integer_model(i),
            JsonParts::Text(s) => json_of(r) == JsonModel::Text(s@),
            JsonParts::Array(a) => json_of(r) == JsonModel::Array(values_of(a@)),
            JsonParts::Object(m) => json_of(r) == JsonModel::Object(members_of(m@)),
        },
{
    match parts {
        JsonParts::Null => Value::Null,
        JsonParts::Bool(b) => Value::Bool(b),
        JsonParts::Integer(i) => Value::from(i),
        JsonParts::Text(s) => Value::String(s),
        JsonParts::Array(a) => Value::Array(a),
        JsonParts::Object(m) => Value::Object(m.into_iter().collect()),
    }
}

/// The JSON number that an integer is.
pub open spec fn integer_model(i: i64) -> JsonModel {
    JsonModel::Number { int: Some(i), text: text::signed_decimal(i as int) }
}

/// What `serde_json::from_str` reads from a text: a document, or `None` where
/// the text is not JSON.
pub uninterp spec fn json_parse(text: Seq<char>) -> Option<JsonModel>;

/// `serde_json::from_str`, into a `Value`. What it reads from a text is named;
/// the reason for a refusal is dropped.
#[verifier::external_body]
pub(crate) fn parse_value(text: &str) -> (r: Option<Value>)
    ensures
        match r {
            Some(v) => json_parse(text@) == Some(json_of(v)),
            None => json_parse(text@) is None,
        },
{
    serde_json::from_str(text).ok()
}

/// The compact text in which `serde_json` writes a document.
pub uninterp spec fn json_text(v: JsonModel) -> Seq<char>;

/// `Value::to_string`: the compact JSON text of a document, named after what
/// the document holds.
#[verifier::external_body]
pub(crate) fn value_text(v: &Value) -> (r: String)
    ensures
        r@ == json_text(json_of(*v)),
{
    v.to_string()
}

// ---- Reading ----

/// The member of a document with a key; `None` when it is no object.
pub open spec fn field(v: JsonModel, key: Seq<char>) -> Option<JsonModel> {
    match v {
        JsonModel::Object(members) => table::lookup(members, key),
        _ => None,
    }
}

/// The text that a document is, if it is one.
pub open spec fn text_in(v: JsonModel) -> Option<Seq<char>> {
    match v {
        JsonModel::Text(s) => Some(s),
        _ => None,
    }
}

/// The text in a member of a document, if it has that member and it is a text.
pub open spec fn text_field(v: JsonModel, key: Seq<char>) -> Option<Seq<char>> {
    match field(v, key) {
        Some(f) => text_in(f),
        None => None,
    }
}

/// Whether a document is an object.
pub fn is_object(v: &Value) -> (r: bool)
    ensures
        r == (json_of(*v) is Object),
{
    match open_value(v) {
        JsonRef::Object(_) => true,
        _ => false,
    }
}

/// Whether a document is `null`.
pub fn is_null(v: &Value) -> (r: bool)
    ensures
        r == (json_of(*v) is Null),
{
    match open_value(v) {
        JsonRef::Null => true,
        _ => false,
    }
}

/// The text that a document is, if it is one.
pub fn as_text(v: &Value) -> (r: Option<&String>)
    ensures
        match r {
            Some(s) => text_in(json_of(*v)) == Some(s@),
            None => text_in(json_of(*v)) is None,
        },
{
    match open_value(v) {
        JsonRef::Text(s) => Some(s),
        _ => None,
    }
}

/// The elements of a document that is an array.
pub fn as_array(v: &Value) -> (r: Option<&Vec<Value>>)
    ensures
        match r {
            Some(a) => json_of(*v) == JsonModel::Array(values_of(a@)),
            None => !(json_of(*v) is Array),
        },
{
    match open_value(v) {
        JsonRef::Array(a) => Some(a),
        _ => None,
    }
}

/// The member of a document with a key.
pub fn get<'a>(v: &'a Value, key: &str) -> (r: Option<&'a Value>)
    ensures
        match r {
            Some(f) => field(json_of(*v), key@) == Some(json_of(*f)),
            None => field(json_of(*v), key@) is None,
        },
{
    let members = match open_value(v) {
        JsonRef::Object(m) => m,
        _ => {
            return None;
        },
    };
    let ghost all = borrowed_members(members@);
    let mut i: usize = 0;
    proof {
        assert(all.skip(0) =~= all);
    }
    while i < members.len()
        invariant
            i <= members@.len(),
            all == borrowed_members(members@),
            json_of(*v) == JsonModel::Object(all),
            table::lookup(all, key@) == table::lookup(all.skip(i as int), key@),
        decreases members@.len() - i,
    {
        proof {
            assert(all.skip(i as int).skip(1) =~= all.skip(i + 1));
            assert(all.skip(i as int)[0] == all[i as int]);
        }
        if text::same_text(members[i].0.as_str(), key) {
            return Some(members[i].1);
        }
        i += 1;
    }
    None
}

/// The text in a member of a document.
pub fn get_text<'a>(v: &'a Value, key: &str) -> (r: Option<&'a String>)
    ensures
        match r {
            Some(s) => text_field(json_of(*v), key@) == Some(s@),
            None => text_field(json_of(*v), key@) is None,
        },
{
    match get(v, key) {
        Some(f) => as_text(f),
        None => None,
    }
}

// ---- Building ----

/// The document that is a text.
pub fn text_value(s: String) -> (r: Value)
    ensures
        json_of(r) == JsonModel::Text(s@),
{
    make_value(JsonParts::Text(s))
}

/// The document that is `null`.
pub fn null_value() -> (r: Value)
    ensures
        json_of(r) == JsonModel::Null,
{
    make_value(JsonParts::Null)
}

/// The object with one member.
pub open spec fn single(key: Seq<char>, v: JsonModel) -> JsonModel {
    JsonModel::Object(seq![(key, v)])
}

/// The object with one member.
pub fn single_member(key: &str, v: Value) -> (r: Value)
    ensures
        json_of(r) == single(key@, json_of(v)),
{
    let mut members: Vec<(String, Value)> = Vec::new();
    members.push((key.to_owned(), v));
    proof {
        assert(members_of(members@) =~= seq![(key@, json_of(v))]);
    }
    make_value(JsonParts::Object(members))
}

/// Of a document, a field is the value of the first member under its key, and only
/// an object has fields.
pub proof fn fields_are_members(members: Seq<(Seq<char>, JsonModel)>, i: int, v: JsonModel)
    requires
        0 <= i < members.len(),
        forall|j: int| 0 <= j < i ==> (#[trigger] members[j]).0 != members[i].0,
    ensures
        field(JsonModel::Object(members), members[i].0) == Some(members[i].1),
        members[i].1 is Text ==> text_field(JsonModel::Object(members), members[i].0) == Some(
            members[i].1->Text_0,
        ),
        !(members[i].1 is Text) ==> text_field(JsonModel::Object(members), members[i].0) is None,
        !(v is Object) ==> field(v, members[i].0) is None && text_field(v, members[i].0) is None,
{
    table::first_entry_is_found(members, i);
}

/// A document of one member has just that.
pub proof fn single_members_are_found(key: Seq<char>, v: JsonModel, other: Seq<char>)
    ensures
        field(single(key, v), key) == Some(v),
        other != key ==> field(single(key, v), other) is None,
{
    let m = seq![(key, v)];
    assert(m.skip(1) =~= seq![]);
    assert(table::lookup(m.skip(1), other) is None);
}

} // verus!
