//! Values of Lua, and JSON documents.

use serde_json::Value;
use vstd::prelude::*;
use vstd::string::StrSliceExecFns;

use crate::error::{Error, ErrorModel};
use crate::json;
use crate::json::{JsonModel, JsonParts, JsonRef};
use crate::table;
use crate::text;

verus! {

/// A number of Lua that is no integer: its JSON form, which is `null` where it has
/// none, and its decimal text.
#[derive(Debug)]
pub struct LuaNumber {
    pub json: Value,
    pub text: String,
}

/// A value of Lua.
#[derive(Debug)]
pub enum LuaValue {
    Nil,
    Boolean(bool),
    Integer(i64),
    Number(LuaNumber),
    /// A text, in bytes.
    Text(Vec<u8>),
    /// A table: its keys, each of which occurs once, and the values under them.
    Table(Vec<(LuaValue, LuaValue)>),
    /// A function, a thread or another value that only Lua knows; what it is called.
    Other(String),
}

/// A value of Lua.
pub enum LuaModel {
    Nil,
    Boolean(bool),
    Integer(i64),
    Number { json: JsonModel, text: Seq<char> },
    Text(Seq<u8>),
    Table(Seq<(LuaModel, LuaModel)>),
    Other(Seq<char>),
}

/// What a value of Lua is.
pub open spec fn lua_of(v: LuaValue) -> LuaModel
    decreases v,
{
    match v {
        LuaValue::Nil => LuaModel::Nil,
        LuaValue::Boolean(b) => LuaModel::Boolean(b),
        LuaValue::Integer(i) => LuaModel::Integer(i),
        LuaValue::Number(n) => LuaModel::Number { json: json::json_of(n.json), text: n.text@ },
        LuaValue::Text(bytes) => LuaModel::Text(bytes@),
        LuaValue::Table(pairs) => LuaModel::Table(
            Seq::new(
                pairs@.len(),
                |i: int|
                    if 0 <= i < pairs@.len() {
                        (lua_of(pairs@[i].0), lua_of(pairs@[i].1))
                    } else {
                        arbitrary()
                    },
            ),
        ),
        LuaValue::Other(name) => LuaModel::Other(name@),
    }
}

/// The entries of a table.
pub open spec fn pairs_of(pairs: Seq<(LuaValue, LuaValue)>) -> Seq<(LuaModel, LuaModel)> {
    Seq::new(pairs.len(), |i: int| (lua_of(pairs[i].0), lua_of(pairs[i].1)))
}

impl View for LuaValue {
    type V = LuaModel;

    open spec fn view(&self) -> LuaModel {
        lua_of(*self)
    }
}

/// A table holds the entries that it is made of.
proof fn table_view(v: LuaValue)
    requires
        v is Table,
    ensures
        lua_of(v) == LuaModel::Table(pairs_of(v->Table_0@)),
{
    assert(lua_of(v)->Table_0 =~= pairs_of(v->Table_0@));
}

// ---- Text and numbers ----

/// The text that `String::from_utf8_lossy` makes of bytes that are not UTF-8.
pub uninterp spec fn lossy_text(bytes: Seq<u8>) -> Seq<char>;

/// `String::from_utf8_lossy`. Bytes that are UTF-8 are the text that they encode;
/// what it makes of others is named.
#[verifier::external_body]
fn decode_lossy(bytes: &Vec<u8>) -> (r: String)
    ensures
        vstd::utf8::valid_utf8(bytes@) ==> r@ == vstd::utf8::decode_utf8(bytes@),
        !vstd::utf8::valid_utf8(bytes@) ==> r@ == lossy_text(bytes@),
{
    String::from_utf8_lossy(bytes).into_owned()
}

/// The text that bytes stand for.
pub open spec fn text_of(bytes: Seq<u8>) -> Seq<char> {
    if vstd::utf8::valid_utf8(bytes) {
        vstd::utf8::decode_utf8(bytes)
    } else {
        lossy_text(bytes)
    }
}

/// The double that a JSON number is taken for: its JSON form and its decimal text.
pub uninterp spec fn double_of(v: JsonModel) -> (JsonModel, Seq<char>);

/// `Value::as_f64`, with the double as `Value::from` and `to_string` write it. There
/// is a double for every number; which one it is, is named.
#[verifier::external_body]
fn number_as_double(v: &Value) -> (r: Option<LuaNumber>)
    ensures
        match r {
            Some(n) => json::json_of(*v) is Number && (json::json_of(n.json), n.text@) == double_of(
                json::json_of(*v),
            ),
            None => !(json::json_of(*v) is Number),
        },
{
    v.as_f64().map(|f| LuaNumber { json: Value::from(f), text: f.to_string() })
}

// ---- From JSON to Lua ----

/// The value of Lua for a document. What is `null` is `nil`, and so is not there as
/// the value of a key.
pub open spec fn to_lua(v: JsonModel) -> LuaModel
    decreases v, 0nat,
{
    match v {
        JsonModel::Null => LuaModel::Nil,
        JsonModel::Bool(b) => LuaModel::Boolean(b),
        JsonModel::Number { int: whole, .. } => match whole {
            Some(i) => LuaModel::Integer(i),
            None => LuaModel::Number { json: double_of(v).0, text: double_of(v).1 },
        },
        JsonModel::Text(t) => LuaModel::Text(vstd::utf8::encode_utf8(t)),
        JsonModel::Array(a) => LuaModel::Table(element_pairs(a, a.len())),
        JsonModel::Object(m) => LuaModel::Table(member_pairs(m, m.len())),
    }
}

/// The entries for the first `n` elements of an array, under 1, 2 and so on.
pub open spec fn element_pairs(a: Seq<JsonModel>, n: nat) -> Seq<(LuaModel, LuaModel)>
    decreases a, n,
{
    if n == 0 || n > a.len() {
        seq![]
    } else {
        let before = element_pairs(a, (n - 1) as nat);
        let value = to_lua(a[n - 1]);
        if value is Nil {
            before
        } else {
            before.push((LuaModel::Integer(n as i64), value))
        }
    }
}

/// The entries for the first `n` members of an object, under their keys.
pub open spec fn member_pairs(m: Seq<(Seq<char>, JsonModel)>, n: nat) -> Seq<(LuaModel, LuaModel)>
    decreases m, n,
{
    if n == 0 || n > m.len() {
        seq![]
    } else {
        let before = member_pairs(m, (n - 1) as nat);
        let value = to_lua(m[n - 1].1);
        if value is Nil {
            before
        } else {
            before.push((LuaModel::Text(vstd::utf8::encode_utf8(m[n - 1].0)), value))
        }
    }
}

/// Appends an entry, unless its value is `nil`.
fn set_pair(pairs: &mut Vec<(LuaValue, LuaValue)>, key: LuaValue, value: LuaValue)
    ensures
        pairs_of(final(pairs)@) == (if value@ is Nil {
            pairs_of(old(pairs)@)
        } else {
            pairs_of(old(pairs)@).push((key@, value@))
        }),
{
    let ghost before = pairs@;
    match value {
        LuaValue::Nil => {},
        _ => {
            pairs.push((key, value));
            proof {
                assert(pairs_of(pairs@) =~= pairs_of(before).push((key@, value@)));
            }
        },
    }
}

/// The value of Lua for a document.
pub fn json_to_lua(value: &Value) -> (r: LuaValue)
    ensures
        r@ == to_lua(json::json_of(*value)),
    decreases json::json_of(*value),
{
    match json::open_value(value) {
        JsonRef::Null => LuaValue::Nil,
        JsonRef::Bool(b) => LuaValue::Boolean(b),
        JsonRef::Number(whole) => match whole {
            Some(i) => LuaValue::Integer(i),
            None => match number_as_double(value) {
                Some(n) => LuaValue::Number(n),
                None => LuaValue::Nil,
            },
        },
        JsonRef::Text(s) => LuaValue::Text(s.as_str().as_bytes_vec()),
        JsonRef::Array(a) => {
            let mut pairs: Vec<(LuaValue, LuaValue)> = Vec::new();
            let ghost all = json::values_of(a@);
            let mut i: usize = 0;
            proof {
                assert(pairs_of(pairs@) =~= seq![]);
            }
            while i < a.len()
                invariant
                    i <= a@.len(),
                    a@.len() == a.len(),
                    all == json::values_of(a@),
                    json::json_of(*value) == JsonModel::Array(all),
                    pairs_of(pairs@) == element_pairs(all, i as nat),
                decreases a@.len() - i,
            {
                proof {
                    assert(all[i as int] == json::json_of(a@[i as int]));
                    assert(decreases_to!(
                        json::json_of(*value) => json::json_of(*value)->Array_0[i as int]
                    ));
                }
                let item = json_to_lua(&a[i]);
                set_pair(&mut pairs, LuaValue::Integer((i + 1) as i64), item);
                i += 1;
            }
            let r = LuaValue::Table(pairs);
            proof {
                table_view(r);
            }
            r
        },
        JsonRef::Object(m) => {
            let mut pairs: Vec<(LuaValue, LuaValue)> = Vec::new();
            let ghost all = json::borrowed_members(m@);
            let mut i: usize = 0;
            proof {
                assert(pairs_of(pairs@) =~= seq![]);
            }
            while i < m.len()
                invariant
                    i <= m@.len(),
                    m@.len() == m.len(),
                    all == json::borrowed_members(m@),
                    json::json_of(*value) == JsonModel::Object(all),
                    pairs_of(pairs@) == member_pairs(all, i as nat),
                decreases m@.len() - i,
            {
                let (k, v) = m[i];
                proof {
                    assert(all[i as int] == (k@, json::json_of(*v)));
                    assert(decreases_to!(
                        json::json_of(*value) => json::json_of(*value)->Object_0[i as int].1
                    ));
                }
                let item = json_to_lua(v);
                set_pair(&mut pairs, LuaValue::Text(k.as_str().as_bytes_vec()), item);
                i += 1;
            }
            let r = LuaValue::Table(pairs);
            proof {
                table_view(r);
            }
            r
        },
    }
}

// ---- From Lua to JSON ----

/// The key `k` stands in a table.
pub open spec fn has_key(pairs: Seq<(LuaModel, LuaModel)>, k: int) -> bool {
    exists|i: int| is_key_at(pairs, k, i)
}

/// The key `k` stands at a place of a table.
pub open spec fn is_key_at(pairs: Seq<(LuaModel, LuaModel)>, k: int, i: int) -> bool {
    0 <= i < pairs.len() && pairs[i].0 is Integer && pairs[i].0->Integer_0 == k
}

/// The first place of the key `k` in a table.
pub open spec fn key_place(pairs: Seq<(LuaModel, LuaModel)>, k: int) -> int
    decreases pairs.len(),
{
    if pairs.len() == 0 {
        0
    } else if pairs[0].0 is Integer && pairs[0].0->Integer_0 == k {
        0
    } else {
        1 + key_place(pairs.skip(1), k)
    }
}

/// A table is a list: its keys are the integers from 1 up to their number.
pub open spec fn is_list(pairs: Seq<(LuaModel, LuaModel)>) -> bool {
    &&& pairs.len() > 0
    &&& forall|k: int| 1 <= k <= pairs.len() ==> #[trigger] has_key(pairs, k)
}

/// What a value of Lua is called.
pub open spec fn called(v: LuaModel) -> Seq<char> {
    match v {
        LuaModel::Nil => "nil"@,
        LuaModel::Boolean(_) => "boolean"@,
        LuaModel::Integer(_) => "integer"@,
        LuaModel::Number { .. } => "number"@,
        LuaModel::Text(_) => "string"@,
        LuaModel::Table(_) => "table"@,
        LuaModel::Other(name) => name,
    }
}

/// The key of a JSON object for the key of a table.
pub open spec fn key_text(k: LuaModel) -> Result<Seq<char>, ErrorModel> {
    match k {
        LuaModel::Text(bytes) => Ok(text_of(bytes)),
        LuaModel::Integer(i) => Ok(text::signed_decimal(i as int)),
        LuaModel::Number { text, .. } => Ok(text),
        other => Err(ErrorModel::LuaKey { found: called(other) }),
    }
}

/// The document for a value of Lua. A table that is a list is an array; any other,
/// and the empty one, is an object.
pub open spec fn to_json(v: LuaModel) -> Result<JsonModel, ErrorModel>
    decreases v, 0nat,
{
    match v {
        LuaModel::Nil => Ok(JsonModel::Null),
        LuaModel::Boolean(b) => Ok(JsonModel::Bool(b)),
        LuaModel::Integer(i) => Ok(json::integer_model(i)),
        LuaModel::Number { json, .. } => Ok(json),
        LuaModel::Text(bytes) => Ok(JsonModel::Text(text_of(bytes))),
        LuaModel::Table(pairs) => if is_list(pairs) {
            match list_elements(pairs, pairs.len()) {
                Ok(a) => Ok(JsonModel::Array(a)),
                Err(e) => Err(e),
            }
        } else {
            match table_members(pairs, pairs.len()) {
                Ok(m) => Ok(JsonModel::Object(m)),
                Err(e) => Err(e),
            }
        },
        LuaModel::Other(name) => Err(ErrorModel::LuaValue { found: name }),
    }
}

/// The documents under 1 to `n` of a table that is a list.
pub open spec fn list_elements(pairs: Seq<(LuaModel, LuaModel)>, n: nat) -> Result<
    Seq<JsonModel>,
    ErrorModel,
>
    decreases pairs, n,
{
    if n == 0 {
        Ok(seq![])
    } else {
        match list_elements(pairs, (n - 1) as nat) {
            Err(e) => Err(e),
            Ok(before) => {
                let i = key_place(pairs, n as int);
                if 0 <= i < pairs.len() {
                    match to_json(pairs[i].1) {
                        Ok(v) => Ok(before.push(v)),
                        Err(e) => Err(e),
                    }
                } else {
                    Ok(before)
                }
            },
        }
    }
}

/// The members for the first `n` entries of a table; of two with the same key, the
/// later counts.
pub open spec fn table_members(pairs: Seq<(LuaModel, LuaModel)>, n: nat) -> Result<
    Seq<(Seq<char>, JsonModel)>,
    ErrorModel,
>
    decreases pairs, n,
{
    if n == 0 || n > pairs.len() {
        Ok(seq![])
    } else {
        match table_members(pairs, (n - 1) as nat) {
            Err(e) => Err(e),
            Ok(before) => match key_text(pairs[n - 1].0) {
                Err(e) => Err(e),
                Ok(key) => match to_json(pairs[n - 1].1) {
                    Ok(v) => Ok(table::put(before, key, v)),
                    Err(e) => Err(e),
                },
            },
        }
    }
}

/// The result of a conversion.
pub open spec fn converted(r: Result<Value, Error>) -> Result<JsonModel, ErrorModel> {
    match r {
        Ok(v) => Ok(json::json_of(v)),
        Err(e) => Err(e@),
    }
}

/// A key of a table is found at its first place.
proof fn key_place_is_first(pairs: Seq<(LuaModel, LuaModel)>, k: int)
    ensures
        has_key(pairs, k) ==> is_key_at(pairs, k, key_place(pairs, k)),
        !has_key(pairs, k) ==> key_place(pairs, k) == pairs.len(),
        0 <= key_place(pairs, k) <= pairs.len(),
    decreases pairs.len(),
{
    if pairs.len() > 0 {
        let rest = pairs.skip(1);
        key_place_is_first(rest, k);
        if is_key_at(pairs, k, 0) {
            assert(key_place(pairs, k) == 0);
        } else {
            if has_key(pairs, k) {
                let i = choose|i: int| is_key_at(pairs, k, i);
                assert(is_key_at(rest, k, i - 1));
                let p = key_place(rest, k);
                assert(is_key_at(rest, k, p));
                assert(rest[p] == pairs[p + 1]);
            } else if has_key(rest, k) {
                let i = choose|i: int| is_key_at(rest, k, i);
                assert(is_key_at(pairs, k, i + 1));
            }
        }
    }
}

/// The first place of an integer among the keys of a table.
fn find_key(pairs: &Vec<(LuaValue, LuaValue)>, k: i64) -> (r: usize)
    ensures
        r == key_place(pairs_of(pairs@), k as int),
        0 <= r <= pairs@.len(),
        r < pairs@.len() <==> has_key(pairs_of(pairs@), k as int),
{
    let ghost all = pairs_of(pairs@);
    let mut i: usize = 0;
    proof {
        assert(all.skip(0) =~= all);
        key_place_is_first(all, k as int);
    }
    while i < pairs.len()
        invariant
            i <= pairs@.len(),
            all == pairs_of(pairs@),
            key_place(all, k as int) == i + key_place(all.skip(i as int), k as int),
            has_key(all, k as int) ==> is_key_at(all, k as int, key_place(all, k as int)),
            !has_key(all, k as int) ==> key_place(all, k as int) == all.len(),
        decreases pairs@.len() - i,
    {
        proof {
            assert(all.skip(i as int)[0] == all[i as int]);
            assert(all.skip(i as int).skip(1) =~= all.skip(i + 1));
            assert(all[i as int].0 == pairs@[i as int].0@);
        }
        if let LuaValue::Integer(other) = &pairs[i].0 {
            if *other == k {
                return i;
            }
        }
        i += 1;
    }
    proof {
        assert(all.skip(i as int) =~= Seq::<(LuaModel, LuaModel)>::empty());
    }
    i
}

/// Whether a table is a list.
fn is_list_table(pairs: &Vec<(LuaValue, LuaValue)>) -> (r: bool)
    ensures
        r == is_list(pairs_of(pairs@)),
        r ==> pairs@.len() <= i64::MAX,
{
    let ghost all = pairs_of(pairs@);
    let n: usize = pairs.len();
    if n == 0 {
        return false;
    }
    if n as u64 > 0x7fff_ffff_ffff_ffffu64 {
        proof {
            let k = n as int;
            if has_key(all, k) {
                let i = choose|i: int| is_key_at(all, k, i);
                assert(all[i].0->Integer_0 <= i64::MAX);
            }
            assert(!has_key(all, k));
        }
        return false;
    }
    let mut k: usize = 0;
    while k < n
        invariant
            k <= n,
            n == pairs@.len(),
            n <= i64::MAX,
            all == pairs_of(pairs@),
            forall|j: int| 1 <= j <= k ==> #[trigger] has_key(all, j),
        decreases n - k,
    {
        if find_key(pairs, k as i64 + 1) >= n {
            proof {
                assert(!has_key(all, k + 1));
            }
            return false;
        }
        k += 1;
    }
    true
}

/// What a value of Lua is called.
fn name_of(v: &LuaValue) -> (r: String)
    ensures
        r@ == called(v@),
{
    match v {
        LuaValue::Nil => "nil".to_owned(),
        LuaValue::Boolean(_) => "boolean".to_owned(),
        LuaValue::Integer(_) => "integer".to_owned(),
        LuaValue::Number(_) => "number".to_owned(),
        LuaValue::Text(_) => "string".to_owned(),
        LuaValue::Table(_) => "table".to_owned(),
        LuaValue::Other(name) => name.clone(),
    }
}

/// The key of a JSON object for the key of a table.
fn object_key(k: &LuaValue) -> (r: Result<String, Error>)
    ensures
        match r {
            Ok(t) => key_text(k@) == Ok::<Seq<char>, ErrorModel>(t@),
            Err(e) => key_text(k@) == Err::<Seq<char>, ErrorModel>(e@),
        },
{
    match k {
        LuaValue::Text(bytes) => Ok(decode_lossy(bytes)),
        LuaValue::Integer(i) => Ok(text::integer_text(*i)),
        LuaValue::Number(n) => Ok(n.text.clone()),
        other => Err(Error::LuaKey { found: name_of(other) }),
    }
}

/// The text that a key of a table is, if it is one.
pub(crate) fn key_name(k: &LuaValue) -> (r: Option<String>)
    ensures
        text::optional(r) == (match k@ {
            LuaModel::Text(bytes) => Some(text_of(bytes)),
            _ => None,
        }),
{
    match k {
        LuaValue::Text(bytes) => Some(decode_lossy(bytes)),
        _ => None,
    }
}

/// Puts a member into a list of members.
fn put_member(members: &mut Vec<(String, Value)>, key: String, value: Value)
    requires
        table::distinct_keys(json::members_of(old(members)@)),
    ensures
        json::members_of(final(members)@) == table::put(
            json::members_of(old(members)@),
            key@,
            json::json_of(value),
        ),
        table::distinct_keys(json::members_of(final(members)@)),
{
    let ghost before = json::members_of(members@);
    proof {
        table::put_keeps_distinct(before, key@, json::json_of(value));
    }
    let mut i: usize = 0;
    while i < members.len()
        invariant
            i <= members@.len(),
            members@ == old(members)@,
            before == json::members_of(members@),
            forall|j: int| 0 <= j < i ==> (#[trigger] before[j]).0 != key@,
            table::distinct_keys(table::put(before, key@, json::json_of(value))),
        decreases members@.len() - i,
    {
        if text::same_text(members[i].0.as_str(), key.as_str()) {
            proof {
                assert(before[i as int].0 == key@);
                table::put_at(before, i as int, json::json_of(value));
            }
            members[i] = (key, value);
            proof {
                assert(json::members_of(members@) =~= before.update(
                    i as int,
                    (key@, json::json_of(value)),
                ));
            }
            return ;
        }
        i += 1;
    }
    proof {
        table::put_new(before, key@, json::json_of(value));
    }
    members.push((key, value));
    proof {
        assert(json::members_of(members@) =~= before.push((key@, json::json_of(value))));
    }
}

/// The document for a value of Lua.
pub fn lua_to_json(value: &LuaValue) -> (r: Result<Value, Error>)
    ensures
        converted(r) == to_json(value@),
    decreases value,
{
    match value {
        LuaValue::Nil => Ok(json::null_value()),
        LuaValue::Boolean(b) => Ok(json::make_value(JsonParts::Bool(*b))),
        LuaValue::Integer(i) => Ok(json::make_value(JsonParts::Integer(*i))),
        LuaValue::Number(n) => Ok(n.json.clone()),
        LuaValue::Text(bytes) => Ok(json::text_value(decode_lossy(bytes))),
        LuaValue::Table(pairs) => {
            proof {
                table_view(*value);
            }
            lua_table_to_json(pairs)
        },
        LuaValue::Other(name) => Err(Error::LuaValue { found: name.clone() }),
    }
}

/// The document for a table of Lua.
fn lua_table_to_json(pairs: &Vec<(LuaValue, LuaValue)>) -> (r: Result<Value, Error>)
    ensures
        converted(r) == to_json(LuaModel::Table(pairs_of(pairs@))),
    decreases pairs,
{
    let ghost all = pairs_of(pairs@);
    if is_list_table(pairs) {
        let mut items: Vec<Value> = Vec::new();
        let mut k: usize = 0;
        proof {
            assert(json::values_of(items@) =~= seq![]);
        }
        while k < pairs.len()
            invariant
                k <= pairs@.len(),
                pairs@.len() <= i64::MAX,
                all == pairs_of(pairs@),
                is_list(all),
                list_elements(all, k as nat) == Ok::<Seq<JsonModel>, ErrorModel>(
                    json::values_of(items@),
                ),
            decreases pairs@.len() - k,
        {
            proof {
                assert(has_key(all, k + 1));
            }
            let i: usize = find_key(pairs, k as i64 + 1);
            proof {
                assert(decreases_to!(pairs => pairs@[i as int].1));
                assert(all[i as int].1 == pairs@[i as int].1@);
            }
            let v = match lua_to_json(&pairs[i].1) {
                Ok(v) => v,
                Err(e) => {
                    proof {
                        list_error(all, (k + 1) as nat, e@);
                    }
                    return Err(e);
                },
            };
            let ghost before = items@;
            items.push(v);
            proof {
                assert(json::values_of(items@) =~= json::values_of(before).push(json::json_of(v)));
            }
            k += 1;
        }
        Ok(json::make_value(JsonParts::Array(items)))
    } else {
        let mut members: Vec<(String, Value)> = Vec::new();
        let mut i: usize = 0;
        proof {
            assert(json::members_of(members@) =~= seq![]);
        }
        while i < pairs.len()
            invariant
                i <= pairs@.len(),
                all == pairs_of(pairs@),
                !is_list(all),
                table::distinct_keys(json::members_of(members@)),
                table_members(all, i as nat) == Ok::<Seq<(Seq<char>, JsonModel)>, ErrorModel>(
                    json::members_of(members@),
                ),
            decreases pairs@.len() - i,
        {
            proof {
                assert(decreases_to!(pairs => pairs@[i as int].1));
                assert(all[i as int] == (pairs@[i as int].0@, pairs@[i as int].1@));
            }
            let key = match object_key(&pairs[i].0) {
                Ok(t) => t,
                Err(e) => {
                    proof {
                        table_error(all, (i + 1) as nat, e@);
                    }
                    return Err(e);
                },
            };
            let v = match lua_to_json(&pairs[i].1) {
                Ok(v) => v,
                Err(e) => {
                    proof {
                        table_error(all, (i + 1) as nat, e@);
                    }
                    return Err(e);
                },
            };
            put_member(&mut members, key, v);
            i += 1;
        }
        Ok(json::make_value(JsonParts::Object(members)))
    }
}

/// An error in the first elements of a list is that of the list.
proof fn list_error(pairs: Seq<(LuaModel, LuaModel)>, n: nat, e: ErrorModel)
    requires
        n <= pairs.len(),
        list_elements(pairs, n) == Err::<Seq<JsonModel>, ErrorModel>(e),
    ensures
        list_elements(pairs, pairs.len()) == Err::<Seq<JsonModel>, ErrorModel>(e),
    decreases pairs.len() - n,
{
    if n < pairs.len() {
        list_error(pairs, n + 1, e);
    }
}

/// An error in the first entries of a table is that of the table.
proof fn table_error(pairs: Seq<(LuaModel, LuaModel)>, n: nat, e: ErrorModel)
    requires
        n <= pairs.len(),
        table_members(pairs, n) == Err::<Seq<(Seq<char>, JsonModel)>, ErrorModel>(e),
    ensures
        table_members(pairs, pairs.len()) == Err::<Seq<(Seq<char>, JsonModel)>, ErrorModel>(e),
    decreases pairs.len() - n,
{
    if n < pairs.len() {
        table_error(pairs, n + 1, e);
    }
}

// ---- There and back ----

/// A document comes back from Lua as it went there, but for members that are
/// `null`: no array in it is empty or holds `null`, and every number in it is an
/// integer or the double that it is taken for.
pub open spec fn survives(v: JsonModel) -> bool
    decreases v,
{
    match v {
        JsonModel::Number { int: whole, .. } => match whole {
            Some(i) => v == json::integer_model(i),
            None => v == double_of(v).0,
        },
        JsonModel::Array(a) => {
            &&& 0 < a.len() <= i64::MAX
            &&& forall|i: int| 0 <= i < a.len() ==> !((#[trigger] a[i]) is Null) && survives(a[i])
        },
        JsonModel::Object(m) => {
            &&& table::distinct_keys(m)
            &&& forall|i: int| 0 <= i < m.len() ==> survives((#[trigger] m[i]).1)
        },
        _ => true,
    }
}

/// A document without the members that are `null`.
pub open spec fn pruned(v: JsonModel) -> JsonModel
    decreases v, 0nat,
{
    match v {
        JsonModel::Array(a) => JsonModel::Array(
            Seq::new(
                a.len(),
                |i: int|
                    if 0 <= i < a.len() {
                        pruned(a[i])
                    } else {
                        arbitrary()
                    },
            ),
        ),
        JsonModel::Object(m) => JsonModel::Object(pruned_members(m, m.len())),
        other => other,
    }
}

/// The first `n` members of an object without those that are `null`.
pub open spec fn pruned_members(m: Seq<(Seq<char>, JsonModel)>, n: nat) -> Seq<
    (Seq<char>, JsonModel),
>
    decreases m, n,
{
    if n == 0 || n > m.len() {
        seq![]
    } else {
        let before = pruned_members(m, (n - 1) as nat);
        if m[n - 1].1 is Null {
            before
        } else {
            before.push((m[n - 1].0, pruned(m[n - 1].1)))
        }
    }
}

/// A document that goes to Lua and back comes back without its members that are
/// `null`, and otherwise as it went.
pub proof fn there_and_back(v: JsonModel)
    requires
        survives(v),
    ensures
        to_json(to_lua(v)) == Ok::<JsonModel, ErrorModel>(pruned(v)),
    decreases v, 0nat,
{
    match v {
        JsonModel::Text(t) => {
            text_there_and_back(t);
        },
        JsonModel::Array(a) => {
            let pairs = element_pairs(a, a.len());
            elements_there(a, a.len());
            assert forall|k: int| 1 <= k <= pairs.len() implies #[trigger] has_key(pairs, k) by {
                assert(is_key_at(pairs, k, k - 1));
            }
            elements_back(a, a.len());
            assert(pruned(v)->Array_0 =~= pruned(v)->Array_0.take(a.len() as int));
        },
        JsonModel::Object(m) => {
            let pairs = member_pairs(m, m.len());
            members_there_and_back(m, m.len());
            if is_list(pairs) {
                assert(has_key(pairs, 1));
                let i = choose|i: int| is_key_at(pairs, 1, i);
                assert(pairs[i].0 is Text);
            }
        },
        _ => {},
    }
}

/// A text comes back from its bytes.
proof fn text_there_and_back(t: Seq<char>)
    ensures
        text_of(vstd::utf8::encode_utf8(t)) == t,
{
    vstd::utf8::encode_utf8_valid_utf8(t);
    vstd::utf8::encode_utf8_decode_utf8(t);
}

/// The entries of an array without `null`.
proof fn elements_there(a: Seq<JsonModel>, n: nat)
    requires
        n <= a.len() <= i64::MAX,
        forall|i: int| 0 <= i < a.len() ==> !((#[trigger] a[i]) is Null),
    ensures
        element_pairs(a, n).len() == n,
        forall|i: int|
            0 <= i < n ==> #[trigger] element_pairs(a, n)[i] == (
                LuaModel::Integer((i + 1) as i64),
                to_lua(a[i]),
            ),
    decreases n,
{
    if n > 0 {
        elements_there(a, (n - 1) as nat);
        assert(!(a[n - 1] is Null));
        assert(!(to_lua(a[n - 1]) is Nil));
    }
}

/// The elements of an array come back one after the other.
proof fn elements_back(a: Seq<JsonModel>, n: nat)
    requires
        n <= a.len(),
        survives(JsonModel::Array(a)),
    ensures
        list_elements(element_pairs(a, a.len()), n) == Ok::<Seq<JsonModel>, ErrorModel>(
            pruned(JsonModel::Array(a))->Array_0.take(n as int),
        ),
    decreases a, n,
{
    let pairs = element_pairs(a, a.len());
    let wanted = pruned(JsonModel::Array(a))->Array_0;
    elements_there(a, a.len());
    if n == 0 {
        assert(wanted.take(0) =~= seq![]);
    } else {
        elements_back(a, (n - 1) as nat);
        let k = n as int;
        assert(is_key_at(pairs, k, k - 1));
        assert(has_key(pairs, k));
        key_place_is_first(pairs, k);
        let i = key_place(pairs, k);
        assert(pairs[i] == (LuaModel::Integer((i + 1) as i64), to_lua(a[i])));
        assert(i == k - 1);
        there_and_back(a[k - 1]);
        assert(wanted.take(k) =~= wanted.take(k - 1).push(pruned(a[k - 1])));
    }
}

/// The keys that are left when the members that are `null` are gone stood there
/// before.
proof fn pruned_keys(m: Seq<(Seq<char>, JsonModel)>, n: nat)
    requires
        n <= m.len(),
    ensures
        forall|i: int|
            0 <= i < pruned_members(m, n).len() ==> exists|j: int|
                0 <= j < n && #[trigger] m[j].0 == (#[trigger] pruned_members(m, n)[i]).0,
    decreases n,
{
    if n > 0 {
        pruned_keys(m, (n - 1) as nat);
        let before = pruned_members(m, (n - 1) as nat);
        let after = pruned_members(m, n);
        assert forall|i: int| 0 <= i < after.len() implies exists|j: int|
            0 <= j < n && #[trigger] m[j].0 == (#[trigger] after[i]).0 by {
            if i < before.len() {
                assert(after[i] == before[i]);
                let j = choose|j: int| 0 <= j < n - 1 && #[trigger] m[j].0 == before[i].0;
                assert(m[j].0 == after[i].0);
            } else {
                assert(m[n - 1].0 == after[i].0);
            }
        }
    }
}

/// The members of an object come back one after the other.
proof fn members_there_and_back(m: Seq<(Seq<char>, JsonModel)>, n: nat)
    requires
        n <= m.len(),
        survives(JsonModel::Object(m)),
    ensures
        ({
            let pairs = member_pairs(m, n);
            &&& table_members(pairs, pairs.len()) == Ok::<
                Seq<(Seq<char>, JsonModel)>,
                ErrorModel,
            >(pruned_members(m, n))
            &&& forall|i: int| 0 <= i < pairs.len() ==> (#[trigger] pairs[i]).0 is Text
        }),
    decreases m, n,
{
    if n > 0 {
        let before = member_pairs(m, (n - 1) as nat);
        let pairs = member_pairs(m, n);
        members_there_and_back(m, (n - 1) as nat);
        let (key, v) = m[n - 1];
        if !(v is Null) {
            assert(pairs == before.push((LuaModel::Text(vstd::utf8::encode_utf8(key)), to_lua(v))));
            members_of_prefix(before, pairs.last(), before.len());
            text_there_and_back(key);
            there_and_back(v);
            pruned_keys(m, (n - 1) as nat);
            let kept = pruned_members(m, (n - 1) as nat);
            assert forall|i: int| 0 <= i < kept.len() implies (#[trigger] kept[i]).0 != key by {
                let j = choose|j: int| 0 <= j < n - 1 && #[trigger] m[j].0 == kept[i].0;
                assert(m[j].0 != m[n - 1].0);
            }
            table::put_new(kept, key, pruned(v));
        }
    }
}

/// The members for the first entries of a table do not depend on what follows.
proof fn members_of_prefix(
    pairs: Seq<(LuaModel, LuaModel)>,
    last: (LuaModel, LuaModel),
    n: nat,
)
    requires
        n <= pairs.len(),
    ensures
        table_members(pairs.push(last), n) == table_members(pairs, n),
    decreases n,
{
    if n > 0 {
        members_of_prefix(pairs, last, (n - 1) as nat);
        assert(pairs.push(last)[n - 1] == pairs[n - 1]);
    }
}

/// An empty table is an object, not an array.
pub proof fn empty_table_is_an_object()
    ensures
        to_json(LuaModel::Table(seq![])) == Ok::<JsonModel, ErrorModel>(
            JsonModel::Object(seq![]),
        ),
{
    let pairs = Seq::<(LuaModel, LuaModel)>::empty();
    assert(pairs =~= seq![]);
    assert(!is_list(pairs));
}

// ---- What values become ----

/// What is simple in a document becomes the same in Lua.
pub proof fn simple_values_become_lua(b: bool, i: i64, digits: Seq<char>, t: Seq<char>)
    ensures
        to_lua(JsonModel::Null) == LuaModel::Nil,
        to_lua(JsonModel::Bool(b)) == LuaModel::Boolean(b),
        to_lua(JsonModel::Number { int: Some(i), text: digits }) == LuaModel::Integer(i),
        to_lua(JsonModel::Text(t)) == LuaModel::Text(vstd::utf8::encode_utf8(t)),
{
}

/// What is simple in Lua becomes the same in a document; a text is read as UTF-8.
/// What has no place in a document is refused by name.
pub proof fn simple_values_become_json(b: bool, i: i64, t: Seq<char>, name: Seq<char>)
    ensures
        to_json(LuaModel::Nil) == Ok::<JsonModel, ErrorModel>(JsonModel::Null),
        to_json(LuaModel::Boolean(b)) == Ok::<JsonModel, ErrorModel>(JsonModel::Bool(b)),
        to_json(LuaModel::Integer(i)) matches Ok(v) && v is Number && v->int == Some(i),
        to_json(LuaModel::Text(vstd::utf8::encode_utf8(t))) == Ok::<JsonModel, ErrorModel>(
            JsonModel::Text(t),
        ),
        to_json(LuaModel::Other(name)) == Err::<JsonModel, ErrorModel>(
            ErrorModel::LuaValue { found: name },
        ),
{
    vstd::utf8::encode_utf8_valid_utf8(t);
    vstd::utf8::encode_utf8_decode_utf8(t);
}

/// Nothing but null becomes nil.
pub proof fn only_null_is_nil(v: JsonModel)
    ensures
        to_lua(v) is Nil <==> v is Null,
{
}

/// The elements of a list are numbered from one. One that is null leaves its number
/// out, and every number stands for its element.
pub proof fn elements_are_numbered_from_one(a: Seq<JsonModel>, i: int)
    requires
        a.len() <= i64::MAX,
    ensures
        to_lua(JsonModel::Array(a)) is Table,
        ({
            let p = to_lua(JsonModel::Array(a))->Table_0;
            &&& 0 <= i < a.len() && !(a[i] is Null) ==> p.contains(
                (LuaModel::Integer((i + 1) as i64), to_lua(a[i])),
            )
            &&& 0 <= i < p.len() ==> p[i].0 is Integer && 1 <= p[i].0->Integer_0 <= a.len()
                && !(a[p[i].0->Integer_0 - 1] is Null) && p[i].1 == to_lua(
                a[p[i].0->Integer_0 - 1],
            )
            &&& (forall|k: int| 0 <= k < a.len() ==> !((#[trigger] a[k]) is Null)) ==> p.len()
                == a.len()
        }),
{
    first_elements_are_numbered(a, a.len(), i);
}

/// What holds of the numbers of all elements holds of those of the first ones.
proof fn first_elements_are_numbered(a: Seq<JsonModel>, n: nat, i: int)
    requires
        n <= a.len() <= i64::MAX,
    ensures
        0 <= i < n && !(a[i] is Null) ==> element_pairs(a, n).contains(
            (LuaModel::Integer((i + 1) as i64), to_lua(a[i])),
        ),
        0 <= i < element_pairs(a, n).len() ==> {
            let e = element_pairs(a, n)[i];
            e.0 is Integer && 1 <= e.0->Integer_0 <= n && !(a[e.0->Integer_0 - 1] is Null) && e.1
                == to_lua(a[e.0->Integer_0 - 1])
        },
        (forall|k: int| 0 <= k < n ==> !((#[trigger] a[k]) is Null)) ==> element_pairs(a, n).len()
            == n,
    decreases n,
{
    if n > 0 {
        let before = element_pairs(a, (n - 1) as nat);
        let p = element_pairs(a, n);
        first_elements_are_numbered(a, (n - 1) as nat, i);
        only_null_is_nil(a[n - 1]);
        if forall|k: int| 0 <= k < n ==> !((#[trigger] a[k]) is Null) {
            assert(!(a[n - 1] is Null));
        }
        let wanted = (LuaModel::Integer((i + 1) as i64), to_lua(a[i]));
        if before.contains(wanted) {
            let k = choose|k: int| 0 <= k < before.len() && before[k] == wanted;
            assert(p[k] == wanted);
        }
        if i == n - 1 && !(a[i] is Null) {
            assert(p[before.len() as int] == wanted);
        }
    }
}

/// Each member of an object stands under its key; one that is null is left out, and
/// nothing else is there.
pub proof fn members_stand_under_their_keys(m: Seq<(Seq<char>, JsonModel)>, i: int)
    ensures
        to_lua(JsonModel::Object(m)) is Table,
        ({
            let p = to_lua(JsonModel::Object(m))->Table_0;
            &&& 0 <= i < m.len() && !(m[i].1 is Null) ==> p.contains(
                (LuaModel::Text(vstd::utf8::encode_utf8(m[i].0)), to_lua(m[i].1)),
            )
            &&& 0 <= i < p.len() ==> exists|k: int|
                0 <= k < m.len() && !((#[trigger] m[k]).1 is Null) && p[i] == (
                    LuaModel::Text(vstd::utf8::encode_utf8(m[k].0)),
                    to_lua(m[k].1),
                )
            &&& p.len() <= m.len()
        }),
{
    first_members_stand_under_their_keys(m, m.len(), i);
}

/// What holds of all members holds of the first ones.
proof fn first_members_stand_under_their_keys(m: Seq<(Seq<char>, JsonModel)>, n: nat, i: int)
    requires
        n <= m.len(),
    ensures
        0 <= i < n && !(m[i].1 is Null) ==> member_pairs(m, n).contains(
            (LuaModel::Text(vstd::utf8::encode_utf8(m[i].0)), to_lua(m[i].1)),
        ),
        0 <= i < member_pairs(m, n).len() ==> exists|k: int|
            0 <= k < n && !((#[trigger] m[k]).1 is Null) && member_pairs(m, n)[i] == (
                LuaModel::Text(vstd::utf8::encode_utf8(m[k].0)),
                to_lua(m[k].1),
            ),
        member_pairs(m, n).len() <= n,
    decreases n,
{
    if n > 0 {
        let before = member_pairs(m, (n - 1) as nat);
        let p = member_pairs(m, n);
        first_members_stand_under_their_keys(m, (n - 1) as nat, i);
        only_null_is_nil(m[n - 1].1);
        let wanted = (LuaModel::Text(vstd::utf8::encode_utf8(m[i].0)), to_lua(m[i].1));
        if before.contains(wanted) {
            let k = choose|k: int| 0 <= k < before.len() && before[k] == wanted;
            assert(p[k] == wanted);
        }
        if i == n - 1 && !(m[i].1 is Null) {
            assert(p[before.len() as int] == wanted);
        }
        if 0 <= i < p.len() {
            if i < before.len() {
                let k = choose|k: int|
                    0 <= k < n - 1 && !((#[trigger] m[k]).1 is Null) && before[i] == (
                        LuaModel::Text(vstd::utf8::encode_utf8(m[k].0)),
                        to_lua(m[k].1),
                    );
                assert(p[i] == before[i]);
                assert(!(m[k].1 is Null));
            } else {
                assert(!(m[n - 1].1 is Null));
            }
        }
    }
}

/// A value stands in a table under a number.
pub open spec fn stands_under_number(
    pairs: Seq<(LuaModel, LuaModel)>,
    k: int,
    value: LuaModel,
) -> bool {
    exists|i: int|
        0 <= i < pairs.len() && (#[trigger] pairs[i]).0 is Integer && pairs[i].0->Integer_0 == k
            && pairs[i].1 == value
}

/// Something stands in a table under a number.
pub open spec fn is_number_taken(pairs: Seq<(LuaModel, LuaModel)>, k: int) -> bool {
    exists|i: int|
        0 <= i < pairs.len() && (#[trigger] pairs[i]).0 is Integer && pairs[i].0->Integer_0 == k
}

/// A table becomes a list exactly where its keys are the numbers from one on, and
/// then each element is what stands under its number: `value` for the number `k`.
pub proof fn tables_numbered_from_one_become_lists(
    pairs: Seq<(LuaModel, LuaModel)>,
    v: JsonModel,
    k: int,
) -> (value: LuaModel)
    requires
        to_json(LuaModel::Table(pairs)) == Ok::<JsonModel, ErrorModel>(v),
    ensures
        v is Array || v is Object,
        v is Array <==> pairs.len() > 0 && forall|n: int|
            1 <= n <= pairs.len() ==> #[trigger] is_number_taken(pairs, n),
        v is Array ==> v->Array_0.len() == pairs.len(),
        v is Array && 1 <= k <= pairs.len() ==> stands_under_number(pairs, k, value) && to_json(
            value,
        ) == Ok::<JsonModel, ErrorModel>(v->Array_0[k - 1]),
{
    assert forall|n: int| has_key(pairs, n) == #[trigger] is_number_taken(pairs, n) by {
        if has_key(pairs, n) {
            let i = choose|i: int| is_key_at(pairs, n, i);
            assert(pairs[i].0 is Integer);
        }
        if is_number_taken(pairs, n) {
            let i = choose|i: int|
                0 <= i < pairs.len() && (#[trigger] pairs[i]).0 is Integer && pairs[i].0->Integer_0
                    == n;
            assert(is_key_at(pairs, n, i));
        }
    }
    if is_list(pairs) {
        assert forall|n: int| 1 <= n <= pairs.len() implies #[trigger] is_number_taken(
            pairs,
            n,
        ) by {
            assert(has_key(pairs, n));
        }
    }
    if pairs.len() > 0 && forall|n: int|
        1 <= n <= pairs.len() ==> #[trigger] is_number_taken(pairs, n) {
        assert forall|n: int| 1 <= n <= pairs.len() implies #[trigger] has_key(pairs, n) by {
            assert(is_number_taken(pairs, n));
        }
        assert(is_list(pairs));
    }
    if is_list(pairs) {
        first_numbers_become_elements(pairs, pairs.len(), k);
        pairs[key_place(pairs, k)].1
    } else {
        LuaModel::Nil
    }
}

/// Where a key is found it is that key.
proof fn key_place_is_the_key(pairs: Seq<(LuaModel, LuaModel)>, k: int)
    requires
        has_key(pairs, k),
    ensures
        is_key_at(pairs, k, key_place(pairs, k)),
    decreases pairs.len(),
{
    let i = choose|i: int| is_key_at(pairs, k, i);
    if !(pairs[0].0 is Integer && pairs[0].0->Integer_0 == k) {
        assert(is_key_at(pairs.skip(1), k, i - 1));
        key_place_is_the_key(pairs.skip(1), k);
        let j = key_place(pairs.skip(1), k);
        assert(pairs.skip(1)[j] == pairs[j + 1]);
    }
}

/// The first elements of a list are what stands under the first numbers.
proof fn first_numbers_become_elements(pairs: Seq<(LuaModel, LuaModel)>, n: nat, k: int)
    requires
        is_list(pairs),
        n <= pairs.len(),
        list_elements(pairs, n) is Ok,
    ensures
        list_elements(pairs, n)->Ok_0.len() == n,
        1 <= k <= n ==> {
            let value = pairs[key_place(pairs, k)].1;
            stands_under_number(pairs, k, value) && to_json(value) == Ok::<JsonModel, ErrorModel>(
                list_elements(pairs, n)->Ok_0[k - 1],
            )
        },
    decreases n,
{
    if n > 0 {
        first_numbers_become_elements(pairs, (n - 1) as nat, k);
        assert(has_key(pairs, n as int));
        key_place_is_the_key(pairs, n as int);
        let before = list_elements(pairs, (n - 1) as nat)->Ok_0;
        let all = list_elements(pairs, n)->Ok_0;
        if k == n {
            assert(pairs[key_place(pairs, k)].0 is Integer);
        } else if 1 <= k < n {
            assert(all[k - 1] == before[k - 1]);
        }
    }
}

/// Any other table becomes an object: what stands under a key stands there under the
/// text of the key, and where two keys come to one text the last counts.
pub proof fn other_tables_become_objects(
    pairs: Seq<(LuaModel, LuaModel)>,
    v: JsonModel,
    i: int,
)
    requires
        to_json(LuaModel::Table(pairs)) == Ok::<JsonModel, ErrorModel>(v),
        v is Object,
        0 <= i < pairs.len(),
    ensures
        key_text(pairs[i].0) is Ok,
        to_json(pairs[i].1) is Ok,
        (forall|j: int|
            i < j < pairs.len() ==> key_text((#[trigger] pairs[j]).0) != key_text(pairs[i].0))
            ==> table::lookup(v->Object_0, key_text(pairs[i].0)->Ok_0) == Some(
            to_json(pairs[i].1)->Ok_0,
        ),
{
    first_pairs_become_members(pairs, pairs.len(), i);
}

/// The first pairs become the first members.
proof fn first_pairs_become_members(pairs: Seq<(LuaModel, LuaModel)>, n: nat, i: int)
    requires
        0 <= i < n <= pairs.len(),
        table_members(pairs, n) is Ok,
    ensures
        key_text(pairs[i].0) is Ok,
        to_json(pairs[i].1) is Ok,
        (forall|j: int|
            i < j < n ==> key_text((#[trigger] pairs[j]).0) != key_text(pairs[i].0))
            ==> table::lookup(table_members(pairs, n)->Ok_0, key_text(pairs[i].0)->Ok_0) == Some(
            to_json(pairs[i].1)->Ok_0,
        ),
    decreases n,
{
    let before = table_members(pairs, (n - 1) as nat)->Ok_0;
    let key = key_text(pairs[n - 1].0)->Ok_0;
    let value = to_json(pairs[n - 1].1)->Ok_0;
    if i < n - 1 {
        first_pairs_become_members(pairs, (n - 1) as nat, i);
        table::lookup_after_put(before, key, value, key_text(pairs[i].0)->Ok_0);
        if forall|j: int|
            i < j < n ==> key_text((#[trigger] pairs[j]).0) != key_text(pairs[i].0) {
            assert(key_text(pairs[n - 1].0) != key_text(pairs[i].0));
        }
    } else {
        table::lookup_after_put(before, key, value, key);
    }
}

/// A key that is a text is that text, and one that is a number is its digits; no
/// other key has a text.
pub proof fn keys_are_texts_or_numbers(t: Seq<char>, i: i64, other: LuaModel)
    ensures
        key_text(LuaModel::Text(vstd::utf8::encode_utf8(t))) == Ok::<Seq<char>, ErrorModel>(t),
        i >= 0 ==> key_text(LuaModel::Integer(i)) == Ok::<Seq<char>, ErrorModel>(
            text::decimal(i as nat),
        ),
        i < 0 ==> key_text(LuaModel::Integer(i)) == Ok::<Seq<char>, ErrorModel>(
            seq!['-'] + text::decimal((-i) as nat),
        ),
        other is Nil || other is Boolean || other is Table || other is Other ==> key_text(
            other,
        ) is Err,
{
    vstd::utf8::encode_utf8_valid_utf8(t);
    vstd::utf8::encode_utf8_decode_utf8(t);
}

/// A number that is no integer is written, as a value and as a key, as Lua has it.
pub proof fn other_numbers_are_kept(number: JsonModel, digits: Seq<char>)
    ensures
        to_json(LuaModel::Number { json: number, text: digits }) == Ok::<JsonModel, ErrorModel>(
            number,
        ),
        key_text(LuaModel::Number { json: number, text: digits }) == Ok::<Seq<char>, ErrorModel>(
            digits,
        ),
{
}

/// A table is converted exactly where everything in it can be.
pub proof fn tables_are_converted_as_a_whole(pairs: Seq<(LuaModel, LuaModel)>)
    ensures
        (forall|i: int|
            0 <= i < pairs.len() ==> key_text((#[trigger] pairs[i]).0) is Ok && to_json(
                pairs[i].1,
            ) is Ok) ==> to_json(LuaModel::Table(pairs)) is Ok,
        to_json(LuaModel::Table(pairs)) is Ok && !is_list(pairs) ==> forall|i: int|
            0 <= i < pairs.len() ==> key_text((#[trigger] pairs[i]).0) is Ok && to_json(
                pairs[i].1,
            ) is Ok,
{
    if forall|i: int|
        0 <= i < pairs.len() ==> key_text((#[trigger] pairs[i]).0) is Ok && to_json(
            pairs[i].1,
        ) is Ok {
        if is_list(pairs) {
            elements_are_converted(pairs, pairs.len());
        } else {
            members_are_converted(pairs, pairs.len());
        }
    }
    if to_json(LuaModel::Table(pairs)) is Ok && !is_list(pairs) {
        assert forall|i: int| 0 <= i < pairs.len() implies key_text((#[trigger] pairs[i]).0) is Ok
            && to_json(pairs[i].1) is Ok by {
            first_pairs_become_members(pairs, pairs.len(), i);
        }
    }
}

/// Elements that can be converted are.
proof fn elements_are_converted(pairs: Seq<(LuaModel, LuaModel)>, n: nat)
    requires
        forall|i: int|
            0 <= i < pairs.len() ==> key_text((#[trigger] pairs[i]).0) is Ok && to_json(
                pairs[i].1,
            ) is Ok,
    ensures
        list_elements(pairs, n) is Ok,
    decreases n,
{
    if n > 0 {
        elements_are_converted(pairs, (n - 1) as nat);
        let i = key_place(pairs, n as int);
        if 0 <= i < pairs.len() {
            assert(to_json(pairs[i].1) is Ok);
        }
    }
}

/// Members that can be converted are.
proof fn members_are_converted(pairs: Seq<(LuaModel, LuaModel)>, n: nat)
    requires
        n <= pairs.len(),
        forall|i: int|
            0 <= i < pairs.len() ==> key_text((#[trigger] pairs[i]).0) is Ok && to_json(
                pairs[i].1,
            ) is Ok,
    ensures
        table_members(pairs, n) is Ok,
    decreases n,
{
    if n > 0 {
        members_are_converted(pairs, (n - 1) as nat);
        assert(key_text(pairs[n - 1].0) is Ok && to_json(pairs[n - 1].1) is Ok);
    }
}

} // verus!
