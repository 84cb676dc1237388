//! Functions that the model may call, and its calls of them.

use indexmap::IndexMap;
use serde_json::Value;
use vstd::prelude::*;

use crate::error::Error;
use crate::json;
use crate::json::JsonModel;
use crate::message;
use crate::table;
use crate::text;

verus! {

/// The properties of an object with their schemas, in an `IndexMap`.
#[verifier::external_body]
#[derive(Debug)]
pub struct Properties {
    map: IndexMap<String, JsonSchema>,
}

/// The properties that an `IndexMap` holds, with what their schemas say, in its
/// order.
pub uninterp spec fn properties_in(p: Properties) -> Seq<(Seq<char>, SchemaModel)>;

/// `IndexMap::new`: no properties.
#[verifier::external_body]
fn no_properties() -> (r: Properties)
    ensures
        properties_in(r) == Seq::<(Seq<char>, SchemaModel)>::empty(),
{
    Properties { map: IndexMap::new() }
}

/// `IndexMap::insert`: the schema of a property is replaced in its place; a new
/// property goes to the end.
#[verifier::external_body]
fn set_property(p: &mut Properties, name: String, schema: JsonSchema)
    ensures
        properties_in(*final(p)) == table::put(properties_in(*old(p)), name@, schema@),
{
    p.map.insert(name, schema);
}

/// `IndexMap::len`: the number of properties.
#[verifier::external_body]
fn property_count(p: &Properties) -> (r: usize)
    ensures
        r == properties_in(*p).len(),
{
    p.map.len()
}

/// `IndexMap::get_index`: the property at a position.
#[verifier::external_body]
fn property_at(p: &Properties, i: usize) -> (r: Option<(&String, &JsonSchema)>)
    ensures
        match r {
            Some(e) => i < properties_in(*p).len() && properties_in(*p)[i as int] == (e.0@, e.1@),
            None => i >= properties_in(*p).len(),
        },
{
    p.map.get_index(i)
}

/// `IndexMap::get`: the schema of a property.
#[verifier::external_body]
fn find_property<'a>(p: &'a Properties, name: &str) -> (r: Option<&'a JsonSchema>)
    ensures
        match r {
            Some(s) => table::lookup(properties_in(*p), name@) == Some(s@),
            None => table::lookup(properties_in(*p), name@) is None,
        },
{
    p.map.get(name)
}

/// `IndexMap::clone`, which clones each schema: the same properties in the same
/// order.
#[verifier::external_body]
fn clone_properties(p: &Properties) -> (r: Properties)
    ensures
        properties_in(r) == properties_in(*p),
{
    Properties { map: p.map.clone() }
}

impl View for Properties {
    type V = Seq<(Seq<char>, SchemaModel)>;

    open spec fn view(&self) -> Seq<(Seq<char>, SchemaModel)> {
        properties_in(*self)
    }
}

impl Properties {
    pub fn new() -> (r: Self)
        ensures
            r@ == Seq::<(Seq<char>, SchemaModel)>::empty(),
    {
        no_properties()
    }

    /// Puts a property among the others.
    pub fn insert(&mut self, name: String, schema: JsonSchema)
        ensures
            final(self)@ == table::put(old(self)@, name@, schema@),
    {
        set_property(self, name, schema);
    }

    pub fn len(&self) -> (r: usize)
        ensures
            r == self@.len(),
    {
        property_count(self)
    }

    pub fn is_empty(&self) -> (r: bool)
        ensures
            r == (self@.len() == 0),
    {
        property_count(self) == 0
    }

    /// The property at a position.
    pub fn entry(&self, i: usize) -> (r: Option<(&String, &JsonSchema)>)
        ensures
            match r {
                Some(e) => i < self@.len() && self@[i as int] == (e.0@, e.1@),
                None => i >= self@.len(),
            },
    {
        property_at(self, i)
    }

    /// The schema of a property.
    pub fn get(&self, name: &str) -> (r: Option<&JsonSchema>)
        ensures
            match r {
                Some(s) => table::lookup(self@, name@) == Some(s@),
                None => table::lookup(self@, name@) is None,
            },
    {
        find_property(self, name)
    }
}

/// The schema of a JSON value.
#[derive(Debug)]
pub struct JsonSchema {
    pub type_value: Option<String>,
    pub description: Option<String>,
    pub properties: Option<Properties>,
    pub items: Option<Box<JsonSchema>>,
    pub any_of: Option<Vec<JsonSchema>>,
    pub enum_value: Option<Vec<String>>,
    pub default: Option<Value>,
    pub required: Option<Vec<String>>,
}

/// What a schema says.
pub struct SchemaModel {
    pub type_value: Option<Seq<char>>,
    pub description: Option<Seq<char>>,
    pub properties: Option<Seq<(Seq<char>, SchemaModel)>>,
    pub items: Option<Box<SchemaModel>>,
    pub any_of: Option<Seq<SchemaModel>>,
    pub enum_value: Option<Seq<Seq<char>>>,
    pub default: Option<JsonModel>,
    pub required: Option<Seq<Seq<char>>>,
}

/// What a schema says.
pub open spec fn schema_of(s: JsonSchema) -> SchemaModel
    decreases s,
{
    SchemaModel {
        type_value: text::optional(s.type_value),
        description: text::optional(s.description),
        properties: match s.properties {
            Some(p) => Some(properties_in(p)),
            None => None,
        },
        items: match s.items {
            Some(inner) => Some(Box::new(schema_of(*inner))),
            None => None,
        },
        any_of: match s.any_of {
            Some(list) => Some(
                Seq::new(
                    list@.len(),
                    |i: int|
                        if 0 <= i < list@.len() {
                            schema_of(list@[i])
                        } else {
                            arbitrary()
                        },
                ),
            ),
            None => None,
        },
        enum_value: text::optional_list(s.enum_value),
        default: match s.default {
            Some(v) => Some(json::json_of(v)),
            None => None,
        },
        required: text::optional_list(s.required),
    }
}

/// A schema that says nothing.
pub open spec fn blank_schema() -> SchemaModel {
    SchemaModel {
        type_value: None,
        description: None,
        properties: None,
        items: None,
        any_of: None,
        enum_value: None,
        default: None,
        required: None,
    }
}

impl View for JsonSchema {
    type V = SchemaModel;

    open spec fn view(&self) -> SchemaModel {
        schema_of(*self)
    }
}

impl Default for JsonSchema {
    fn default() -> (r: Self)
        ensures
            r@ == blank_schema(),
            r.properties is None,
    {
        JsonSchema {
            type_value: None,
            description: None,
            properties: None,
            items: None,
            any_of: None,
            enum_value: None,
            default: None,
            required: None,
        }
    }
}

impl Clone for JsonSchema {
    fn clone(&self) -> (r: Self)
        ensures
            r@ == self@,
        decreases self,
    {
        let properties = match &self.properties {
            Some(p) => Some(clone_properties(p)),
            None => None,
        };
        let items = match &self.items {
            Some(inner) => Some(Box::new((**inner).clone())),
            None => None,
        };
        let any_of = match &self.any_of {
            Some(list) => {
                let mut copy: Vec<JsonSchema> = Vec::new();
                let mut i: usize = 0;
                while i < list.len()
                    invariant
                        i <= list@.len(),
                        self.any_of == Some(*list),
                        copy@.len() == i,
                        forall|k: int| 0 <= k < i ==> (#[trigger] copy@[k])@ == list@[k]@,
                    decreases list@.len() - i,
                {
                    proof {
                        assert(decreases_to!(self => self.any_of->0@[i as int]));
                    }
                    copy.push(list[i].clone());
                    i += 1;
                }
                Some(copy)
            },
            None => None,
        };
        let r = JsonSchema {
            type_value: self.type_value.clone(),
            description: self.description.clone(),
            properties,
            items,
            any_of,
            enum_value: text::clone_list(&self.enum_value),
            default: self.default.clone(),
            required: text::clone_list(&self.required),
        };
        proof {
            if self.any_of is Some {
                assert(r@.any_of->0 =~= self@.any_of->0);
            }
            assert(r@ =~= self@);
        }
        r
    }
}

impl JsonSchema {
    /// Whether there is no property.
    pub fn is_empty_properties(&self) -> (r: bool)
        ensures
            r == (self@.properties matches Some(p) ==> p.len() == 0),
    {
        match &self.properties {
            Some(v) => v.is_empty(),
            None => true,
        }
    }
}

/// What a call of a function says.
pub struct ToolCallModel {
    pub name: Seq<char>,
    pub arguments: JsonModel,
    pub id: Option<Seq<char>>,
}

/// A call of a function, as the model asks for it.
#[derive(Debug)]
pub struct ToolCall {
    pub name: String,
    pub arguments: Value,
    pub id: Option<String>,
}

impl View for ToolCall {
    type V = ToolCallModel;

    open spec fn view(&self) -> ToolCallModel {
        ToolCallModel {
            name: self.name@,
            arguments: json::json_of(self.arguments),
            id: text::optional(self.id),
        }
    }
}

impl Clone for ToolCall {
    fn clone(&self) -> (r: Self)
        ensures
            r == *self,
    {
        ToolCall { name: self.name.clone(), arguments: self.arguments.clone(), id: self.id.clone() }
    }
}

impl Default for ToolCall {
    fn default() -> (r: Self)
        ensures
            r@ == (ToolCallModel { name: seq![], arguments: JsonModel::Null, id: None }),
    {
        let name = String::new();
        proof {
            assert(name@ =~= seq![]);
        }
        ToolCall { name, arguments: json::null_value(), id: None }
    }
}

/// A call with the same id stands in a list of calls.
pub open spec fn has_id(calls: Seq<ToolCallModel>, id: Seq<char>) -> bool {
    exists|i: int| 0 <= i < calls.len() && (#[trigger] calls[i]).id == Some(id)
}

/// A call is made again by one of some later calls.
pub open spec fn repeated(call: ToolCallModel, later: Seq<ToolCallModel>) -> bool {
    call.id matches Some(id) && has_id(later, id)
}

/// The calls without those that a later call repeats.
pub open spec fn deduped(calls: Seq<ToolCallModel>) -> Seq<ToolCallModel>
    decreases calls.len(),
{
    if calls.len() == 0 {
        seq![]
    } else if repeated(calls[0], calls.skip(1)) {
        deduped(calls.skip(1))
    } else {
        seq![calls[0]] + deduped(calls.skip(1))
    }
}

impl ToolCall {
    pub fn new(name: String, arguments: Value, id: Option<String>) -> (r: Self)
        ensures
            r == (ToolCall { name, arguments, id }),
    {
        ToolCall { name, arguments, id }
    }

    /// Whether one of the calls from an index on repeats the call.
    fn is_repeated(&self, calls: &Vec<ToolCall>, from: usize) -> (r: bool)
        requires
            from <= calls@.len(),
        ensures
            r == repeated(self@, message::calls_of(calls@).skip(from as int)),
    {
        let ghost later = message::calls_of(calls@).skip(from as int);
        let id = match &self.id {
            Some(id) => id,
            None => {
                return false;
            },
        };
        let mut i: usize = from;
        while i < calls.len()
            invariant
                from <= i <= calls@.len(),
                later == message::calls_of(calls@).skip(from as int),
                self.id == Some(*id),
                forall|k: int| 0 <= k < i - from ==> (#[trigger] later[k]).id != Some(id@),
            decreases calls@.len() - i,
        {
            if let Some(other) = &calls[i].id {
                if text::same_text(other.as_str(), id.as_str()) {
                    proof {
                        assert(later[i - from].id == Some(id@));
                        assert(has_id(later, id@));
                    }
                    return true;
                }
            }
            i += 1;
        }
        false
    }

    /// The calls without those that a later call with the same id repeats.
    pub fn dedup(calls: Vec<Self>) -> (r: Vec<Self>)
        ensures
            message::calls_of(r@) == deduped(message::calls_of(calls@)),
    {
        let mut kept: Vec<ToolCall> = Vec::new();
        let ghost all = message::calls_of(calls@);
        let mut i: usize = 0;
        proof {
            assert(all.skip(0) =~= all);
            assert(message::calls_of(kept@) + deduped(all) =~= deduped(all));
        }
        while i < calls.len()
            invariant
                i <= calls@.len(),
                all == message::calls_of(calls@),
                message::calls_of(kept@) + deduped(all.skip(i as int)) == deduped(all),
            decreases calls@.len() - i,
        {
            proof {
                assert(all.skip(i as int).skip(1) =~= all.skip(i + 1));
                assert(all.skip(i as int)[0] == calls@[i as int]@);
            }
            if !calls[i].is_repeated(&calls, i + 1) {
                let call = calls[i].clone();
                proof {
                    let before = message::calls_of(kept@);
                    assert(message::calls_of(kept@.push(call)) =~= before.push(call@));
                    assert(before.push(call@) + deduped(all.skip(i + 1)) =~= before + (seq![call@]
                        + deduped(all.skip(i + 1))));
                }
                kept.push(call);
            }
            i += 1;
        }
        proof {
            assert(all.skip(i as int) =~= Seq::<ToolCallModel>::empty());
            assert(message::calls_of(kept@) + Seq::<ToolCallModel>::empty() =~= message::calls_of(
                kept@,
            ));
        }
        kept
    }
}

/// Dropping repeated calls leaves each id once.
pub proof fn deduped_ids_are_distinct(calls: Seq<ToolCallModel>, i: int, j: int)
    requires
        0 <= i < j < deduped(calls).len(),
        deduped(calls)[i].id is Some,
    ensures
        deduped(calls)[i].id != deduped(calls)[j].id,
    decreases calls.len(),
{
    let rest = calls.skip(1);
    let kept = deduped(rest);
    if repeated(calls[0], rest) {
        deduped_ids_are_distinct(rest, i, j);
    } else if i > 0 {
        deduped_ids_are_distinct(rest, i - 1, j - 1);
    } else {
        deduped_are_calls(rest, j - 1);
        if calls[0].id == kept[j - 1].id {
            let k = choose|k: int| 0 <= k < rest.len() && #[trigger] rest[k] == kept[j - 1];
            assert(has_id(rest, calls[0].id->0)) by {
                assert(rest[k].id == Some(calls[0].id->0));
            }
        }
    }
}

/// What dropping repeated calls leaves are calls that stood there.
pub proof fn deduped_are_calls(calls: Seq<ToolCallModel>, i: int)
    requires
        0 <= i < deduped(calls).len(),
    ensures
        calls.contains(deduped(calls)[i]),
    decreases calls.len(),
{
    let rest = calls.skip(1);
    let at = if repeated(calls[0], rest) {
        i
    } else {
        i - 1
    };
    if at >= 0 {
        deduped_are_calls(rest, at);
        let k = choose|k: int| 0 <= k < rest.len() && rest[k] == deduped(rest)[at];
        assert(calls[k + 1] == deduped(calls)[i]);
    } else {
        assert(calls[0] == deduped(calls)[i]);
    }
}

/// A call without an id is never dropped, nor is the last one with its id.
pub proof fn deduped_keeps_unrepeated(calls: Seq<ToolCallModel>, i: int)
    requires
        0 <= i < calls.len(),
        !repeated(calls[i], calls.skip(i + 1)),
    ensures
        deduped(calls).contains(calls[i]),
    decreases calls.len(),
{
    let rest = calls.skip(1);
    if i == 0 {
        assert(deduped(calls)[0] == calls[0]);
    } else {
        assert(rest.skip(i) =~= calls.skip(i + 1));
        deduped_keeps_unrepeated(rest, i - 1);
        let k = choose|k: int| 0 <= k < deduped(rest).len() && deduped(rest)[k] == rest[i - 1];
        if repeated(calls[0], rest) {
            assert(deduped(calls)[k] == calls[i]);
        } else {
            assert(deduped(calls)[k + 1] == calls[i]);
        }
    }
}

/// Dropping repeated calls never drops all: the last call stays the last.
pub proof fn deduped_keeps_the_last(calls: Seq<ToolCallModel>)
    requires
        calls.len() > 0,
    ensures
        deduped(calls).len() > 0,
        deduped(calls).last() == calls.last(),
    decreases calls.len(),
{
    if calls.len() > 1 {
        deduped_keeps_the_last(calls.skip(1));
        assert(calls.skip(1).last() == calls.last());
    } else {
        let rest = calls.skip(1);
        assert(rest =~= Seq::<ToolCallModel>::empty());
        assert(deduped(rest) =~= Seq::<ToolCallModel>::empty());
    }
}

/// Dropping repeated calls a second time drops nothing more.
pub proof fn deduped_twice(calls: Seq<ToolCallModel>)
    ensures
        deduped(deduped(calls)) == deduped(calls),
    decreases calls.len(),
{
    if calls.len() > 0 {
        let rest = calls.skip(1);
        deduped_twice(rest);
        if !repeated(calls[0], rest) {
            let kept = deduped(calls);
            assert(kept.skip(1) =~= deduped(rest));
            if repeated(kept[0], kept.skip(1)) {
                let id = calls[0].id->0;
                let j = choose|j: int|
                    0 <= j < deduped(rest).len() && (#[trigger] deduped(rest)[j]).id == Some(id);
                deduped_are_calls(rest, j);
                let k = choose|k: int| 0 <= k < rest.len() && rest[k] == deduped(rest)[j];
                assert(rest[k].id == Some(id));
                assert(has_id(rest, id));
            }
        }
    }
}

/// Another call behind this one has its identifier.
pub open spec fn is_asked_again(calls: Seq<ToolCallModel>, i: int) -> bool {
    exists|j: int| i < j < calls.len() && (#[trigger] calls[j]).id == calls[i].id
}

/// Of the calls of a round, those stay that have no identifier and those whose
/// identifier no later call has: each of them once, as it is, in the order of the
/// round. `kept` gives their places.
pub proof fn deduped_keeps_each_last_call_in_order(calls: Seq<ToolCallModel>) -> (kept: Seq<int>)
    ensures
        kept.len() == deduped(calls).len(),
        forall|i: int, j: int| 0 <= i < j < kept.len() ==> kept[i] < kept[j],
        forall|i: int|
            0 <= i < kept.len() ==> 0 <= #[trigger] kept[i] < calls.len() && deduped(calls)[i]
                == calls[kept[i]],
        forall|k: int|
            0 <= k < calls.len() ==> (#[trigger] kept.contains(k) <==> calls[k].id is None
                || !is_asked_again(calls, k)),
    decreases calls.len(),
{
    if calls.len() == 0 {
        seq![]
    } else {
        let rest = calls.skip(1);
        let later = deduped_keeps_each_last_call_in_order(rest);
        let moved = Seq::new(later.len(), |i: int| later[i] + 1);
        let kept = if repeated(calls[0], rest) {
            moved
        } else {
            seq![0int] + moved
        };
        let out = deduped(calls);
        assert forall|k: int| 1 <= k < calls.len() implies is_asked_again(calls, k)
            == is_asked_again(rest, k - 1) by {
            if is_asked_again(calls, k) {
                let j = choose|j: int| k < j < calls.len() && (#[trigger] calls[j]).id == calls[k].id;
                assert(rest[j - 1] == calls[j]);
            }
            if is_asked_again(rest, k - 1) {
                let j = choose|j: int|
                    k - 1 < j < rest.len() && (#[trigger] rest[j]).id == rest[k - 1].id;
                assert(calls[j + 1] == rest[j]);
            }
        }
        assert(calls[0].id is Some ==> repeated(calls[0], rest) == is_asked_again(calls, 0)) by {
            if repeated(calls[0], rest) {
                let j = choose|j: int| 0 <= j < rest.len() && (#[trigger] rest[j]).id == calls[0].id;
                assert(calls[j + 1] == rest[j]);
            }
            if calls[0].id is Some && is_asked_again(calls, 0) {
                let j = choose|j: int| 0 < j < calls.len() && (#[trigger] calls[j]).id == calls[0].id;
                assert(rest[j - 1] == calls[j]);
            }
        }
        assert forall|k: int| 0 <= k < calls.len() implies (#[trigger] kept.contains(k)
            <==> calls[k].id is None || !is_asked_again(calls, k)) by {
            if k > 0 {
                if later.contains(k - 1) {
                    let i = choose|i: int| 0 <= i < later.len() && later[i] == k - 1;
                    assert(moved[i] == k);
                    if !repeated(calls[0], rest) {
                        assert(kept[i + 1] == k);
                    }
                    assert(kept.contains(k));
                }
                if kept.contains(k) {
                    let i = choose|i: int| 0 <= i < kept.len() && kept[i] == k;
                    let i0 = if repeated(calls[0], rest) {
                        i
                    } else {
                        i - 1
                    };
                    assert(moved[i0] == k);
                    assert(later[i0] == k - 1);
                    assert(later.contains(k - 1));
                }
            } else if !repeated(calls[0], rest) {
                assert(kept[0] == 0);
                assert(kept.contains(0));
            }
        }
        assert forall|i: int| 0 <= i < kept.len() implies 0 <= #[trigger] kept[i] < calls.len()
            && out[i] == calls[kept[i]] by {
            if repeated(calls[0], rest) {
                assert(out[i] == rest[later[i]]);
            } else if i > 0 {
                assert(out[i] == deduped(rest)[i - 1]);
                assert(kept[i] == later[i - 1] + 1);
            }
        }
        kept
    }
}

/// What a call of a function gave.
#[derive(Debug)]
pub struct ToolResult {
    pub call: ToolCall,
    pub output: Value,
    /// Detail that is kept and shown, but never sent back to the model.
    pub trace: Option<Value>,
}

/// What a call of a function gave.
pub struct ToolResultModel {
    pub call: ToolCallModel,
    pub output: JsonModel,
    pub trace: Option<JsonModel>,
}

/// What a document holds, if there is one.
pub open spec fn optional_json(v: Option<Value>) -> Option<JsonModel> {
    match v {
        Some(v) => Some(json::json_of(v)),
        None => None,
    }
}

impl View for ToolResult {
    type V = ToolResultModel;

    open spec fn view(&self) -> ToolResultModel {
        ToolResultModel {
            call: self.call@,
            output: json::json_of(self.output),
            trace: optional_json(self.trace),
        }
    }
}

impl Clone for ToolResult {
    fn clone(&self) -> (r: Self)
        ensures
            r == *self,
    {
        ToolResult {
            call: self.call.clone(),
            output: self.output.clone(),
            trace: self.trace.clone(),
        }
    }
}

impl ToolResult {
    pub fn new(call: ToolCall, output: Value) -> (r: Self)
        ensures
            r == (ToolResult { call, output, trace: None }),
    {
        ToolResult { call, output, trace: None }
    }

    pub fn new_with_trace(call: ToolCall, output: Value, trace: Value) -> (r: Self)
        ensures
            r == (ToolResult { call, output, trace: Some(trace) }),
    {
        ToolResult { call, output, trace: Some(trace) }
    }
}

/// What each of several calls gave.
pub open spec fn results_of(v: Seq<ToolResult>) -> Seq<ToolResultModel> {
    Seq::new(v.len(), |i: int| v[i]@)
}

/// The calls of one round that are to be made: those that no later one repeats.
/// Some call is always left, so that the round is never refused as a loop.
pub fn prepare_tool_calls(calls: Vec<ToolCall>) -> (r: Result<Vec<ToolCall>, Error>)
    ensures
        r matches Ok(kept) && message::calls_of(kept@) == deduped(message::calls_of(calls@)),
{
    if calls.is_empty() {
        proof {
            assert(message::calls_of(calls@) =~= Seq::<ToolCallModel>::empty());
        }
        return Ok(calls);
    }
    let ghost all = message::calls_of(calls@);
    let calls = ToolCall::dedup(calls);
    proof {
        deduped_keeps_the_last(all);
        assert(message::calls_of(calls@).len() == calls@.len());
    }
    if calls.is_empty() {
        return Err(Error::FunctionLoop);
    }
    Ok(calls)
}

/// The result of a call, as it is told to the model: a function that gave nothing
/// is `DONE`.
pub open spec fn told(result: ToolResultModel) -> ToolResultModel {
    ToolResultModel {
        output: if result.output is Null {
            JsonModel::Text("DONE"@)
        } else {
            result.output
        },
        ..result
    }
}

/// The results of a round of calls, as they are told to the model: none when no
/// function gave anything.
pub open spec fn told_results(results: Seq<ToolResultModel>) -> Seq<ToolResultModel> {
    if forall|i: int| 0 <= i < results.len() ==> (#[trigger] results[i]).output is Null {
        seq![]
    } else {
        Seq::new(results.len(), |i: int| told(results[i]))
    }
}

/// The results of a round of calls, in the form in which they are told to the
/// model.
pub fn finish_tool_calls(results: Vec<ToolResult>) -> (r: Vec<ToolResult>)
    ensures
        results_of(r@) == told_results(results_of(results@)),
{
    let ghost all = results_of(results@);
    let mut out: Vec<ToolResult> = Vec::new();
    let mut is_all_null = true;
    let mut i: usize = 0;
    while i < results.len()
        invariant
            i <= results@.len(),
            all == results_of(results@),
            out@.len() == i,
            forall|k: int| 0 <= k < i ==> (#[trigger] out@[k])@ == told(all[k]),
            is_all_null == (forall|k: int| 0 <= k < i ==> (#[trigger] all[k]).output is Null),
        decreases results@.len() - i,
    {
        let mut result = results[i].clone();
        proof {
            assert(all[i as int] == result@);
        }
        if json::is_null(&result.output) {
            result.output = json::text_value("DONE".to_owned());
        } else {
            is_all_null = false;
        }
        out.push(result);
        i += 1;
    }
    if is_all_null {
        out = Vec::new();
        proof {
            assert(results_of(out@) =~= Seq::<ToolResultModel>::empty());
        }
    } else {
        proof {
            assert(results_of(out@) =~= Seq::new(all.len(), |i: int| told(all[i])));
        }
    }
    out
}

/// Where some call gave something, every result is told, in its place and for its
/// call: what a call gave is told as it is, and a call that gave nothing is told
/// to be done.
pub proof fn results_are_told_as_they_are(results: Seq<ToolResultModel>, i: int, k: int)
    requires
        0 <= i < results.len(),
        !(results[i].output is Null),
        0 <= k < results.len(),
    ensures
        told_results(results).len() == results.len(),
        !(results[k].output is Null) ==> told_results(results)[k] == results[k],
        results[k].output is Null ==> told_results(results)[k].output == JsonModel::Text("DONE"@),
        told_results(results)[k].call == results[k].call,
        told_results(results)[k].trace == results[k].trace,
{
}

/// Where no call gave anything, nothing is told.
pub proof fn empty_rounds_are_not_told(results: Seq<ToolResultModel>)
    requires
        forall|i: int| 0 <= i < results.len() ==> (#[trigger] results[i]).output is Null,
    ensures
        told_results(results).len() == 0,
{
}

/// The declaration of a function that the model may call.
#[derive(Debug)]
pub struct FunctionDeclaration {
    pub name: String,
    pub description: String,
    pub parameters: JsonSchema,
    /// The function is an agent's own.
    pub agent: bool,
}

/// The declaration of a function.
pub struct DeclarationModel {
    pub name: Seq<char>,
    pub description: Seq<char>,
    pub parameters: SchemaModel,
    pub agent: bool,
}

impl View for FunctionDeclaration {
    type V = DeclarationModel;

    open spec fn view(&self) -> DeclarationModel {
        DeclarationModel {
            name: self.name@,
            description: self.description@,
            parameters: self.parameters@,
            agent: self.agent,
        }
    }
}

impl Clone for FunctionDeclaration {
    fn clone(&self) -> (r: Self)
        ensures
            r@ == self@,
    {
        FunctionDeclaration {
            name: self.name.clone(),
            description: self.description.clone(),
            parameters: self.parameters.clone(),
            agent: self.agent,
        }
    }
}

/// The declarations of several functions.
pub open spec fn declarations_of(v: Seq<FunctionDeclaration>) -> Seq<DeclarationModel> {
    Seq::new(v.len(), |i: int| v[i]@)
}

/// The first declaration under a name.
pub open spec fn find_declaration(v: Seq<DeclarationModel>, name: Seq<char>) -> Option<
    DeclarationModel,
>
    decreases v.len(),
{
    if v.len() == 0 {
        None
    } else if v[0].name == name {
        Some(v[0])
    } else {
        find_declaration(v.skip(1), name)
    }
}

/// The declarations whose names are not taken by others.
pub open spec fn not_declared(
    v: Seq<DeclarationModel>,
    others: Seq<DeclarationModel>,
) -> Seq<DeclarationModel>
    decreases v.len(),
{
    if v.len() == 0 {
        seq![]
    } else {
        let before = not_declared(v.drop_last(), others);
        if find_declaration(others, v.last().name) is None {
            before.push(v.last())
        } else {
            before
        }
    }
}

/// The functions that the model may call.
#[derive(Debug)]
pub struct Functions {
    declarations: Vec<FunctionDeclaration>,
}

impl View for Functions {
    type V = Seq<DeclarationModel>;

    closed spec fn view(&self) -> Seq<DeclarationModel> {
        declarations_of(self.declarations@)
    }
}

impl Default for Functions {
    fn default() -> (r: Self)
        ensures
            r@ == Seq::<DeclarationModel>::empty(),
    {
        let r = Functions { declarations: Vec::new() };
        proof {
            assert(r@ =~= Seq::<DeclarationModel>::empty());
        }
        r
    }
}

impl Clone for Functions {
    fn clone(&self) -> (r: Self)
        ensures
            r@ == self@,
    {
        let mut declarations: Vec<FunctionDeclaration> = Vec::new();
        let mut i: usize = 0;
        while i < self.declarations.len()
            invariant
                i <= self.declarations@.len(),
                declarations@.len() == i,
                forall|k: int|
                    0 <= k < i ==> (#[trigger] declarations@[k])@ == self.declarations@[k]@,
            decreases self.declarations@.len() - i,
        {
            declarations.push(self.declarations[i].clone());
            i += 1;
        }
        let r = Functions { declarations };
        proof {
            assert(r@ =~= self@);
        }
        r
    }
}

/// The first declaration under a name in a list.
fn find_in(list: &Vec<FunctionDeclaration>, name: &str) -> (r: Option<usize>)
    ensures
        match r {
            Some(i) => i < list@.len() && find_declaration(declarations_of(list@), name@) == Some(
                list@[i as int]@,
            ),
            None => find_declaration(declarations_of(list@), name@) is None,
        },
{
    let ghost all = declarations_of(list@);
    let mut i: usize = 0;
    proof {
        assert(all.skip(0) =~= all);
    }
    while i < list.len()
        invariant
            i <= list@.len(),
            all == declarations_of(list@),
            find_declaration(all, name@) == find_declaration(all.skip(i as int), name@),
        decreases list@.len() - i,
    {
        proof {
            assert(all.skip(i as int).skip(1) =~= all.skip(i + 1));
            assert(all.skip(i as int)[0] == list@[i as int]@);
        }
        if text::same_text(list[i].name.as_str(), name) {
            return Some(i);
        }
        i += 1;
    }
    None
}

impl Functions {
    /// The functions that are declared, and behind them those that were discovered
    /// under names that no declaration has.
    pub fn init(declared: Vec<FunctionDeclaration>, discovered: Vec<FunctionDeclaration>) -> (r:
        Self)
        ensures
            r@ == declarations_of(declared@) + not_declared(
                declarations_of(discovered@),
                declarations_of(declared@),
            ),
            r@.take(declared@.len() as int) == declarations_of(declared@),
            r@.skip(declared@.len() as int) == undeclared(
                declarations_of(discovered@),
                declarations_of(declared@),
            ),
    {
        let ghost first = declarations_of(declared@);
        let ghost found = declarations_of(discovered@);
        let mut extra: Vec<FunctionDeclaration> = Vec::new();
        let mut i: usize = 0;
        proof {
            assert(found.take(0) =~= Seq::<DeclarationModel>::empty());
            assert(declarations_of(extra@) =~= Seq::<DeclarationModel>::empty());
        }
        while i < discovered.len()
            invariant
                i <= discovered@.len(),
                first == declarations_of(declared@),
                found == declarations_of(discovered@),
                declarations_of(extra@) == not_declared(found.take(i as int), first),
            decreases discovered@.len() - i,
        {
            proof {
                assert(found.take(i + 1).drop_last() =~= found.take(i as int));
                assert(found.take(i + 1).last() == discovered@[i as int]@);
            }
            if find_in(&declared, discovered[i].name.as_str()).is_none() {
                let copy = discovered[i].clone();
                proof {
                    assert(declarations_of(extra@.push(copy)) =~= declarations_of(extra@).push(
                        copy@,
                    ));
                }
                extra.push(copy);
            }
            i += 1;
        }
        proof {
            assert(found.take(i as int) =~= found);
        }
        let ghost last = extra@;
        let mut declarations = declared;
        declarations.append(&mut extra);
        let r = Functions { declarations };
        proof {
            assert(r@ =~= first + declarations_of(last));
            undeclared_functions_stay_in_order(found, first);
            assert(r@.take(first.len() as int) =~= first);
            assert(r@.skip(first.len() as int) =~= declarations_of(last));
        }
        r
    }

    /// The first function under a name.
    pub fn find(&self, name: &str) -> (r: Option<&FunctionDeclaration>)
        ensures
            match r {
                Some(f) => find_declaration(self@, name@) == Some(f@),
                None => find_declaration(self@, name@) is None,
            },
    {
        match find_in(&self.declarations, name) {
            Some(i) => Some(&self.declarations[i]),
            None => None,
        }
    }

    /// Whether there is a function under a name.
    pub fn contains(&self, name: &str) -> (r: bool)
        ensures
            r == (find_declaration(self@, name@) is Some),
    {
        find_in(&self.declarations, name).is_some()
    }

    pub fn declarations(&self) -> (r: &[FunctionDeclaration])
        ensures
            declarations_of(r@) == self@,
    {
        self.declarations.as_slice()
    }

    pub fn is_empty(&self) -> (r: bool)
        ensures
            r == (self@.len() == 0),
    {
        self.declarations.is_empty()
    }
}

/// A declaration always wins over a function that was discovered under its name:
/// each name that is declared stands for the same function with and without what
/// was discovered.
pub proof fn declared_functions_win(
    declared: Seq<DeclarationModel>,
    discovered: Seq<DeclarationModel>,
    name: Seq<char>,
)
    requires
        find_declaration(declared, name) is Some,
    ensures
        find_declaration(declared + not_declared(discovered, declared), name) == find_declaration(
            declared,
            name,
        ),
{
    find_in_front(declared, not_declared(discovered, declared), name);
}

/// What is found in a list is found when more is put behind it.
proof fn find_in_front(v: Seq<DeclarationModel>, more: Seq<DeclarationModel>, name: Seq<char>)
    requires
        find_declaration(v, name) is Some,
    ensures
        find_declaration(v + more, name) == find_declaration(v, name),
    decreases v.len(),
{
    if v[0].name != name {
        find_in_front(v.skip(1), more, name);
        assert((v + more).skip(1) =~= v.skip(1) + more);
    }
}

/// A function that was discovered under a name that is not declared is found.
pub proof fn discovered_functions_are_added(
    declared: Seq<DeclarationModel>,
    discovered: Seq<DeclarationModel>,
    name: Seq<char>,
)
    requires
        find_declaration(declared, name) is None,
    ensures
        find_declaration(declared + not_declared(discovered, declared), name) == find_declaration(
            discovered,
            name,
        ),
{
    find_behind(declared, not_declared(discovered, declared), name);
    find_not_declared(discovered, declared, name);
}

/// What is not in a list is looked for behind it.
proof fn find_behind(v: Seq<DeclarationModel>, more: Seq<DeclarationModel>, name: Seq<char>)
    requires
        find_declaration(v, name) is None,
    ensures
        find_declaration(v + more, name) == find_declaration(more, name),
    decreases v.len(),
{
    if v.len() > 0 {
        find_behind(v.skip(1), more, name);
        assert((v + more).skip(1) =~= v.skip(1) + more);
    } else {
        assert(v + more =~= more);
    }
}

/// Leaving out names that others have leaves what is found under other names.
proof fn find_not_declared(
    v: Seq<DeclarationModel>,
    others: Seq<DeclarationModel>,
    name: Seq<char>,
)
    requires
        find_declaration(others, name) is None,
    ensures
        find_declaration(not_declared(v, others), name) == find_declaration(v, name),
    decreases v.len(),
{
    if v.len() > 0 {
        let before = v.drop_last();
        find_not_declared(before, others, name);
        assert(v =~= before.push(v.last()));
        find_after_push(before, v.last(), name);
        find_after_push(not_declared(before, others), v.last(), name);
    }
}

/// Looking for a name in a list with one more at its end.
proof fn find_after_push(v: Seq<DeclarationModel>, d: DeclarationModel, name: Seq<char>)
    ensures
        find_declaration(v.push(d), name) == (if find_declaration(v, name) is Some {
            find_declaration(v, name)
        } else if d.name == name {
            Some(d)
        } else {
            None
        }),
    decreases v.len(),
{
    if v.len() > 0 {
        find_after_push(v.skip(1), d, name);
        assert(v.push(d).skip(1) =~= v.skip(1).push(d));
    } else {
        let rest = v.push(d).skip(1);
        assert(rest =~= Seq::<DeclarationModel>::empty());
        assert(find_declaration(rest, name) is None);
    }
}

/// The name of the function that runs a subagent.
pub const SPAWN_SUBAGENT_TOOL_NAME: &'static str = "spawn_subagent";

/// A schema of a text with a description.
pub open spec fn text_schema(description: Seq<char>) -> SchemaModel {
    SchemaModel {
        type_value: Some("string"@),
        description: Some(description),
        ..blank_schema()
    }
}

/// The declaration of the function that runs a subagent; where names of agents
/// are given, only those are to be chosen from.
pub open spec fn spawn_declaration(allowed_agents: Seq<Seq<char>>) -> DeclarationModel {
    DeclarationModel {
        name: "spawn_subagent"@,
        description:
            "Run a task in an isolated subagent and return its final answer. The subagent starts with no history and cannot see this conversation."@,
        parameters: SchemaModel {
            type_value: Some("object"@),
            properties: Some(
                seq![
                    (
                        "agent"@,
                        SchemaModel {
                            enum_value: if allowed_agents.len() == 0 {
                                None
                            } else {
                                Some(allowed_agents)
                            },
                            ..text_schema("Name of the agent to run."@)
                        },
                    ),
                    (
                        "input"@,
                        text_schema(
                            "The task to give the subagent. It does not see this conversation, so state the task completely and self-containedly."@,
                        ),
                    ),
                ],
            ),
            required: Some(seq!["agent"@, "input"@]),
            ..blank_schema()
        },
        agent: false,
    }
}

/// The declaration of the function that runs a subagent.
pub fn spawn_subagent_declaration(allowed_agents: &Vec<String>) -> (r: FunctionDeclaration)
    ensures
        r@ == spawn_declaration(text::texts(allowed_agents@)),
{
    let agent_schema = JsonSchema {
        type_value: Some("string".to_owned()),
        description: Some("Name of the agent to run.".to_owned()),
        properties: None,
        items: None,
        any_of: None,
        enum_value: if allowed_agents.is_empty() {
            None
        } else {
            Some(text::clone_texts(allowed_agents))
        },
        default: None,
        required: None,
    };
    let input_schema = JsonSchema {
        type_value: Some("string".to_owned()),
        description: Some(
            "The task to give the subagent. It does not see this conversation, so state the task completely and self-containedly.".to_owned(),
        ),
        properties: None,
        items: None,
        any_of: None,
        enum_value: None,
        default: None,
        required: None,
    };
    let mut properties = Properties::new();
    properties.insert("agent".to_owned(), agent_schema);
    properties.insert("input".to_owned(), input_schema);
    let mut required: Vec<String> = Vec::new();
    required.push("agent".to_owned());
    required.push("input".to_owned());
    let parameters = JsonSchema {
        type_value: Some("object".to_owned()),
        description: None,
        properties: Some(properties),
        items: None,
        any_of: None,
        enum_value: None,
        default: None,
        required: Some(required),
    };
    let r = FunctionDeclaration {
        name: SPAWN_SUBAGENT_TOOL_NAME.to_owned(),
        description:
            "Run a task in an isolated subagent and return its final answer. The subagent starts with no history and cannot see this conversation.".to_owned(),
        parameters,
        agent: false,
    };
    proof {
        let allowed = text::texts(allowed_agents@);
        let wanted = spawn_declaration(allowed);
        assert(text::texts(required@) =~= seq!["agent"@, "input"@]);
        let listed = wanted.parameters.properties->0;
        assert(agent_schema@ =~= listed[0].1);
        assert(input_schema@ =~= listed[1].1);
        reveal_strlit("agent");
        reveal_strlit("input");
        assert("agent"@[0] != "input"@[0]);
        let first = Seq::<(Seq<char>, SchemaModel)>::empty();
        table::put_new(first, "agent"@, agent_schema@);
        table::put_new(first.push(("agent"@, agent_schema@)), "input"@, input_schema@);
        assert(properties@ =~= listed);
        assert(r@.parameters =~= wanted.parameters);
    }
    r
}

/// The declaration under a name is the first that has it, and there is none
/// exactly where no declaration has the name.
pub proof fn first_declaration_of_a_name_is_found(v: Seq<DeclarationModel>, name: Seq<char>)
    ensures
        find_declaration(v, name) is None <==> forall|i: int|
            0 <= i < v.len() ==> (#[trigger] v[i]).name != name,
        forall|i: int|
            0 <= i < v.len() && v[i].name == name && (forall|j: int|
                0 <= j < i ==> (#[trigger] v[j]).name != name) ==> find_declaration(v, name)
                == Some(#[trigger] v[i]),
    decreases v.len(),
{
    if v.len() > 0 {
        let rest = v.skip(1);
        first_declaration_of_a_name_is_found(rest, name);
        assert forall|i: int|
            0 <= i < v.len() && v[i].name == name && (forall|j: int|
                0 <= j < i ==> (#[trigger] v[j]).name != name) implies find_declaration(v, name)
            == Some(#[trigger] v[i]) by {
            if i > 0 {
                assert(v[0].name != name);
                assert(rest[i - 1] == v[i]);
                assert forall|j: int| 0 <= j < i - 1 implies (#[trigger] rest[j]).name != name by {
                    assert(rest[j] == v[j + 1]);
                }
            }
        }
        if find_declaration(v, name) is None {
            assert forall|i: int| 0 <= i < v.len() implies (#[trigger] v[i]).name != name by {
                if i > 0 {
                    assert(rest[i - 1] == v[i]);
                }
            }
        }
        if forall|i: int| 0 <= i < v.len() ==> (#[trigger] v[i]).name != name {
            assert(v[0].name != name);
            assert forall|i: int| 0 <= i < rest.len() implies (#[trigger] rest[i]).name != name by {
                assert(rest[i] == v[i + 1]);
            }
        }
    }
}

/// No function of the list has the name.
pub open spec fn is_free_name(v: Seq<DeclarationModel>, name: Seq<char>) -> bool {
    forall|i: int| 0 <= i < v.len() ==> (#[trigger] v[i]).name != name
}

/// The discovered functions whose names no declared one has.
pub open spec fn undeclared(
    discovered: Seq<DeclarationModel>,
    declared: Seq<DeclarationModel>,
) -> Seq<DeclarationModel> {
    discovered.filter(|d: DeclarationModel| is_free_name(declared, d.name))
}

/// Behind the declared functions come all of the discovered ones, as they are and
/// in their order, whose names no declared one has.
pub proof fn undeclared_functions_stay_in_order(
    discovered: Seq<DeclarationModel>,
    declared: Seq<DeclarationModel>,
)
    ensures
        not_declared(discovered, declared) == undeclared(discovered, declared),
    decreases discovered.len(),
{
    reveal(Seq::filter);
    if discovered.len() > 0 {
        undeclared_functions_stay_in_order(discovered.drop_last(), declared);
        first_declaration_of_a_name_is_found(declared, discovered.last().name);
    }
}

/// The function that starts a subagent takes the name of an agent, which is one of
/// those that are allowed where any are listed, and a task; it needs both, and
/// takes nothing else.
pub proof fn subagents_are_asked_for_by_name_and_task(allowed_agents: Seq<Seq<char>>)
    ensures
        ({
            let d = spawn_declaration(allowed_agents);
            &&& d.name == SPAWN_SUBAGENT_TOOL_NAME@
            &&& !d.agent
            &&& d.parameters.type_value == Some("object"@)
            &&& d.parameters.required == Some(seq!["agent"@, "input"@])
            &&& d.parameters.properties matches Some(p) && p.len() == 2 && p[0].0 == "agent"@
                && p[1].0 == "input"@ && p[0].1.type_value == Some("string"@)
                && p[1].1.type_value == Some("string"@) && p[1].1.enum_value is None
                && p[0].1.description is Some && p[1].1.description is Some && (
            if allowed_agents.len() == 0 {
                p[0].1.enum_value is None
            } else {
                p[0].1.enum_value == Some(allowed_agents)
            })
        }),
{
}

} // verus!
