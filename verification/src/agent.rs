//! Agents, and the variables that their instructions hold.

use indexmap::IndexMap;
use vstd::prelude::*;

use crate::table;
use crate::text;

verus! {

/// The variables of an agent, in order.
pub type AgentVariables = IndexMap<String, String>;

#[verifier::external_type_specification]
#[verifier::external_body]
#[verifier::reject_recursive_types(K)]
#[verifier::reject_recursive_types(V)]
#[verifier::reject_recursive_types(S)]
pub struct ExIndexMap<K, V, S>(indexmap::IndexMap<K, V, S>);

/// The entries of an `IndexMap` from text to text, in its order.
pub uninterp spec fn variables_in(m: IndexMap<String, String>) -> Seq<(Seq<char>, Seq<char>)>;

/// `IndexMap::new`: a map without entries.
#[verifier::external_body]
pub(crate) fn no_variables() -> (r: AgentVariables)
    ensures
        variables_in(r) == Seq::<(Seq<char>, Seq<char>)>::empty(),
{
    IndexMap::new()
}

/// `IndexMap::insert`: the value under a key is replaced in its place; a new key
/// goes to the end.
#[verifier::external_body]
pub(crate) fn set_variable(m: &mut AgentVariables, key: String, value: String)
    ensures
        variables_in(*final(m)) == table::put(variables_in(*old(m)), key@, value@),
{
    m.insert(key, value);
}

/// `IndexMap::get`: the value under a key.
#[verifier::external_body]
pub(crate) fn get_variable<'a>(m: &'a AgentVariables, key: &str) -> (r: Option<&'a String>)
    ensures
        match r {
            Some(v) => table::lookup(variables_in(*m), key@) == Some(v@),
            None => table::lookup(variables_in(*m), key@) is None,
        },
{
    m.get(key)
}

/// `IndexMap::len`: the number of entries.
#[verifier::external_body]
pub(crate) fn variable_count(m: &AgentVariables) -> (r: usize)
    ensures
        r == variables_in(*m).len(),
{
    m.len()
}

/// `IndexMap::get_index`: the entry at a position.
#[verifier::external_body]
pub(crate) fn variable_at(m: &AgentVariables, i: usize) -> (r: Option<(&String, &String)>)
    ensures
        match r {
            Some(e) => i < variables_in(*m).len() && variables_in(*m)[i as int] == (e.0@, e.1@),
            None => i >= variables_in(*m).len(),
        },
{
    m.get_index(i)
}

/// `IndexMap::clone`, of a map from text to text: the same entries in the same
/// order.
#[verifier::external_body]
pub(crate) fn clone_variables(m: &AgentVariables) -> (r: AgentVariables)
    ensures
        variables_in(r) == variables_in(*m),
{
    m.clone()
}

/// What `serde_json::from_str` reads from a text as a map from text to text: the
/// entries in the order in which they stand there, or `None` where the text is no
/// such object.
pub uninterp spec fn variables_parse(text: Seq<char>) -> Option<Seq<(Seq<char>, Seq<char>)>>;

/// `serde_json::from_str`, into an `IndexMap` from text to text. What it reads
/// from a text is named; the reason for a refusal is dropped.
#[verifier::external_body]
pub(crate) fn parse_variables(text: &str) -> (r: Option<AgentVariables>)
    ensures
        match r {
            Some(v) => variables_parse(text@) == Some(variables_in(v)),
            None => variables_parse(text@) is None,
        },
{
    serde_json::from_str(text).ok()
}

/// A variable that an agent declares.
#[derive(Debug)]
pub struct AgentVariable {
    pub name: String,
    pub description: String,
    pub default: Option<String>,
    pub value: String,
}

/// A variable that an agent declares.
pub struct VariableModel {
    pub name: Seq<char>,
    pub description: Seq<char>,
    pub default: Option<Seq<char>>,
    pub value: Seq<char>,
}

impl View for AgentVariable {
    type V = VariableModel;

    open spec fn view(&self) -> VariableModel {
        VariableModel {
            name: self.name@,
            description: self.description@,
            default: text::optional(self.default),
            value: self.value@,
        }
    }
}

/// The variables that an agent declares.
pub open spec fn declared(v: Seq<AgentVariable>) -> Seq<VariableModel> {
    Seq::new(v.len(), |i: int| v[i]@)
}

impl Clone for AgentVariable {
    fn clone(&self) -> (r: Self)
        ensures
            r == *self,
    {
        AgentVariable {
            name: self.name.clone(),
            description: self.description.clone(),
            default: self.default.clone(),
            value: self.value.clone(),
        }
    }
}

impl Default for AgentVariable {
    fn default() -> (r: Self)
        ensures
            r.name@.len() == 0,
            r.description@.len() == 0,
            r.default is None,
            r.value@.len() == 0,
    {
        AgentVariable {
            name: String::new(),
            description: String::new(),
            default: None,
            value: String::new(),
        }
    }
}

/// An entry of the directory that holds the agents.
#[derive(Debug)]
pub struct AgentEntry {
    /// The name of the entry, where it is a text.
    pub name: Option<String>,
    /// The entry holds an `index.yaml`.
    pub has_index: bool,
}

/// The names of the entries that hold an agent.
pub open spec fn agent_names(entries: Seq<AgentEntry>) -> Seq<Seq<char>>
    decreases entries.len(),
{
    if entries.len() == 0 {
        seq![]
    } else {
        let before = agent_names(entries.drop_last());
        match entries.last().name {
            Some(name) if entries.last().has_index => before.push(name@),
            _ => before,
        }
    }
}

/// The names of the agents, in order.
pub fn list_agents(entries: &Vec<AgentEntry>) -> (r: Vec<String>)
    ensures
        text::in_order(text::texts(r@)),
        text::texts(r@).to_multiset() == agent_names(entries@).to_multiset(),
{
    let mut names: Vec<String> = Vec::new();
    let mut i: usize = 0;
    proof {
        assert(entries@.take(0) =~= Seq::<AgentEntry>::empty());
        assert(text::texts(names@) =~= Seq::<Seq<char>>::empty());
    }
    while i < entries.len()
        invariant
            i <= entries@.len(),
            text::texts(names@) == agent_names(entries@.take(i as int)),
        decreases entries@.len() - i,
    {
        proof {
            assert(entries@.take(i + 1).drop_last() =~= entries@.take(i as int));
        }
        if entries[i].has_index {
            if let Some(name) = &entries[i].name {
                proof {
                    text::texts_push(names@, *name);
                }
                names.push(name.clone());
            }
        }
        i += 1;
    }
    proof {
        assert(entries@.take(i as int) =~= entries@);
    }
    text::sort_texts(names)
}

/// What a completion offers for a variable: `name=`, and its description with the
/// value that it has by default.
pub open spec fn completion(v: VariableModel) -> (Seq<char>, Seq<char>) {
    (
        v.name + "="@,
        match v.default {
            Some(default) => v.description + " [default: "@ + default + "]"@,
            None => v.description,
        },
    )
}

/// What a completion offers for the variables of an agent.
pub fn complete_agent_variables(variables: &Vec<AgentVariable>) -> (r: Vec<
    (String, Option<String>),
>)
    ensures
        r@.len() == variables@.len(),
        forall|i: int|
            0 <= i < r@.len() ==> {
                &&& (#[trigger] r@[i]).1 is Some
                &&& (r@[i].0@, r@[i].1->0@) == completion(variables@[i]@)
            },
{
    let mut out: Vec<(String, Option<String>)> = Vec::new();
    let mut i: usize = 0;
    while i < variables.len()
        invariant
            i <= variables@.len(),
            out@.len() == i,
            forall|k: int|
                0 <= k < i ==> {
                    &&& (#[trigger] out@[k]).1 is Some
                    &&& (out@[k].0@, out@[k].1->0@) == completion(variables@[k]@)
                },
        decreases variables@.len() - i,
    {
        let v = &variables[i];
        let mut name = v.name.clone();
        name.append("=");
        let mut description = v.description.clone();
        if let Some(default) = &v.default {
            description.append(" [default: ");
            description.append(default.as_str());
            description.append("]");
        }
        out.push((name, Some(description)));
        i += 1;
    }
    out
}

/// The agents are all of the entries that have an index and a name that is text.
pub proof fn agents_are_the_entries_with_an_index(entries: Seq<AgentEntry>)
    ensures
        agent_names(entries) == entries.filter(
            |e: AgentEntry| e.has_index && e.name is Some,
        ).map_values(|e: AgentEntry| e.name->0@),
    decreases entries.len(),
{
    reveal(Seq::filter);
    if entries.len() > 0 {
        agents_are_the_entries_with_an_index(entries.drop_last());
    }
    assert(agent_names(entries) =~= entries.filter(
        |e: AgentEntry| e.has_index && e.name is Some,
    ).map_values(|e: AgentEntry| e.name->0@));
}

/// A variable is offered by its name and an equals sign; what is told of it is its
/// description and, where it has one, its default.
pub proof fn variables_are_offered_by_name(v: VariableModel)
    ensures
        completion(v).0 == v.name + seq!['='],
        v.default is None ==> completion(v).1 == v.description,
        v.default is Some ==> completion(v).1 == v.description + " [default: "@ + v.default->0
            + "]"@,
{
    reveal_strlit("=");
    assert("="@ =~= seq!['=']);
}

} // verus!
