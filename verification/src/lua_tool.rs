//! Functions that are written in Lua.

use indexmap::IndexMap;
use serde_json::Value;
use vstd::prelude::*;
use vstd::string::StrSliceExecFns;

use crate::doc_comment;
use crate::error::{Error, ErrorModel};
use crate::function;
use crate::function::{
    DeclarationModel, FunctionDeclaration, JsonSchema, Properties, SchemaModel,
};
use crate::json;
use crate::json::{JsonModel, JsonRef};
use crate::lua_value;
use crate::lua_value::{LuaModel, LuaValue};
use crate::table;
use crate::table::Table;
use crate::text;

verus! {

// ---- Files ----

/// An entry of a directory.
#[derive(Debug)]
pub struct DirEntry {
    pub name: String,
    pub is_file: bool,
}

/// An entry is a file of Lua source: a file whose name ends in `.lua` and holds
/// more than that.
pub open spec fn is_script(e: DirEntry) -> bool {
    e.is_file && (text::without_suffix(e.name@, ".lua"@) matches Some(stem) && stem.len() > 0)
}

/// Whether an entry is a file of Lua source.
pub fn is_lua_file(entry: &DirEntry) -> (r: bool)
    ensures
        r == is_script(*entry),
{
    entry.is_file && match text::strip_suffix(entry.name.as_str(), ".lua") {
        Some(stem) => !stem.is_empty(),
        None => false,
    }
}

/// One of some entries is a file of Lua source.
pub open spec fn any_script(entries: Seq<DirEntry>) -> bool {
    exists|i: int| 0 <= i < entries.len() && is_script(#[trigger] entries[i])
}

/// Whether a directory holds Lua source; `None` is one that cannot be read.
pub fn has_lua_tools(entries: Option<&Vec<DirEntry>>) -> (r: bool)
    ensures
        r == (entries matches Some(v) && any_script(v@)),
{
    let v = match entries {
        Some(v) => v,
        None => {
            return false;
        },
    };
    let mut i: usize = 0;
    while i < v.len()
        invariant
            i <= v@.len(),
            entries == Some(v),
            forall|k: int| 0 <= k < i ==> !is_script(#[trigger] v@[k]),
        decreases v@.len() - i,
    {
        if is_lua_file(&v[i]) {
            proof {
                assert(any_script(v@));
            }
            return true;
        }
        i += 1;
    }
    false
}

/// The names of the files of Lua source among some entries.
pub open spec fn script_names(entries: Seq<DirEntry>) -> Seq<Seq<char>>
    decreases entries.len(),
{
    if entries.len() == 0 {
        seq![]
    } else {
        let before = script_names(entries.drop_last());
        if is_script(entries.last()) {
            before.push(entries.last().name@)
        } else {
            before
        }
    }
}

/// The names of the files of Lua source among some entries, in the order in which
/// they are to be loaded.
pub fn lua_files(entries: &Vec<DirEntry>) -> (r: Vec<String>)
    ensures
        text::in_order(text::texts(r@)),
        text::texts(r@).to_multiset() == script_names(entries@).to_multiset(),
{
    let mut names: Vec<String> = Vec::new();
    let mut i: usize = 0;
    proof {
        assert(entries@.take(0) =~= seq![]);
        assert(text::texts(names@) =~= seq![]);
    }
    while i < entries.len()
        invariant
            i <= entries@.len(),
            text::texts(names@) == script_names(entries@.take(i as int)),
        decreases entries@.len() - i,
    {
        proof {
            assert(entries@.take(i + 1).drop_last() =~= entries@.take(i as int));
            text::texts_push(names@, entries@[i as int].name);
        }
        if is_lua_file(&entries[i]) {
            names.push(entries[i].name.clone());
        }
        i += 1;
    }
    proof {
        assert(entries@.take(i as int) =~= entries@);
    }
    text::sort_texts(names)
}

// ---- Parameters ----

/// A parameter of a function.
#[derive(Debug)]
pub struct ParamMeta {
    pub name: String,
    pub description: Option<String>,
    pub kind: Option<String>,
    pub enum_values: Option<Vec<String>>,
    pub required: bool,
}

/// A parameter of a function.
pub struct ParamModel {
    pub name: Seq<char>,
    pub description: Option<Seq<char>>,
    pub kind: Option<Seq<char>>,
    pub enum_values: Option<Seq<Seq<char>>>,
    pub required: bool,
}

impl View for ParamMeta {
    type V = ParamModel;

    open spec fn view(&self) -> ParamModel {
        ParamModel {
            name: self.name@,
            description: text::optional(self.description),
            kind: text::optional(self.kind),
            enum_values: text::optional_list(self.enum_values),
            required: self.required,
        }
    }
}

impl Clone for ParamMeta {
    fn clone(&self) -> (r: Self)
        ensures
            r@ == self@,
    {
        ParamMeta {
            name: self.name.clone(),
            description: self.description.clone(),
            kind: self.kind.clone(),
            enum_values: text::clone_list(&self.enum_values),
            required: self.required,
        }
    }
}

/// Parameters.
pub open spec fn params_of(v: Seq<ParamMeta>) -> Seq<ParamModel> {
    Seq::new(v.len(), |i: int| v[i]@)
}

/// The names of parameters.
pub open spec fn param_names(v: Seq<ParamModel>) -> Seq<Seq<char>> {
    Seq::new(v.len(), |i: int| v[i].name)
}

/// A parameter of which nothing but its name and perhaps a description is known.
pub open spec fn bare_param(name: Seq<char>, description: Option<Seq<char>>) -> ParamModel {
    ParamModel { name, description, kind: None, enum_values: None, required: true }
}

/// A parameter of which nothing but its name and perhaps a description is known.
fn bare(name: String, description: Option<String>) -> (r: ParamMeta)
    ensures
        r@ == bare_param(name@, text::optional(description)),
{
    ParamMeta { name, description, kind: None, enum_values: None, required: true }
}

/// A copy of parameters.
fn clone_params(v: &Vec<ParamMeta>) -> (r: Vec<ParamMeta>)
    ensures
        params_of(r@) == params_of(v@),
{
    let mut out: Vec<ParamMeta> = Vec::new();
    let mut i: usize = 0;
    while i < v.len()
        invariant
            i <= v@.len(),
            out@.len() == i,
            forall|k: int| 0 <= k < i ==> (#[trigger] out@[k])@ == v@[k]@,
        decreases v@.len() - i,
    {
        out.push(v[i].clone());
        i += 1;
    }
    proof {
        assert(params_of(out@) =~= params_of(v@));
    }
    out
}

/// What stands beside the name in an entry of a tool's parameters.
#[derive(Debug)]
pub struct ParamFields {
    pub description: Option<String>,
    pub kind: Option<String>,
    pub enum_values: Option<Vec<String>>,
    pub required: Option<bool>,
}

/// An entry of a tool's parameters.
#[derive(Debug)]
pub enum RawParam {
    /// A name.
    Name(String),
    /// A table with a name, where it has one, and what stands beside it, where that
    /// can be read.
    Fields { name: Option<String>, fields: Result<ParamFields, Error> },
    /// Something else.
    Other,
}

/// The parameter for an entry at a position, counted from 1.
pub open spec fn read_param(raw: RawParam, index: u64) -> Result<ParamModel, ErrorModel> {
    match raw {
        RawParam::Name(name) => Ok(bare_param(name@, None)),
        RawParam::Fields { name, fields } => match name {
            None => Err(ErrorModel::ParamName { index }),
            Some(name) => match fields {
                Err(e) => Err(e@),
                Ok(f) => Ok(
                    ParamModel {
                        name: name@,
                        description: text::optional(f.description),
                        kind: text::optional(f.kind),
                        enum_values: text::optional_list(f.enum_values),
                        required: match f.required {
                            Some(b) => b,
                            None => true,
                        },
                    },
                ),
            },
        },
        RawParam::Other => Err(ErrorModel::ParamEntry { index }),
    }
}

/// The parameters for the first `n` entries.
pub open spec fn read_params(raw: Seq<RawParam>, n: nat) -> Result<Seq<ParamModel>, ErrorModel>
    decreases n,
{
    if n == 0 || n > raw.len() {
        Ok(seq![])
    } else {
        match read_params(raw, (n - 1) as nat) {
            Err(e) => Err(e),
            Ok(before) => match read_param(raw[n - 1], n as u64) {
                Err(e) => Err(e),
                Ok(p) => Ok(before.push(p)),
            },
        }
    }
}

/// An error in the first entries is that of all.
proof fn read_params_error(raw: Seq<RawParam>, n: nat, e: ErrorModel)
    requires
        n <= raw.len(),
        read_params(raw, n) == Err::<Seq<ParamModel>, ErrorModel>(e),
    ensures
        read_params(raw, raw.len()) == Err::<Seq<ParamModel>, ErrorModel>(e),
    decreases raw.len() - n,
{
    if n < raw.len() {
        read_params_error(raw, n + 1, e);
    }
}

/// The parameters that a tool is registered with, where it is registered with any.
pub open spec fn registered_params(raw: Option<Vec<RawParam>>) -> Result<
    Option<Seq<ParamModel>>,
    ErrorModel,
> {
    match raw {
        None => Ok(None),
        Some(v) => match read_params(v@, v@.len()) {
            Ok(p) => Ok(Some(p)),
            Err(e) => Err(e),
        },
    }
}

/// Parameters that may be there.
pub open spec fn optional_params(v: Option<Vec<ParamMeta>>) -> Option<Seq<ParamModel>> {
    match v {
        Some(v) => Some(params_of(v@)),
        None => None,
    }
}

/// The parameter for an entry at a position.
fn extract_param(raw: RawParam, index: u64) -> (r: Result<ParamMeta, Error>)
    ensures
        match r {
            Ok(p) => read_param(raw, index) == Ok::<ParamModel, ErrorModel>(p@),
            Err(e) => read_param(raw, index) == Err::<ParamModel, ErrorModel>(e@),
        },
{
    match raw {
        RawParam::Name(name) => Ok(bare(name, None)),
        RawParam::Fields { name, fields } => match name {
            None => Err(Error::ParamName { index }),
            Some(name) => match fields {
                Err(e) => Err(e),
                Ok(f) => Ok(
                    ParamMeta {
                        name,
                        description: f.description,
                        kind: f.kind,
                        enum_values: f.enum_values,
                        required: match f.required {
                            Some(b) => b,
                            None => true,
                        },
                    },
                ),
            },
        },
        RawParam::Other => Err(Error::ParamEntry { index }),
    }
}

/// The parameters that a tool is registered with, where it is registered with any.
pub fn extract_params_field(raw: Option<Vec<RawParam>>) -> (r: Result<
    Option<Vec<ParamMeta>>,
    Error,
>)
    ensures
        match r {
            Ok(p) => registered_params(raw) == Ok::<Option<Seq<ParamModel>>, ErrorModel>(
                optional_params(p),
            ),
            Err(e) => registered_params(raw) == Err::<Option<Seq<ParamModel>>, ErrorModel>(e@),
        },
{
    let mut rest = match raw {
        Some(v) => v,
        None => {
            return Ok(None);
        },
    };
    let ghost all = rest@;
    let n: usize = rest.len();
    let mut params: Vec<ParamMeta> = Vec::new();
    let mut i: usize = 0;
    proof {
        assert(params_of(params@) =~= seq![]);
    }
    while i < n
        invariant
            i <= n,
            n == all.len(),
            raw matches Some(v) && v@ == all,
            rest@ == all.skip(i as int),
            read_params(all, i as nat) == Ok::<Seq<ParamModel>, ErrorModel>(params_of(params@)),
        decreases n - i,
    {
        let entry = rest.remove(0);
        proof {
            assert(entry == all[i as int]);
            assert(rest@ =~= all.skip(i + 1));
        }
        match extract_param(entry, (i + 1) as u64) {
            Ok(p) => {
                let ghost before = params@;
                params.push(p);
                proof {
                    assert(params_of(params@) =~= params_of(before).push(p@));
                }
            },
            Err(e) => {
                proof {
                    read_params_error(all, (i + 1) as nat, e@);
                }
                return Err(e);
            },
        }
        i += 1;
    }
    Ok(Some(params))
}

/// A tool that a script registered.
#[derive(Debug)]
pub struct RegisteredTool {
    pub description: Option<String>,
    /// The parameters, where it is registered with any.
    pub params: Option<Vec<ParamMeta>>,
}

/// A tool that a script registered.
pub struct ToolModel {
    pub description: Option<Seq<char>>,
    pub params: Option<Seq<ParamModel>>,
}

impl View for RegisteredTool {
    type V = ToolModel;

    open spec fn view(&self) -> ToolModel {
        ToolModel {
            description: text::optional(self.description),
            params: optional_params(self.params),
        }
    }
}

/// The tools that scripts registered, under their names.
pub type Registry = IndexMap<String, RegisteredTool>;

/// The tools that an `IndexMap` holds under their names, in its order.
pub uninterp spec fn tools_in(m: IndexMap<String, RegisteredTool>) -> Seq<(Seq<char>, ToolModel)>;

/// `IndexMap::new`: no tools.
#[verifier::external_body]
fn no_tools() -> (r: Registry)
    ensures
        tools_in(r) == Seq::<(Seq<char>, ToolModel)>::empty(),
{
    IndexMap::new()
}

/// `IndexMap::insert`: the tool under a name is replaced in its place; a new name
/// goes to the end.
#[verifier::external_body]
fn put_tool(m: &mut Registry, name: String, tool: RegisteredTool)
    ensures
        tools_in(*final(m)) == table::put(tools_in(*old(m)), name@, tool@),
{
    m.insert(name, tool);
}

/// `IndexMap::get`: the tool under a name.
#[verifier::external_body]
pub(crate) fn get_tool<'a>(m: &'a Registry, name: &str) -> (r: Option<&'a RegisteredTool>)
    ensures
        match r {
            Some(t) => table::lookup(tools_in(*m), name@) == Some(t@),
            None => table::lookup(tools_in(*m), name@) is None,
        },
{
    m.get(name)
}

/// `IndexMap::len`: the number of tools, which is that of their names, as no two of
/// them stand under the same one.
#[verifier::external_body]
pub(crate) fn tool_count(m: &Registry) -> (r: usize)
    ensures
        r == tools_in(*m).len(),
        r == table::keys_of(tools_in(*m)).to_set().len(),
{
    m.len()
}

/// `IndexMap::get_index`: the tool at a position, with its name.
#[verifier::external_body]
pub(crate) fn tool_at(m: &Registry, i: usize) -> (r: Option<(&String, &RegisteredTool)>)
    ensures
        match r {
            Some(e) => i < tools_in(*m).len() && tools_in(*m)[i as int] == (e.0@, e.1@),
            None => i >= tools_in(*m).len(),
        },
{
    m.get_index(i)
}

/// A tool with what it is registered with; `has_handler` says that a function is
/// among that.
pub fn registered_tool(
    name: &str,
    description: Option<String>,
    params: Option<Vec<RawParam>>,
    has_handler: bool,
) -> (r: Result<RegisteredTool, Error>)
    ensures
        match registered_params(params) {
            Err(e) => r is Err && r->Err_0@ == e,
            Ok(p) => if has_handler {
                r is Ok && r->Ok_0@ == (ToolModel {
                    description: text::optional(description),
                    params: p,
                })
            } else {
                r is Err && r->Err_0@ == (ErrorModel::MissingHandler { name: name@ })
            },
        },
{
    match extract_params_field(params) {
        Err(e) => Err(e),
        Ok(params) => if has_handler {
            Ok(RegisteredTool { description, params })
        } else {
            Err(Error::MissingHandler { name: name.to_owned() })
        },
    }
}

/// No tools are registered yet.
pub fn new_registry() -> (r: Registry)
    ensures
        tools_in(r) == Seq::<(Seq<char>, ToolModel)>::empty(),
{
    no_tools()
}

/// Puts a tool among those that are registered; one of the same name is replaced.
pub fn register(registry: &mut Registry, name: String, tool: RegisteredTool)
    ensures
        tools_in(*final(registry)) == table::put(tools_in(*old(registry)), name@, tool@),
{
    put_tool(registry, name, tool);
}

// ---- Which parameters count ----

/// `getlocal` takes every position.
pub open spec fn looks_up_all<G: Fn(i64) -> Result<Option<String>, Error>>(getlocal: G) -> bool {
    forall|i: i64| call_requires(getlocal, (i,))
}

/// The name at a position among a function's parameters.
pub open spec fn param_at<G: Fn(i64) -> Result<Option<String>, Error>>(
    getlocal: G,
    i: i64,
    name: Option<Seq<char>>,
) -> bool {
    exists|n: Option<String>|
        text::optional(n) == name && #[trigger] call_ensures(
            getlocal,
            (i,),
            Ok::<Option<String>, Error>(n),
        )
}

/// `names` are the names at the first positions, counted from 1.
pub open spec fn first_params<G: Fn(i64) -> Result<Option<String>, Error>>(
    getlocal: G,
    names: Seq<Seq<char>>,
) -> bool {
    forall|i: int|
        0 <= i < names.len() ==> param_at(getlocal, (i + 1) as i64, Some(#[trigger] names[i]))
}

/// `e` came up at the position behind the first ones, which have these names.
pub open spec fn param_unread<G: Fn(i64) -> Result<Option<String>, Error>>(
    getlocal: G,
    names: Seq<Seq<char>>,
    e: Error,
) -> bool {
    &&& names.len() + 1 < i64::MAX
    &&& first_params(getlocal, names)
    &&& call_ensures(getlocal, ((names.len() + 1) as i64,), Err::<Option<String>, Error>(e))
}

/// The names of a function's parameters: those at the positions from 1 on, up to the
/// first without one. `getlocal` tells the name at a position.
pub fn signature_param_names<G: Fn(i64) -> Result<Option<String>, Error>>(getlocal: &G) -> (r:
    Result<Vec<String>, Error>)
    requires
        looks_up_all(*getlocal),
    ensures
        match r {
            Ok(names) => first_params(*getlocal, text::texts(names@)) && (names@.len() + 1
                < i64::MAX ==> param_at(*getlocal, (names@.len() + 1) as i64, None)),
            Err(e) => exists|names: Seq<Seq<char>>| #[trigger]
                param_unread(*getlocal, names, e),
        },
{
    let mut names: Vec<String> = Vec::new();
    let mut i: i64 = 1;
    while i < i64::MAX
        invariant
            1 <= i <= i64::MAX,
            names@.len() == i - 1,
            looks_up_all(*getlocal),
            first_params(*getlocal, text::texts(names@)),
        decreases i64::MAX - i,
    {
        let found = getlocal(i);
        match found {
            Err(e) => {
                proof {
                    assert(param_unread(*getlocal, text::texts(names@), e));
                }
                return Err(e);
            },
            Ok(name) => {
                proof {
                    assert(param_at(*getlocal, i, text::optional(name)));
                }
                match name {
                    None => {
                        return Ok(names);
                    },
                    Some(n) => {
                        let ghost before = text::texts(names@);
                        proof {
                            text::texts_push(names@, n);
                        }
                        names.push(n);
                        proof {
                            let after = text::texts(names@);
                            assert forall|k: int| 0 <= k < after.len() implies param_at(
                                *getlocal,
                                (k + 1) as i64,
                                Some(#[trigger] after[k]),
                            ) by {
                                if k < before.len() {
                                    assert(after[k] == before[k]);
                                }
                            }
                        }
                    },
                }
            },
        }
        i += 1;
    }
    Ok(names)
}

/// The parameters that a comment names.
pub open spec fn commented_params(v: Seq<(Seq<char>, Seq<char>)>) -> Seq<ParamModel> {
    Seq::new(
        v.len(),
        |i: int|
            bare_param(
                v[i].0,
                if v[i].1.len() == 0 {
                    None
                } else {
                    Some(v[i].1)
                },
            ),
    )
}

/// The parameters that a function itself declares.
pub open spec fn signature_params(names: Seq<Seq<char>>) -> Seq<ParamModel> {
    Seq::new(names.len(), |i: int| bare_param(names[i], None))
}

/// The parameters of a tool that are known without looking at the function itself:
/// those that it is registered with, or else those that a comment names.
pub open spec fn documented_params(
    explicit: Option<Seq<ParamModel>>,
    comment: Option<Seq<(Seq<char>, Seq<char>)>>,
) -> Option<Seq<ParamModel>> {
    match explicit {
        Some(p) => Some(p),
        None => match comment {
            Some(c) => if c.len() == 0 {
                None
            } else {
                Some(commented_params(c))
            },
            None => None,
        },
    }
}

/// `signature` can be asked of every function; the flag says that it is registered.
pub open spec fn reads_all<S: Fn(&str, bool) -> Result<Vec<String>, Error>>(signature: S) -> bool {
    forall|name: &str, registered: bool| call_requires(signature, (name, registered))
}

/// `out` is what `signature` tells of a function.
pub open spec fn signed<S: Fn(&str, bool) -> Result<Vec<String>, Error>>(
    signature: S,
    name: Seq<char>,
    registered: bool,
    out: Result<Vec<String>, Error>,
) -> bool {
    exists|n: &str| n@ == name && #[trigger] call_ensures(signature, (n, registered), out)
}

/// How finding out the parameters of a tool ends: with those that are documented,
/// or else with those that the function itself declares.
pub open spec fn params_resolved<S: Fn(&str, bool) -> Result<Vec<String>, Error>>(
    name: Seq<char>,
    registered: bool,
    explicit: Option<Seq<ParamModel>>,
    comment: Option<Seq<(Seq<char>, Seq<char>)>>,
    signature: S,
    r: Result<Seq<ParamModel>, Error>,
) -> bool {
    match documented_params(explicit, comment) {
        Some(p) => r == Ok::<Seq<ParamModel>, Error>(p),
        None => from_signature(name, registered, signature, r),
    }
}

/// The parameters are those that the function itself declares.
pub open spec fn from_signature<S: Fn(&str, bool) -> Result<Vec<String>, Error>>(
    name: Seq<char>,
    registered: bool,
    signature: S,
    r: Result<Seq<ParamModel>, Error>,
) -> bool {
    exists|out: Result<Vec<String>, Error>| #[trigger]
        signed(signature, name, registered, out) && match out {
            Ok(names) => r == Ok::<Seq<ParamModel>, Error>(
                signature_params(text::texts(names@)),
            ),
            Err(e) => r == Err::<Seq<ParamModel>, Error>(e),
        }
}

/// The result with the parameters in view.
pub open spec fn resolved(r: Result<Vec<ParamMeta>, Error>) -> Result<Seq<ParamModel>, Error> {
    match r {
        Ok(v) => Ok(params_of(v@)),
        Err(e) => Err(e),
    }
}

/// The parameters of a tool: those that it is registered with, or else those that a
/// comment names, or else those that the function itself declares.
pub fn resolve_param_meta<S: Fn(&str, bool) -> Result<Vec<String>, Error>>(
    name: &str,
    registered: bool,
    explicit_params: Option<&Vec<ParamMeta>>,
    comment_params: Option<&Vec<(String, String)>>,
    signature: &S,
) -> (r: Result<Vec<ParamMeta>, Error>)
    requires
        reads_all(*signature),
    ensures
        params_resolved(
            name@,
            registered,
            match explicit_params {
                Some(v) => Some(params_of(v@)),
                None => None,
            },
            match comment_params {
                Some(v) => Some(doc_comment::doc_params(v@)),
                None => None,
            },
            *signature,
            resolved(r),
        ),
{
    if let Some(params) = explicit_params {
        return Ok(clone_params(params));
    }
    if let Some(comment) = comment_params {
        if !comment.is_empty() {
            let ghost all = doc_comment::doc_params(comment@);
            let mut out: Vec<ParamMeta> = Vec::new();
            let mut i: usize = 0;
            while i < comment.len()
                invariant
                    i <= comment@.len(),
                    all == doc_comment::doc_params(comment@),
                    out@.len() == i,
                    forall|k: int|
                        0 <= k < i ==> (#[trigger] out@[k])@ == commented_params(all)[k],
                decreases comment@.len() - i,
            {
                let description = if comment[i].1.as_str().is_empty() {
                    None
                } else {
                    Some(comment[i].1.clone())
                };
                let p = bare(comment[i].0.clone(), description);
                proof {
                    assert(all[i as int] == (comment@[i as int].0@, comment@[i as int].1@));
                    assert(p@ == commented_params(all)[i as int]);
                }
                out.push(p);
                i += 1;
            }
            proof {
                assert(params_of(out@) =~= commented_params(all));
            }
            return Ok(out);
        }
    }
    let told = signature(name, registered);
    proof {
        assert(signed(*signature, name@, registered, told));
    }
    match told {
        Ok(names) => {
            let ghost all = text::texts(names@);
            let mut out: Vec<ParamMeta> = Vec::new();
            let mut i: usize = 0;
            while i < names.len()
                invariant
                    i <= names@.len(),
                    all == text::texts(names@),
                    out@.len() == i,
                    forall|k: int|
                        0 <= k < i ==> (#[trigger] out@[k])@ == signature_params(all)[k],
                decreases names@.len() - i,
            {
                let p = bare(names[i].clone(), None);
                proof {
                    assert(p@ == signature_params(all)[i as int]);
                }
                out.push(p);
                i += 1;
            }
            proof {
                assert(params_of(out@) =~= signature_params(all));
                assert(from_signature(
                    name@,
                    registered,
                    *signature,
                    Ok::<Seq<ParamModel>, Error>(params_of(out@)),
                ));
            }
            Ok(out)
        },
        Err(e) => {
            proof {
                assert(from_signature(
                    name@,
                    registered,
                    *signature,
                    Err::<Seq<ParamModel>, Error>(e),
                ));
            }
            Err(e)
        },
    }
}

// ---- Declarations ----

/// The schema of a parameter; it is a text where nothing else is said.
pub open spec fn param_schema(p: ParamModel) -> SchemaModel {
    SchemaModel {
        type_value: Some(
            match p.kind {
                Some(t) => t,
                None => "string"@,
            },
        ),
        description: p.description,
        enum_value: p.enum_values,
        ..function::blank_schema()
    }
}

/// Parameters with their schemas.
pub open spec fn param_properties(params: Seq<ParamModel>) -> Seq<(Seq<char>, SchemaModel)> {
    Seq::new(params.len(), |i: int| (params[i].name, param_schema(params[i])))
}

/// The names of the parameters that must be given.
pub open spec fn required_names(params: Seq<ParamModel>) -> Seq<Seq<char>>
    decreases params.len(),
{
    if params.len() == 0 {
        seq![]
    } else {
        let before = required_names(params.drop_last());
        if params.last().required {
            before.push(params.last().name)
        } else {
            before
        }
    }
}

/// A list, unless it is empty.
pub open spec fn unless_empty<T>(v: Seq<T>) -> Option<Seq<T>> {
    if v.len() == 0 {
        None
    } else {
        Some(v)
    }
}

/// The declaration of a tool with parameters; of two parameters with the same name,
/// the later counts.
pub open spec fn declaration(
    name: Seq<char>,
    description: Seq<char>,
    params: Seq<ParamModel>,
    agent: bool,
) -> DeclarationModel {
    DeclarationModel {
        name,
        description,
        parameters: SchemaModel {
            type_value: Some("object"@),
            properties: unless_empty(table::put_all(seq![], param_properties(params))),
            required: unless_empty(required_names(params)),
            ..function::blank_schema()
        },
        agent,
    }
}

/// The names of the properties in a declaration, in order.
pub open spec fn property_names(d: DeclarationModel) -> Seq<Seq<char>> {
    match d.parameters.properties {
        Some(p) => Seq::new(p.len(), |i: int| p[i].0),
        None => seq![],
    }
}

/// The properties in a declaration are the parameters, in order, where no two of these
/// bear the same name.
pub proof fn properties_are_the_parameters(
    name: Seq<char>,
    description: Seq<char>,
    params: Seq<ParamModel>,
    agent: bool,
)
    requires
        param_names(params).no_duplicates(),
    ensures
        property_names(declaration(name, description, params, agent)) == param_names(params),
{
    let entries = param_properties(params);
    assert forall|i: int, j: int| 0 <= i < j < entries.len() implies (#[trigger] entries[i]).0 != (
    #[trigger] entries[j]).0 by {
        assert(param_names(params)[i] != param_names(params)[j]);
    }
    table::put_all_distinct(entries);
    assert(property_names(declaration(name, description, params, agent)) =~= param_names(params));
}

/// What is required is one of the parameters.
proof fn required_are_params(params: Seq<ParamModel>, i: int)
    requires
        0 <= i < required_names(params).len(),
    ensures
        exists|j: int|
            0 <= j < params.len() && (#[trigger] params[j]).name == required_names(params)[i]
                && params[j].required,
    decreases params.len(),
{
    let before = params.drop_last();
    if i < required_names(before).len() {
        required_are_params(before, i);
        let j = choose|j: int|
            0 <= j < before.len() && (#[trigger] before[j]).name == required_names(before)[i]
                && before[j].required;
        assert(params[j].name == required_names(params)[i]);
    } else {
        assert(params[params.len() - 1].name == required_names(params)[i]);
    }
}

/// Everything that a declaration requires is among its properties.
pub proof fn required_are_properties(
    name: Seq<char>,
    description: Seq<char>,
    params: Seq<ParamModel>,
    agent: bool,
    i: int,
)
    requires
        declaration(name, description, params, agent).parameters.required matches Some(r) && 0 <= i
            < r.len(),
    ensures
        ({
            let schema = declaration(name, description, params, agent).parameters;
            schema.properties matches Some(p) && table::lookup(p, schema.required->0[i]) is Some
        }),
{
    required_are_params(params, i);
    let wanted = required_names(params)[i];
    let j = choose|j: int|
        0 <= j < params.len() && (#[trigger] params[j]).name == wanted && params[j].required;
    let entries = param_properties(params);
    assert(entries[j].0 == wanted);
    table::lookup_after_put_all(seq![], entries, wanted);
    assert(table::put_all(seq![], entries).len() > 0);
}

/// The schema of a parameter.
fn schema_of_param(p: &ParamMeta) -> (r: JsonSchema)
    ensures
        r@ == param_schema(p@),
{
    let kind = match &p.kind {
        Some(t) => t.clone(),
        None => "string".to_owned(),
    };
    let r = JsonSchema {
        type_value: Some(kind),
        description: p.description.clone(),
        properties: None,
        items: None,
        any_of: None,
        enum_value: text::clone_list(&p.enum_values),
        default: None,
        required: None,
    };
    proof {
        assert(r@ =~= param_schema(p@));
    }
    r
}

/// The declaration of a tool with parameters.
pub fn to_function_declaration(
    name: String,
    description: String,
    params: &Vec<ParamMeta>,
    agent: bool,
) -> (r: FunctionDeclaration)
    ensures
        r@ == declaration(name@, description@, params_of(params@), agent),
{
    let ghost all = params_of(params@);
    let ghost entries = param_properties(all);
    let mut properties = Properties::new();
    let mut required: Vec<String> = Vec::new();
    let mut i: usize = 0;
    proof {
        assert(all.take(0) =~= seq![]);
        assert(entries.take(0) =~= seq![]);
        assert(text::texts(required@) =~= seq![]);
    }
    while i < params.len()
        invariant
            i <= params@.len(),
            all == params_of(params@),
            entries == param_properties(all),
            properties@ == table::put_all(
                seq![],
                entries.take(i as int),
            ),
            text::texts(required@) == required_names(all.take(i as int)),
        decreases params@.len() - i,
    {
        let p = &params[i];
        proof {
            assert(all[i as int] == p@);
            assert(all.take(i + 1).drop_last() =~= all.take(i as int));
            assert(all.take(i + 1).last() == p@);
            assert(entries.take(i + 1).drop_last() =~= entries.take(i as int));
            assert(entries.take(i + 1).last() == (p@.name, param_schema(p@)));
            text::texts_push(required@, p.name);
        }
        if p.required {
            required.push(p.name.clone());
        }
        properties.insert(p.name.clone(), schema_of_param(p));
        i += 1;
    }
    proof {
        assert(all.take(i as int) =~= all);
        assert(entries.take(i as int) =~= entries);
    }
    let ghost listed = properties@;
    let ghost needed = text::texts(required@);
    let parameters = JsonSchema {
        type_value: Some("object".to_owned()),
        description: None,
        properties: if properties.is_empty() {
            None
        } else {
            Some(properties)
        },
        items: None,
        any_of: None,
        enum_value: None,
        default: None,
        required: if required.is_empty() {
            None
        } else {
            Some(required)
        },
    };
    proof {
        assert(parameters@.properties == unless_empty(listed));
        assert(parameters@.required == unless_empty(needed));
        assert(parameters@ =~= declaration(name@, description@, all, agent).parameters);
    }
    FunctionDeclaration { name, description, parameters, agent }
}

// ---- Arguments ----

/// The members of the arguments of a call; none where they are no object.
pub open spec fn argument_members(args: JsonModel) -> Seq<(Seq<char>, JsonModel)> {
    match args {
        JsonModel::Object(m) => m,
        _ => seq![],
    }
}

/// The argument under a name; `null` where it is not given.
pub open spec fn argument(m: Seq<(Seq<char>, JsonModel)>, name: Seq<char>) -> JsonModel {
    match table::lookup(m, name) {
        Some(v) => v,
        None => JsonModel::Null,
    }
}

/// The values of the first `n` members that are under none of some names.
pub open spec fn left_over(
    m: Seq<(Seq<char>, JsonModel)>,
    names: Seq<Seq<char>>,
    n: nat,
) -> Seq<LuaModel>
    decreases n,
{
    if n == 0 || n > m.len() {
        seq![]
    } else {
        let before = left_over(m, names, (n - 1) as nat);
        if names.contains(m[n - 1].0) {
            before
        } else {
            before.push(lua_value::to_lua(m[n - 1].1))
        }
    }
}

/// The arguments that a function in Lua is called with: those for its parameters,
/// in order, and behind them those that are left over.
pub open spec fn call_args(args: JsonModel, names: Seq<Seq<char>>) -> Seq<LuaModel> {
    let m = argument_members(args);
    Seq::new(names.len(), |i: int| lua_value::to_lua(argument(m, names[i]))) + left_over(
        m,
        names,
        m.len(),
    )
}

/// The values of a list.
pub open spec fn values_of(v: Seq<LuaValue>) -> Seq<LuaModel> {
    Seq::new(v.len(), |i: int| v[i]@)
}

/// The arguments that a function in Lua is called with.
pub fn build_call_args(args: &Value, param_order: &Vec<String>) -> (r: Vec<LuaValue>)
    ensures
        values_of(r@) == call_args(json::json_of(*args), text::texts(param_order@)),
{
    let ghost m = argument_members(json::json_of(*args));
    let ghost names = text::texts(param_order@);
    let ghost named = Seq::new(names.len(), |i: int| lua_value::to_lua(argument(m, names[i])));
    let mut out: Vec<LuaValue> = Vec::new();
    let mut i: usize = 0;
    proof {
        assert(values_of(out@) =~= named.take(0));
    }
    while i < param_order.len()
        invariant
            i <= param_order@.len(),
            names == text::texts(param_order@),
            m == argument_members(json::json_of(*args)),
            named == Seq::new(names.len(), |i: int| lua_value::to_lua(argument(m, names[i]))),
            values_of(out@) == named.take(i as int),
        decreases param_order@.len() - i,
    {
        let v = match json::get(args, param_order[i].as_str()) {
            Some(v) => lua_value::json_to_lua(v),
            None => LuaValue::Nil,
        };
        proof {
            assert(names[i as int] == param_order@[i as int]@);
            if !(json::json_of(*args) is Object) {
                assert(table::lookup(m, names[i as int]) is None);
            }
            assert(v@ == named[i as int]);
            assert(named.take(i + 1) =~= named.take(i as int).push(v@));
        }
        let ghost before = out@;
        out.push(v);
        proof {
            assert(values_of(out@) =~= values_of(before).push(v@));
        }
        i += 1;
    }
    proof {
        assert(named.take(i as int) =~= named);
    }
    match json::open_value(args) {
        JsonRef::Object(members) => {
            let mut k: usize = 0;
            proof {
                assert(m == json::borrowed_members(members@));
                assert(named + left_over(m, names, 0) =~= named);
            }
            while k < members.len()
                invariant
                    k <= members@.len(),
                    m == json::borrowed_members(members@),
                    names == text::texts(param_order@),
                    values_of(out@) == named + left_over(m, names, k as nat),
                decreases members@.len() - k,
            {
                let (key, value) = members[k];
                proof {
                    assert(m[k as int] == (key@, json::json_of(*value)));
                }
                if !text::is_among(param_order, key.as_str()) {
                    let v = lua_value::json_to_lua(value);
                    let ghost before = out@;
                    out.push(v);
                    proof {
                        assert(values_of(out@) =~= values_of(before).push(v@));
                        assert(named + left_over(m, names, (k + 1) as nat) =~= (named + left_over(
                            m,
                            names,
                            k as nat,
                        )).push(v@));
                    }
                }
                k += 1;
            }
        },
        _ => {
            proof {
                assert(m =~= seq![]);
                assert(named + left_over(m, names, 0) =~= named);
            }
        },
    }
    out
}

/// Nothing that a caller sends is dropped: the value of each member is among the
/// arguments.
pub proof fn every_argument_is_passed(args: JsonModel, names: Seq<Seq<char>>, i: int)
    requires
        table::distinct_keys(argument_members(args)),
        0 <= i < argument_members(args).len(),
    ensures
        call_args(args, names).contains(lua_value::to_lua(argument_members(args)[i].1)),
{
    let m = argument_members(args);
    let all = call_args(args, names);
    let wanted = lua_value::to_lua(m[i].1);
    if names.contains(m[i].0) {
        let k = choose|k: int| 0 <= k < names.len() && names[k] == m[i].0;
        table::lookup_at(m, i);
        assert(all[k] == wanted);
    } else {
        left_over_has(m, names, m.len(), i);
        let rest = left_over(m, names, m.len());
        let k = choose|k: int| 0 <= k < rest.len() && rest[k] == wanted;
        assert(all[names.len() + k] == wanted);
    }
}

/// A member that is under none of the names is left over.
proof fn left_over_has(m: Seq<(Seq<char>, JsonModel)>, names: Seq<Seq<char>>, n: nat, i: int)
    requires
        0 <= i < n <= m.len(),
        !names.contains(m[i].0),
    ensures
        left_over(m, names, n).contains(lua_value::to_lua(m[i].1)),
    decreases n,
{
    let before = left_over(m, names, (n - 1) as nat);
    let after = left_over(m, names, n);
    if i < n - 1 {
        left_over_has(m, names, (n - 1) as nat, i);
        let k = choose|k: int|
            0 <= k < before.len() && before[k] == lua_value::to_lua(m[i].1);
        assert(after[k] == before[k]);
    } else {
        assert(after[after.len() - 1] == lua_value::to_lua(m[i].1));
    }
}

/// A text as a value of Lua.
pub open spec fn lua_text(t: Seq<char>) -> LuaModel {
    LuaModel::Text(vstd::utf8::encode_utf8(t))
}

/// The table that comes behind the arguments: it holds the variables of the agent.
pub open spec fn ctx_table(envs: Seq<(Seq<char>, Seq<char>)>) -> LuaModel {
    LuaModel::Table(
        seq![
            (
                lua_text("env"@),
                LuaModel::Table(
                    Seq::new(envs.len(), |i: int| (lua_text(envs[i].0), lua_text(envs[i].1))),
                ),
            ),
        ],
    )
}

/// The table that comes behind the arguments.
pub fn build_ctx_table(envs: &Table<String>) -> (r: LuaValue)
    ensures
        r@ == ctx_table(table::texts_under(envs@)),
{
    let ghost all = table::texts_under(envs@);
    let mut pairs: Vec<(LuaValue, LuaValue)> = Vec::new();
    let mut i: usize = 0;
    while i < envs.len()
        invariant
            i <= envs@.len(),
            all == table::texts_under(envs@),
            pairs@.len() == i,
            forall|k: int|
                0 <= k < i ==> ((#[trigger] pairs@[k]).0@, pairs@[k].1@) == (
                    lua_text(all[k].0),
                    lua_text(all[k].1),
                ),
        decreases envs@.len() - i,
    {
        let (k, v) = envs.entry(i);
        proof {
            assert(all[i as int] == (k@, v@));
        }
        pairs.push(
            (
                LuaValue::Text(k.as_str().as_bytes_vec()),
                LuaValue::Text(v.as_str().as_bytes_vec()),
            ),
        );
        i += 1;
    }
    let inner = LuaValue::Table(pairs);
    let mut outer: Vec<(LuaValue, LuaValue)> = Vec::new();
    let key = LuaValue::Text("env".as_bytes_vec());
    proof {
        assert(key@ == lua_text("env"@));
    }
    outer.push((key, inner));
    let r = LuaValue::Table(outer);
    proof {
        assert(inner@->Table_0 =~= Seq::new(
            all.len(),
            |i: int| (lua_text(all[i].0), lua_text(all[i].1)),
        ));
        assert(inner@ == ctx_table(all)->Table_0[0].1);
        assert(r@->Table_0[0] == (lua_text("env"@), inner@));
        assert(r@->Table_0 =~= ctx_table(all)->Table_0);
    }
    r
}

// ---- What a tool's declaration and its calls say ----

/// Each parameter of a tool, required or not, is declared under its name with just
/// the values, the description and the type that it was given; the type is that of
/// a text where none was given. Where two have one name the last counts.
pub proof fn parameters_are_declared_as_given(
    name: Seq<char>,
    description: Seq<char>,
    params: Seq<ParamModel>,
    agent: bool,
    i: int,
)
    requires
        0 <= i < params.len(),
        forall|j: int| i < j < params.len() ==> (#[trigger] params[j]).name != params[i].name,
    ensures
        ({
            let p = params[i];
            let d = declaration(name, description, params, agent);
            &&& d.parameters.properties is Some
            &&& table::lookup(d.parameters.properties->0, p.name) is Some
            &&& ({
                let s = table::lookup(d.parameters.properties->0, p.name)->0;
                &&& s.enum_value == p.enum_values
                &&& s.description == p.description
                &&& p.kind is Some ==> s.type_value == p.kind
                &&& p.kind is None ==> s.type_value == Some("string"@)
                &&& s.properties is None && s.items is None && s.any_of is None && s.default is None
                    && s.required is None
            })
        }),
{
    let entries = param_properties(params);
    assert(entries[i] == (params[i].name, param_schema(params[i])));
    assert forall|j: int| i < j < entries.len() implies (#[trigger] entries[j]).0 != entries[i].0 by {
        assert(params[j].name != params[i].name);
    }
    table::last_put_counts(seq![], entries, i);
    table::lookup_finds(table::put_all(seq![], entries), params[i].name);
}

/// Only parameters are declared as properties, and those that must be given are the
/// required ones, in their order; without a parameter, or without a required one,
/// none are listed.
pub proof fn declarations_tell_the_tool(
    name: Seq<char>,
    description: Seq<char>,
    params: Seq<ParamModel>,
    agent: bool,
)
    ensures
        ({
            let d = declaration(name, description, params, agent);
            let needed = params.filter(|p: ParamModel| p.required);
            &&& d.name == name
            &&& d.description == description
            &&& d.agent == agent
            &&& d.parameters.type_value == Some("object"@)
            &&& d.parameters.required == (if needed.len() == 0 {
                None
            } else {
                Some(needed.map_values(|p: ParamModel| p.name))
            })
            &&& d.parameters.properties is None <==> params.len() == 0
            &&& d.parameters.properties is Some ==> forall|key: Seq<char>|
                #[trigger] table::lookup(d.parameters.properties->0, key) is Some
                    ==> param_names(params).contains(key)
            &&& d.parameters.description is None && d.parameters.items is None
                && d.parameters.any_of is None && d.parameters.enum_value is None
                && d.parameters.default is None
        }),
{
    let entries = param_properties(params);
    let all = table::put_all(seq![], entries);
    let needed = params.filter(|p: ParamModel| p.required);
    required_parameters_stay_in_order(params);
    assert(required_names(params).len() == needed.len());
    assert(params.len() > 0 ==> all.len() > 0) by {
        if params.len() > 0 {
            assert(entries[0].0 == params[0].name);
            table::lookup_after_put_all(seq![], entries, params[0].name);
        }
    }
    assert forall|key: Seq<char>| #[trigger] table::lookup(all, key) is Some implies param_names(
        params,
    ).contains(key) by {
        table::lookup_after_put_all(seq![], entries, key);
        let i = choose|i: int| 0 <= i < entries.len() && (#[trigger] entries[i]).0 == key;
        assert(param_names(params)[i] == key);
    }
}

/// The names of the required parameters are theirs, in the order of all parameters.
proof fn required_parameters_stay_in_order(params: Seq<ParamModel>)
    ensures
        required_names(params) == params.filter(|p: ParamModel| p.required).map_values(
            |p: ParamModel| p.name,
        ),
    decreases params.len(),
{
    reveal(Seq::filter);
    if params.len() > 0 {
        required_parameters_stay_in_order(params.drop_last());
        let needed = params.filter(|p: ParamModel| p.required);
        assert(required_names(params) =~= needed.map_values(|p: ParamModel| p.name));
    } else {
        assert(required_names(params) =~= params.filter(|p: ParamModel| p.required).map_values(
            |p: ParamModel| p.name,
        ));
    }
}

/// The parameters of a tool are those that it was registered with, one for each
/// entry and in their order: a name alone is a required parameter of which no more
/// is known, and of a table each field is taken as it is, with a parameter being
/// required unless it says that it is not.
pub proof fn parameters_are_read_as_registered(raw: Vec<RawParam>, i: int)
    requires
        registered_params(Some(raw)) is Ok,
        0 <= i < raw@.len(),
    ensures
        registered_params(Some(raw))->Ok_0 is Some,
        registered_params(Some(raw))->Ok_0->0.len() == raw@.len(),
        ({
            let p = registered_params(Some(raw))->Ok_0->0[i];
            match raw@[i] {
                RawParam::Name(name) => p.name == name@ && p.description is None && p.kind is None
                    && p.enum_values is None && p.required,
                RawParam::Fields { name, fields } => {
                    &&& name is Some && p.name == name->0@
                    &&& fields is Ok
                    &&& p.description == text::optional(fields->Ok_0.description)
                    &&& p.kind == text::optional(fields->Ok_0.kind)
                    &&& p.enum_values == text::optional_list(fields->Ok_0.enum_values)
                    &&& p.required == (fields->Ok_0.required != Some(false))
                },
                RawParam::Other => false,
            }
        }),
{
    entries_are_read_in_turn(raw@, raw@.len());
    assert(read_param(raw@[i], (i + 1) as u64) == Ok::<ParamModel, ErrorModel>(
        registered_params(Some(raw))->Ok_0->0[i],
    ));
}

/// Each entry is read by itself.
proof fn entries_are_read_in_turn(raw: Seq<RawParam>, n: nat)
    requires
        n <= raw.len(),
        read_params(raw, n) is Ok,
    ensures
        read_params(raw, n)->Ok_0.len() == n,
        forall|i: int|
            0 <= i < n ==> read_param(#[trigger] raw[i], (i + 1) as u64) == Ok::<
                ParamModel,
                ErrorModel,
            >(read_params(raw, n)->Ok_0[i]),
    decreases n,
{
    if n > 0 {
        entries_are_read_in_turn(raw, (n - 1) as nat);
        let before = read_params(raw, (n - 1) as nat)->Ok_0;
        let out = read_params(raw, n)->Ok_0;
        assert forall|i: int| 0 <= i < n implies read_param(#[trigger] raw[i], (i + 1) as u64)
            == Ok::<ParamModel, ErrorModel>(out[i]) by {
            if i < n - 1 {
                assert(out[i] == before[i]);
            }
        }
    }
}

/// A tool whose every entry can be read is registered, and one with an entry that
/// cannot be read is refused for the first such entry.
pub proof fn first_unreadable_parameter_is_refused(raw: Vec<RawParam>)
    requires
        raw@.len() <= u64::MAX,
    ensures
        (forall|i: int| 0 <= i < raw@.len() ==> read_param(#[trigger] raw@[i], (i + 1) as u64) is Ok)
            ==> registered_params(Some(raw)) is Ok,
        forall|i: int|
            0 <= i < raw@.len() && read_param(#[trigger] raw@[i], (i + 1) as u64) is Err && (
            forall|j: int|
                0 <= j < i ==> read_param(#[trigger] raw@[j], (j + 1) as u64) is Ok)
                ==> registered_params(Some(raw)) == Err::<Option<Seq<ParamModel>>, ErrorModel>(
                read_param(raw@[i], (i + 1) as u64)->Err_0,
            ),
{
    let all = raw@;
    assert forall|i: int|
        0 <= i < all.len() && read_param(#[trigger] all[i], (i + 1) as u64) is Err && (forall|j: int|
            0 <= j < i ==> read_param(#[trigger] all[j], (j + 1) as u64) is Ok)
        implies registered_params(Some(raw)) == Err::<Option<Seq<ParamModel>>, ErrorModel>(
        read_param(all[i], (i + 1) as u64)->Err_0,
    ) by {
        reading_stops_at(all, all.len(), i);
    }
    if forall|i: int| 0 <= i < all.len() ==> read_param(#[trigger] all[i], (i + 1) as u64) is Ok {
        all_entries_can_be_read(all, all.len());
    }
}

/// Where each of the first entries can be read, so can they all.
proof fn all_entries_can_be_read(raw: Seq<RawParam>, n: nat)
    requires
        n <= raw.len(),
        forall|i: int| 0 <= i < n ==> read_param(#[trigger] raw[i], (i + 1) as u64) is Ok,
    ensures
        read_params(raw, n) is Ok,
    decreases n,
{
    if n > 0 {
        all_entries_can_be_read(raw, (n - 1) as nat);
        assert(read_param(raw[n - 1], n as u64) is Ok);
    }
}

/// The first entry that cannot be read decides.
proof fn reading_stops_at(raw: Seq<RawParam>, n: nat, i: int)
    requires
        0 <= i < n <= raw.len(),
        read_param(raw[i], (i + 1) as u64) is Err,
        forall|j: int| 0 <= j < i ==> read_param(#[trigger] raw[j], (j + 1) as u64) is Ok,
    ensures
        read_params(raw, n) == Err::<Seq<ParamModel>, ErrorModel>(
            read_param(raw[i], (i + 1) as u64)->Err_0,
        ),
    decreases n,
{
    if n > i + 1 {
        reading_stops_at(raw, (n - 1) as nat, i);
    } else {
        all_entries_can_be_read(raw, i as nat);
    }
}

/// What a tool says of its parameters counts before what its comment says, and that
/// before its signature. A parameter of the comment has its description, one of the
/// signature has none, and either is required.
pub proof fn parameters_are_known_from_the_best_source<
    S: Fn(&str, bool) -> Result<Vec<String>, Error>,
>(
    name: Seq<char>,
    registered: bool,
    explicit: Option<Seq<ParamModel>>,
    comment: Option<Seq<(Seq<char>, Seq<char>)>>,
    signature: S,
    params: Seq<ParamModel>,
)
    requires
        params_resolved(
            name,
            registered,
            explicit,
            comment,
            signature,
            Ok::<Seq<ParamModel>, Error>(params),
        ),
    ensures
        explicit is Some ==> params == explicit->0,
        explicit is None && comment is Some && comment->0.len() > 0 ==> params.len()
            == comment->0.len() && forall|i: int|
            0 <= i < params.len() ==> {
                let p = #[trigger] params[i];
                &&& p.name == comment->0[i].0
                &&& comment->0[i].1.len() > 0 ==> p.description == Some(comment->0[i].1)
                &&& comment->0[i].1.len() == 0 ==> p.description is None
                &&& p.kind is None && p.enum_values is None && p.required
            },
        explicit is None && (comment is None || comment->0.len() == 0) ==> {
            &&& forall|i: int|
                0 <= i < params.len() ==> {
                    let p = #[trigger] params[i];
                    p.description is None && p.kind is None && p.enum_values is None && p.required
                }
            &&& exists|names: Vec<String>|
                text::texts(names@) == param_names(params) && #[trigger] signed(
                    signature,
                    name,
                    registered,
                    Ok::<Vec<String>, Error>(names),
                )
        },
{
    if documented_params(explicit, comment) is None {
        let out = choose|out: Result<Vec<String>, Error>| #[trigger]
            signed(signature, name, registered, out) && match out {
                Ok(names) => Ok::<Seq<ParamModel>, Error>(params) == Ok::<Seq<ParamModel>, Error>(
                    signature_params(text::texts(names@)),
                ),
                Err(e) => Ok::<Seq<ParamModel>, Error>(params) == Err::<Seq<ParamModel>, Error>(e),
            };
        assert(out is Ok);
        let names = out->Ok_0;
        assert(param_names(params) =~= text::texts(names@));
        assert(signed(signature, name, registered, Ok::<Vec<String>, Error>(names)));
    }
}

/// The argument under the name of a parameter is passed in its place, and nothing is
/// passed in the place of a parameter that has no argument. Arguments that no
/// parameter is named after follow, in their order.
pub proof fn arguments_go_to_their_parameters(
    m: Seq<(Seq<char>, JsonModel)>,
    names: Seq<Seq<char>>,
)
    requires
        table::distinct_keys(m),
    ensures
        ({
            let out = call_args(JsonModel::Object(m), names);
            &&& out.len() >= names.len()
            &&& forall|i: int, k: int|
                0 <= i < names.len() && 0 <= k < m.len() && m[k].0 == names[i]
                    ==> #[trigger] out[i] == lua_value::to_lua((#[trigger] m[k]).1)
            &&& forall|i: int|
                0 <= i < names.len() && (forall|k: int|
                    0 <= k < m.len() ==> (#[trigger] m[k]).0 != names[i]) ==> #[trigger] out[i] is Nil
            &&& out.skip(names.len() as int) == m.filter(
                |e: (Seq<char>, JsonModel)| !names.contains(e.0),
            ).map_values(|e: (Seq<char>, JsonModel)| lua_value::to_lua(e.1))
        }),
{
    let args = JsonModel::Object(m);
    let out = call_args(args, names);
    assert forall|i: int, k: int|
        0 <= i < names.len() && 0 <= k < m.len() && m[k].0 == names[i] implies #[trigger] out[i]
        == lua_value::to_lua((#[trigger] m[k]).1) by {
        table::lookup_at(m, k);
    }
    assert forall|i: int|
        0 <= i < names.len() && (forall|k: int|
            0 <= k < m.len() ==> (#[trigger] m[k]).0 != names[i]) implies #[trigger] out[i] is Nil by {
        table::lookup_finds(m, names[i]);
    }
    assert(m.take(m.len() as int) =~= m);
    others_stay_in_order(m, names, m.len());
    assert(out.skip(names.len() as int) =~= left_over(m, names, m.len()));
}

/// The arguments that no parameter is named after stay in their order.
proof fn others_stay_in_order(m: Seq<(Seq<char>, JsonModel)>, names: Seq<Seq<char>>, n: nat)
    requires
        n <= m.len(),
    ensures
        left_over(m, names, n) == m.take(n as int).filter(
            |e: (Seq<char>, JsonModel)| !names.contains(e.0),
        ).map_values(|e: (Seq<char>, JsonModel)| lua_value::to_lua(e.1)),
    decreases n,
{
    reveal(Seq::filter);
    let kept = m.take(n as int).filter(|e: (Seq<char>, JsonModel)| !names.contains(e.0));
    if n > 0 {
        others_stay_in_order(m, names, (n - 1) as nat);
        assert(m.take(n as int).drop_last() =~= m.take(n - 1));
        assert(m.take(n as int).last() == m[n - 1]);
    } else {
        assert(m.take(0).len() == 0);
    }
    assert(left_over(m, names, n) =~= kept.map_values(
        |e: (Seq<char>, JsonModel)| lua_value::to_lua(e.1),
    ));
}

/// Arguments that are no object are none: every parameter is left without one.
pub proof fn other_arguments_are_none(args: JsonModel, names: Seq<Seq<char>>)
    requires
        !(args is Object),
    ensures
        call_args(args, names).len() == names.len(),
        forall|i: int| 0 <= i < names.len() ==> (#[trigger] call_args(args, names)[i]) is Nil,
{
}

/// What a tool is told of its surroundings is a table of tables: under `env`, each
/// variable under its name with its value, and nothing else.
pub proof fn tools_are_told_their_variables(envs: Seq<(Seq<char>, Seq<char>)>)
    ensures
        ({
            let ctx = ctx_table(envs);
            &&& ctx is Table && ctx->Table_0.len() == 1
            &&& ctx->Table_0[0].0 == LuaModel::Text(vstd::utf8::encode_utf8("env"@))
            &&& ctx->Table_0[0].1 is Table && ctx->Table_0[0].1->Table_0.len() == envs.len()
            &&& forall|i: int|
                0 <= i < envs.len() ==> ctx->Table_0[0].1->Table_0[i] == (
                    LuaModel::Text(vstd::utf8::encode_utf8((#[trigger] envs[i]).0)),
                    LuaModel::Text(vstd::utf8::encode_utf8(envs[i].1)),
                )
        }),
{
}

/// A script is a file whose name ends with `.lua` and has something before that.
pub proof fn scripts_are_named_for_lua(e: DirEntry)
    ensures
        is_script(e) <==> e.is_file && exists|stem: Seq<char>|
            stem.len() > 0 && e.name@ == #[trigger] (stem + ".lua"@),
{
    let ending = ".lua"@;
    if is_script(e) {
        let stem = text::without_suffix(e.name@, ending)->0;
        assert(e.name@ =~= stem + ending);
    }
    if exists|stem: Seq<char>| stem.len() > 0 && e.name@ == #[trigger] (stem + ending) {
        let stem = choose|stem: Seq<char>| stem.len() > 0 && e.name@ == #[trigger] (stem + ending);
        text::prefixes_and_suffixes_come_off(stem, ending);
    }
}

/// The scripts of a directory are all of its entries that are scripts.
pub proof fn scripts_are_all_found(entries: Seq<DirEntry>)
    ensures
        script_names(entries) == entries.filter(|e: DirEntry| is_script(e)).map_values(
            |e: DirEntry| e.name@,
        ),
        any_script(entries) <==> script_names(entries).len() > 0,
    decreases entries.len(),
{
    reveal(Seq::filter);
    let kept = entries.filter(|e: DirEntry| is_script(e));
    if entries.len() > 0 {
        let before = entries.drop_last();
        scripts_are_all_found(before);
        if any_script(before) {
            let i = choose|i: int| 0 <= i < before.len() && is_script(#[trigger] before[i]);
            assert(entries[i] == before[i]);
        }
        if is_script(entries.last()) {
            assert(entries[entries.len() - 1] == entries.last());
        }
        if any_script(entries) && !is_script(entries.last()) {
            let i = choose|i: int| 0 <= i < entries.len() && is_script(#[trigger] entries[i]);
            assert(before[i] == entries[i]);
        }
    }
    assert(script_names(entries) =~= kept.map_values(|e: DirEntry| e.name@));
}

} // verus!
