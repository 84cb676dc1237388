//! Finding and calling functions that are written in Lua.

use serde_json::Value;
use vstd::prelude::*;

use crate::doc_comment;
use crate::doc_comment::{DocModel, ParsedDocComment};
use crate::error::Error;
use crate::function;
use crate::function::{DeclarationModel, FunctionDeclaration};
use crate::json;
use crate::json::JsonModel;
use crate::lua_tool;
use crate::lua_tool::{ParamMeta, ParamModel, RegisteredTool, Registry, ToolModel};
use crate::lua_value;
use crate::lua_value::{LuaModel, LuaValue};
use crate::prompt;
use crate::table;
use crate::table::Table;
use crate::text;

verus! {

// ---- What the scripts say ----

/// `f` can be asked for every name.
pub open spec fn tells_all<T, F: Fn(&str) -> Result<T, Error>>(f: F) -> bool {
    forall|name: &str| call_requires(f, (name,))
}

/// `f` and `g` tell the same of a name, whenever they are asked.
pub open spec fn tell_alike<T, F: Fn(&str) -> Result<T, Error>, G: Fn(&str) -> Result<T, Error>>(
    f: F,
    g: G,
    name: Seq<char>,
) -> bool {
    forall|a: Result<T, Error>, b: Result<T, Error>|
        #![trigger told(f, name, a), told(g, name, b)]
        told(f, name, a) && told(g, name, b) ==> a == b
}

/// `s` and `t` tell the same parameters of a function, whenever they are asked.
pub open spec fn read_alike<
    S: Fn(&str, bool) -> Result<Vec<String>, Error>,
    T: Fn(&str, bool) -> Result<Vec<String>, Error>,
>(s: S, t: T, name: Seq<char>, registered: bool) -> bool {
    forall|a: Result<Vec<String>, Error>, b: Result<Vec<String>, Error>|
        #![trigger lua_tool::signed(s, name, registered, a), lua_tool::signed(t, name, registered, b)]
        lua_tool::signed(s, name, registered, a) && lua_tool::signed(t, name, registered, b)
            ==> match (a, b) {
            (Ok(x), Ok(y)) => text::texts(x@) == text::texts(y@),
            (Err(x), Err(y)) => x == y,
            _ => false,
        }
}

/// `out` is what `f` tells of a name.
pub open spec fn told<T, F: Fn(&str) -> Result<T, Error>>(
    f: F,
    name: Seq<char>,
    out: Result<T, Error>,
) -> bool {
    exists|n: &str| n@ == name && #[trigger] call_ensures(f, (n,), out)
}

/// The parameters that the comment of a function names, where it has one.
pub open spec fn comment_params(comments: Seq<(Seq<char>, DocModel)>, name: Seq<char>) -> Option<
    Seq<(Seq<char>, Seq<char>)>,
> {
    match table::lookup(comments, name) {
        Some(d) => Some(d.params),
        None => None,
    }
}

/// The description in the comment of a function, where it has one.
pub open spec fn comment_description(
    comments: Seq<(Seq<char>, DocModel)>,
    name: Seq<char>,
) -> Option<Seq<char>> {
    match table::lookup(comments, name) {
        Some(d) => d.description,
        None => None,
    }
}

/// The comment of a function, where it has one.
fn find_comment<'a>(comments: &'a Table<ParsedDocComment>, name: &str) -> (r: Option<
    &'a ParsedDocComment,
>)
    ensures
        match r {
            Some(d) => table::lookup(doc_comment::docs_under(comments@), name@) == Some(d@),
            None => table::lookup(doc_comment::docs_under(comments@), name@) is None,
        },
{
    proof {
        table::mapped_lookup(comments@, name@, |d: ParsedDocComment| d@);
    }
    comments.get(name)
}

/// The parameters of a tool.
fn tool_params<S: Fn(&str, bool) -> Result<Vec<String>, Error>>(
    name: &str,
    tool: Option<&RegisteredTool>,
    comments: &Table<ParsedDocComment>,
    signature: &S,
) -> (r: Result<Vec<ParamMeta>, Error>)
    requires
        lua_tool::reads_all(*signature),
    ensures
        lua_tool::params_resolved(
            name@,
            tool is Some,
            explicit_params(match tool {
                Some(t) => Some(t@),
                None => None,
            }),
            comment_params(doc_comment::docs_under(comments@), name@),
            *signature,
            lua_tool::resolved(r),
        ),
{
    let explicit = match tool {
        Some(t) => match &t.params {
            Some(p) => Some(p),
            None => None,
        },
        None => None,
    };
    let comment = match find_comment(comments, name) {
        Some(d) => Some(&d.params),
        None => None,
    };
    lua_tool::resolve_param_meta(name, tool.is_some(), explicit, comment, signature)
}

/// The parameters that a tool is registered with.
pub open spec fn explicit_params(tool: Option<ToolModel>) -> Option<Seq<ParamModel>> {
    match tool {
        Some(t) => t.params,
        None => None,
    }
}

// ---- Discovery ----

/// How declaring a tool that is registered ends.
pub open spec fn tool_declared<S: Fn(&str, bool) -> Result<Vec<String>, Error>>(
    name: Seq<char>,
    tool: ToolModel,
    comments: Seq<(Seq<char>, DocModel)>,
    agent: bool,
    signature: S,
    out: Result<DeclarationModel, Error>,
) -> bool {
    exists|p: Result<Seq<ParamModel>, Error>| #[trigger]
        lua_tool::params_resolved(
            name,
            true,
            tool.params,
            comment_params(comments, name),
            signature,
            p,
        ) && match p {
            Ok(params) => out == Ok::<DeclarationModel, Error>(
                lua_tool::declaration(
                    name,
                    match tool.description {
                        Some(d) => d,
                        None => seq![],
                    },
                    params,
                    agent,
                ),
            ),
            Err(e) => out == Err::<DeclarationModel, Error>(e),
        }
}

/// The description of a function that is shown with a call: the one that is written
/// down for it, or else that in its comment.
pub open spec fn description_of(
    written: Option<Seq<char>>,
    comments: Seq<(Seq<char>, DocModel)>,
    name: Seq<char>,
) -> Option<Seq<char>> {
    match written {
        Some(d) => Some(d),
        None => comment_description(comments, name),
    }
}

/// The description of a function that is declared: the one that is written down for
/// it, or else that in its comment, which is empty where the comment has none. A
/// function with neither is not documented.
pub open spec fn declared_description(
    written: Option<Seq<char>>,
    comments: Seq<(Seq<char>, DocModel)>,
    name: Seq<char>,
) -> Option<Seq<char>> {
    match written {
        Some(d) => Some(d),
        None => match table::lookup(comments, name) {
            Some(c) => Some(
                match c.description {
                    Some(d) => d,
                    None => seq![],
                },
            ),
            None => None,
        },
    }
}

/// How declaring a function with a description ends.
pub open spec fn described_declared<S: Fn(&str, bool) -> Result<Vec<String>, Error>>(
    name: Seq<char>,
    description: Seq<char>,
    comments: Seq<(Seq<char>, DocModel)>,
    agent: bool,
    signature: S,
    out: Result<Option<DeclarationModel>, Error>,
) -> bool {
    exists|p: Result<Seq<ParamModel>, Error>| #[trigger]
        lua_tool::params_resolved(
            name,
            false,
            None,
            comment_params(comments, name),
            signature,
            p,
        ) && match p {
            Ok(params) => out == Ok::<Option<DeclarationModel>, Error>(
                Some(lua_tool::declaration(name, description, params, agent)),
            ),
            Err(e) => out == Err::<Option<DeclarationModel>, Error>(e),
        }
}

/// How declaring a function ends: one that is not documented is not declared.
pub open spec fn function_declared<
    D: Fn(&str) -> Result<Option<String>, Error>,
    S: Fn(&str, bool) -> Result<Vec<String>, Error>,
>(
    name: Seq<char>,
    comments: Seq<(Seq<char>, DocModel)>,
    agent: bool,
    doc: D,
    signature: S,
    out: Result<Option<DeclarationModel>, Error>,
) -> bool {
    exists|written: Result<Option<String>, Error>| #[trigger]
        told(doc, name, written) && match written {
            Err(e) => out == Err::<Option<DeclarationModel>, Error>(e),
            Ok(w) => match declared_description(text::optional(w), comments, name) {
                None => out == Ok::<Option<DeclarationModel>, Error>(None),
                Some(d) => described_declared(name, d, comments, agent, signature, out),
            },
        }
}

/// How declaring what stands under a name ends: what is no function is not
/// declared.
pub open spec fn global_declared<
    I: Fn(&str) -> Result<bool, Error>,
    D: Fn(&str) -> Result<Option<String>, Error>,
    S: Fn(&str, bool) -> Result<Vec<String>, Error>,
>(
    name: Seq<char>,
    comments: Seq<(Seq<char>, DocModel)>,
    agent: bool,
    is_function: I,
    doc: D,
    signature: S,
    out: Result<Option<DeclarationModel>, Error>,
) -> bool {
    exists|f: Result<bool, Error>| #[trigger]
        told(is_function, name, f) && match f {
            Err(e) => out == Err::<Option<DeclarationModel>, Error>(e),
            Ok(false) => out == Ok::<Option<DeclarationModel>, Error>(None),
            Ok(true) => function_declared(name, comments, agent, doc, signature, out),
        }
}

/// How declaring what stands under a name ends; a tool that is registered is
/// already declared.
pub open spec fn candidate_declared<
    I: Fn(&str) -> Result<bool, Error>,
    D: Fn(&str) -> Result<Option<String>, Error>,
    S: Fn(&str, bool) -> Result<Vec<String>, Error>,
>(
    name: Seq<char>,
    registry: Seq<(Seq<char>, ToolModel)>,
    comments: Seq<(Seq<char>, DocModel)>,
    agent: bool,
    is_function: I,
    doc: D,
    signature: S,
    out: Result<Option<DeclarationModel>, Error>,
) -> bool {
    if table::lookup(registry, name) is Some {
        out == Ok::<Option<DeclarationModel>, Error>(None)
    } else {
        global_declared(name, comments, agent, is_function, doc, signature, out)
    }
}

/// The texts among the keys of a table.
pub open spec fn key_texts(keys: Seq<LuaModel>) -> Seq<Seq<char>>
    decreases keys.len(),
{
    if keys.len() == 0 {
        seq![]
    } else {
        let before = key_texts(keys.drop_last());
        match keys.last() {
            LuaModel::Text(bytes) => before.push(lua_value::text_of(bytes)),
            _ => before,
        }
    }
}

/// A name is documented: by a comment, or in the table of descriptions.
pub open spec fn is_documented(
    comments: Seq<(Seq<char>, DocModel)>,
    keys: Seq<LuaModel>,
    name: Seq<char>,
) -> bool {
    table::lookup(comments, name) is Some || key_texts(keys).contains(name)
}

/// `names` are the names that are documented, each once and in order.
pub open spec fn are_candidates(
    comments: Seq<(Seq<char>, DocModel)>,
    keys: Seq<LuaModel>,
    names: Seq<Seq<char>>,
) -> bool {
    &&& text::in_order(names)
    &&& names.no_duplicates()
    &&& forall|t: Seq<char>| #[trigger] names.contains(t) <==> is_documented(comments, keys, t)
}

/// Appends a name, unless it is there.
fn add_name(names: &mut Vec<String>, name: String)
    requires
        text::texts(old(names)@).no_duplicates(),
    ensures
        text::texts(final(names)@).no_duplicates(),
        forall|t: Seq<char>| #[trigger]
            text::texts(final(names)@).contains(t) <==> text::texts(old(names)@).contains(t) || t
                == name@,
{
    let ghost before = text::texts(names@);
    let mut i: usize = 0;
    while i < names.len()
        invariant
            i <= names@.len(),
            names@ == old(names)@,
            before == text::texts(names@),
            before.no_duplicates(),
            forall|k: int| 0 <= k < i ==> (#[trigger] before[k]) != name@,
        decreases names@.len() - i,
    {
        if text::same_text(names[i].as_str(), name.as_str()) {
            proof {
                assert(before[i as int] == name@);
            }
            return ;
        }
        i += 1;
    }
    names.push(name);
    proof {
        text::texts_push(old(names)@, name);
        let after = before.push(name@);
        assert(text::texts(names@) == after);
        assert forall|t: Seq<char>| #[trigger] after.contains(t) <==> before.contains(t) || t
            == name@ by {
            if before.contains(t) {
                let k = choose|k: int| 0 <= k < before.len() && before[k] == t;
                assert(after[k] == t);
            }
            if t == name@ {
                assert(after[before.len() as int] == t);
            }
            if after.contains(t) {
                let k = choose|k: int| 0 <= k < after.len() && after[k] == t;
                if k < before.len() {
                    assert(before[k] == t);
                }
            }
        }
    }
}

/// The names that are documented, each once and in order.
pub fn candidate_names(comments: &Table<ParsedDocComment>, keys: &Vec<LuaValue>) -> (r: Vec<String>)
    ensures
        are_candidates(
            doc_comment::docs_under(comments@),
            lua_tool::values_of(keys@),
            text::texts(r@),
        ),
{
    let ghost docs = doc_comment::docs_under(comments@);
    let ghost all = lua_tool::values_of(keys@);
    let mut names: Vec<String> = Vec::new();
    let mut i: usize = 0;
    proof {
        assert(text::texts(names@) =~= seq![]);
        assert(docs.take(0) =~= seq![]);
    }
    while i < comments.len()
        invariant
            i <= comments@.len(),
            docs == doc_comment::docs_under(comments@),
            text::texts(names@).no_duplicates(),
            forall|t: Seq<char>| #[trigger]
                text::texts(names@).contains(t) <==> exists|k: int|
                    0 <= k < i && (#[trigger] docs[k]).0 == t,
        decreases comments@.len() - i,
    {
        let (name, _) = comments.entry(i);
        let ghost before = text::texts(names@);
        proof {
            assert(docs[i as int].0 == name@);
        }
        add_name(&mut names, name.clone());
        proof {
            let after = text::texts(names@);
            assert forall|t: Seq<char>| #[trigger] after.contains(t) <==> exists|k: int|
                0 <= k < i + 1 && (#[trigger] docs[k]).0 == t by {
                if before.contains(t) {
                    let k = choose|k: int| 0 <= k < i && (#[trigger] docs[k]).0 == t;
                    assert(docs[k].0 == t);
                }
                if exists|k: int| 0 <= k < i + 1 && (#[trigger] docs[k]).0 == t {
                    let k = choose|k: int| 0 <= k < i + 1 && (#[trigger] docs[k]).0 == t;
                    if k < i {
                        assert(before.contains(t));
                    }
                }
            }
        }
        i += 1;
    }
    proof {
        assert forall|t: Seq<char>| #[trigger]
            text::texts(names@).contains(t) <==> table::lookup(docs, t) is Some by {
            table::lookup_finds(docs, t);
        }
        assert(all.take(0) =~= seq![]);
    }
    let mut k: usize = 0;
    while k < keys.len()
        invariant
            k <= keys@.len(),
            all == lua_tool::values_of(keys@),
            text::texts(names@).no_duplicates(),
            forall|t: Seq<char>| #[trigger]
                text::texts(names@).contains(t) <==> table::lookup(docs, t) is Some || key_texts(
                    all.take(k as int),
                ).contains(t),
        decreases keys@.len() - k,
    {
        proof {
            assert(all.take(k + 1).drop_last() =~= all.take(k as int));
            assert(all.take(k + 1).last() == keys@[k as int]@);
        }
        let ghost listed = key_texts(all.take(k as int));
        let ghost before = text::texts(names@);
        if let Some(name) = lua_value::key_name(&keys[k]) {
            add_name(&mut names, name);
            proof {
                let after = text::texts(names@);
                assert forall|t: Seq<char>| #[trigger]
                    after.contains(t) <==> table::lookup(docs, t) is Some || listed.push(
                        name@,
                    ).contains(t) by {
                    pushed_contains(listed, name@, t);
                    assert(before.contains(t) <==> table::lookup(docs, t) is Some
                        || listed.contains(t));
                }
            }
        }
        k += 1;
    }
    proof {
        assert(all.take(k as int) =~= all);
    }
    let ghost found = text::texts(names@);
    let sorted = text::sort_texts(names);
    proof {
        let r = text::texts(sorted@);
        same_multiset(found, r);
    }
    sorted
}

/// What a list with one more at its end holds.
proof fn pushed_contains(v: Seq<Seq<char>>, x: Seq<char>, t: Seq<char>)
    ensures
        v.push(x).contains(t) <==> v.contains(t) || t == x,
{
    if v.contains(t) {
        let k = choose|k: int| 0 <= k < v.len() && v[k] == t;
        assert(v.push(x)[k] == t);
    }
    if t == x {
        assert(v.push(x)[v.len() as int] == t);
    }
    if v.push(x).contains(t) {
        let k = choose|k: int| 0 <= k < v.push(x).len() && v.push(x)[k] == t;
        if k < v.len() {
            assert(v[k] == t);
        }
    }
}

/// Lists with the same elements, counted, hold the same, and both or neither hold
/// something twice.
proof fn same_multiset(a: Seq<Seq<char>>, b: Seq<Seq<char>>)
    requires
        a.to_multiset() == b.to_multiset(),
        a.no_duplicates(),
    ensures
        b.no_duplicates(),
        forall|t: Seq<char>| #[trigger] b.contains(t) <==> a.contains(t),
{
    a.lemma_multiset_has_no_duplicates();
    b.lemma_multiset_has_no_duplicates_conv();
    assert forall|t: Seq<char>| #[trigger] b.contains(t) <==> a.contains(t) by {
        vstd::seq_lib::to_multiset_contains(a, t);
        vstd::seq_lib::to_multiset_contains(b, t);
    }
}

/// The declarations that were made.
pub open spec fn made(picks: Seq<Option<DeclarationModel>>) -> Seq<DeclarationModel>
    decreases picks.len(),
{
    if picks.len() == 0 {
        seq![]
    } else {
        let before = made(picks.drop_last());
        match picks.last() {
            Some(d) => before.push(d),
            None => before,
        }
    }
}

/// `out` are the declarations of the tools that are registered, in order.
pub open spec fn tools_declared<S: Fn(&str, bool) -> Result<Vec<String>, Error>>(
    registry: Seq<(Seq<char>, ToolModel)>,
    comments: Seq<(Seq<char>, DocModel)>,
    agent: bool,
    signature: S,
    out: Seq<DeclarationModel>,
) -> bool {
    &&& out.len() == registry.len()
    &&& forall|i: int|
        0 <= i < registry.len() ==> tool_declared(
            registry[i].0,
            registry[i].1,
            comments,
            agent,
            signature,
            Ok::<DeclarationModel, Error>(#[trigger] out[i]),
        )
}

/// `picks` are the declarations of the functions that are documented, in order;
/// `None` where there is no function to declare.
pub open spec fn candidates_declared<
    I: Fn(&str) -> Result<bool, Error>,
    D: Fn(&str) -> Result<Option<String>, Error>,
    S: Fn(&str, bool) -> Result<Vec<String>, Error>,
>(
    names: Seq<Seq<char>>,
    registry: Seq<(Seq<char>, ToolModel)>,
    comments: Seq<(Seq<char>, DocModel)>,
    agent: bool,
    is_function: I,
    doc: D,
    signature: S,
    picks: Seq<Option<DeclarationModel>>,
) -> bool {
    &&& picks.len() == names.len()
    &&& forall|i: int|
        0 <= i < names.len() ==> candidate_declared(
            names[i],
            registry,
            comments,
            agent,
            is_function,
            doc,
            signature,
            Ok::<Option<DeclarationModel>, Error>(#[trigger] picks[i]),
        )
}

/// `out` are the declarations of everything that scripts offer: the tools that are
/// registered, in that order, and then the functions that are documented, in
/// alphabetical order.
pub open spec fn discovered<
    I: Fn(&str) -> Result<bool, Error>,
    D: Fn(&str) -> Result<Option<String>, Error>,
    S: Fn(&str, bool) -> Result<Vec<String>, Error>,
>(
    registry: Seq<(Seq<char>, ToolModel)>,
    comments: Seq<(Seq<char>, DocModel)>,
    keys: Seq<LuaModel>,
    agent: bool,
    is_function: I,
    doc: D,
    signature: S,
    out: Seq<DeclarationModel>,
) -> bool {
    exists|
        tools: Seq<DeclarationModel>,
        names: Seq<Seq<char>>,
        picks: Seq<Option<DeclarationModel>>,
    |
        {
            &&& #[trigger] tools_declared(registry, comments, agent, signature, tools)
            &&& are_candidates(comments, keys, names)
            &&& #[trigger] candidates_declared(
                names,
                registry,
                comments,
                agent,
                is_function,
                doc,
                signature,
                picks,
            )
            &&& out == tools + made(picks)
        }
}

/// `e` came up while a tool that is registered was declared; those before it were
/// declared.
pub open spec fn tools_failed<S: Fn(&str, bool) -> Result<Vec<String>, Error>>(
    registry: Seq<(Seq<char>, ToolModel)>,
    comments: Seq<(Seq<char>, DocModel)>,
    agent: bool,
    signature: S,
    e: Error,
) -> bool {
    exists|before: Seq<DeclarationModel>|
        {
            &&& before.len() < registry.len()
            &&& #[trigger] tools_declared(
                registry.take(before.len() as int),
                comments,
                agent,
                signature,
                before,
            )
            &&& tool_declared(
                registry[before.len() as int].0,
                registry[before.len() as int].1,
                comments,
                agent,
                signature,
                Err::<DeclarationModel, Error>(e),
            )
        }
}

/// `e` came up while a function that is documented was declared; every tool that is
/// registered, and every name before it in order, was dealt with.
pub open spec fn candidates_failed<
    I: Fn(&str) -> Result<bool, Error>,
    D: Fn(&str) -> Result<Option<String>, Error>,
    S: Fn(&str, bool) -> Result<Vec<String>, Error>,
>(
    registry: Seq<(Seq<char>, ToolModel)>,
    comments: Seq<(Seq<char>, DocModel)>,
    keys: Seq<LuaModel>,
    agent: bool,
    is_function: I,
    doc: D,
    signature: S,
    e: Error,
) -> bool {
    exists|
        tools: Seq<DeclarationModel>,
        names: Seq<Seq<char>>,
        picks: Seq<Option<DeclarationModel>>,
    |
        {
            &&& #[trigger] tools_declared(registry, comments, agent, signature, tools)
            &&& #[trigger] are_candidates(comments, keys, names)
            &&& picks.len() < names.len()
            &&& #[trigger] candidates_declared(
                names.take(picks.len() as int),
                registry,
                comments,
                agent,
                is_function,
                doc,
                signature,
                picks,
            )
            &&& candidate_declared(
                names[picks.len() as int],
                registry,
                comments,
                agent,
                is_function,
                doc,
                signature,
                Err::<Option<DeclarationModel>, Error>(e),
            )
        }
}

/// `e` is the first error that came up while what scripts offer was declared.
pub open spec fn discovery_failed<
    I: Fn(&str) -> Result<bool, Error>,
    D: Fn(&str) -> Result<Option<String>, Error>,
    S: Fn(&str, bool) -> Result<Vec<String>, Error>,
>(
    registry: Seq<(Seq<char>, ToolModel)>,
    comments: Seq<(Seq<char>, DocModel)>,
    keys: Seq<LuaModel>,
    agent: bool,
    is_function: I,
    doc: D,
    signature: S,
    e: Error,
) -> bool {
    ||| tools_failed(registry, comments, agent, signature, e)
    ||| candidates_failed(registry, comments, keys, agent, is_function, doc, signature, e)
}

/// Declares a tool that is registered.
fn declare_tool<S: Fn(&str, bool) -> Result<Vec<String>, Error>>(
    name: &str,
    tool: &RegisteredTool,
    comments: &Table<ParsedDocComment>,
    agent: bool,
    signature: &S,
) -> (r: Result<FunctionDeclaration, Error>)
    requires
        lua_tool::reads_all(*signature),
    ensures
        tool_declared(
            name@,
            tool@,
            doc_comment::docs_under(comments@),
            agent,
            *signature,
            match r {
                Ok(d) => Ok::<DeclarationModel, Error>(d@),
                Err(e) => Err::<DeclarationModel, Error>(e),
            },
        ),
{
    let description = match &tool.description {
        Some(d) => d.clone(),
        None => String::new(),
    };
    proof {
        if tool.description is None {
            assert(description@ =~= seq![]);
        }
    }
    let params = tool_params(name, Some(tool), comments, signature);
    let ghost p = lua_tool::resolved(params);
    proof {
        assert(lua_tool::params_resolved(
            name@,
            true,
            tool@.params,
            comment_params(doc_comment::docs_under(comments@), name@),
            *signature,
            p,
        ));
    }
    match params {
        Ok(v) => Ok(lua_tool::to_function_declaration(name.to_owned(), description, &v, agent)),
        Err(e) => Err(e),
    }
}

/// The result with the declaration in view.
pub open spec fn picked(r: Result<Option<FunctionDeclaration>, Error>) -> Result<
    Option<DeclarationModel>,
    Error,
> {
    match r {
        Ok(Some(d)) => Ok(Some(d@)),
        Ok(None) => Ok(None),
        Err(e) => Err(e),
    }
}

/// Declares what stands under a name, where it is a function that is documented.
fn declare_global<
    I: Fn(&str) -> Result<bool, Error>,
    D: Fn(&str) -> Result<Option<String>, Error>,
    S: Fn(&str, bool) -> Result<Vec<String>, Error>,
>(
    name: &str,
    comments: &Table<ParsedDocComment>,
    agent: bool,
    is_function: &I,
    doc: &D,
    signature: &S,
) -> (r: Result<Option<FunctionDeclaration>, Error>)
    requires
        tells_all(*is_function),
        tells_all(*doc),
        lua_tool::reads_all(*signature),
    ensures
        global_declared(
            name@,
            doc_comment::docs_under(comments@),
            agent,
            *is_function,
            *doc,
            *signature,
            picked(r),
        ),
{
    let ghost docs = doc_comment::docs_under(comments@);
    let found = is_function(name);
    proof {
        assert(told(*is_function, name@, found));
    }
    match found {
        Err(e) => {
            return Err(e);
        },
        Ok(yes) => {
            if !yes {
                return Ok(None);
            }
        },
    }
    let written = doc(name);
    proof {
        assert(told(*doc, name@, written));
    }
    let given = match written {
        Err(e) => {
            let r = Err(e);
            proof {
                assert(function_declared(name@, docs, agent, *doc, *signature, picked(r)));
            }
            return r;
        },
        Ok(w) => w,
    };
    let described = match given {
        Some(d) => Some(d),
        None => match find_comment(comments, name) {
            Some(c) => match &c.description {
                Some(d) => Some(d.clone()),
                None => {
                    let empty = String::new();
                    proof {
                        assert(empty@ =~= seq![]);
                    }
                    Some(empty)
                },
            },
            None => None,
        },
    };
    proof {
        assert(text::optional(described) == declared_description(
            text::optional(given),
            docs,
            name@,
        ));
    }
    let description = match described {
        Some(d) => d,
        None => {
            let r = Ok(None);
            proof {
                assert(function_declared(name@, docs, agent, *doc, *signature, picked(r)));
            }
            return r;
        },
    };
    let params = tool_params(name, None, comments, signature);
    let ghost p = lua_tool::resolved(params);
    proof {
        assert(lua_tool::params_resolved(
            name@,
            false,
            None,
            comment_params(docs, name@),
            *signature,
            p,
        ));
    }
    let ghost d = description@;
    let r = match params {
        Ok(v) => Ok(
            Some(lua_tool::to_function_declaration(name.to_owned(), description, &v, agent)),
        ),
        Err(e) => Err(e),
    };
    proof {
        assert(described_declared(name@, d, docs, agent, *signature, picked(r)));
        assert(function_declared(name@, docs, agent, *doc, *signature, picked(r)));
    }
    r
}

/// The declarations of everything that scripts offer. `sources` are the scripts,
/// `registry` holds the tools that they registered, and `keys` are the keys of
/// their table of descriptions; `is_function` tells whether a function stands under
/// a name, `doc` which description the table holds for it, and `signature` which
/// parameters it declares.
pub fn discover_declarations<
    I: Fn(&str) -> Result<bool, Error>,
    D: Fn(&str) -> Result<Option<String>, Error>,
    S: Fn(&str, bool) -> Result<Vec<String>, Error>,
>(
    sources: &Vec<String>,
    registry: &Registry,
    keys: &Vec<LuaValue>,
    agent: bool,
    is_function: &I,
    doc: &D,
    signature: &S,
) -> (r: Result<Vec<FunctionDeclaration>, Error>)
    requires
        tells_all(*is_function),
        tells_all(*doc),
        lua_tool::reads_all(*signature),
    ensures
        sources@.len() == 0 ==> r is Ok && r->Ok_0@.len() == 0,
        sources@.len() > 0 ==> table::distinct_keys(lua_tool::tools_in(*registry)),
        r matches Ok(v) ==> forall|i: int, j: int|
            0 <= i < j < v@.len() ==> (#[trigger] v@[i])@.name != (#[trigger] v@[j])@.name,
        sources@.len() > 0 ==> match r {
            Ok(v) => discovered(
                lua_tool::tools_in(*registry),
                doc_comment::all_doc_comments(text::texts(sources@)),
                lua_tool::values_of(keys@),
                agent,
                *is_function,
                *doc,
                *signature,
                function::declarations_of(v@),
            ),
            Err(e) => discovery_failed(
                lua_tool::tools_in(*registry),
                doc_comment::all_doc_comments(text::texts(sources@)),
                lua_tool::values_of(keys@),
                agent,
                *is_function,
                *doc,
                *signature,
                e,
            ),
        },
{
    let mut out: Vec<FunctionDeclaration> = Vec::new();
    if sources.is_empty() {
        return Ok(out);
    }
    let comments = doc_comment::collect_doc_comments(sources);
    let ghost docs = doc_comment::docs_under(comments@);
    let ghost reg = lua_tool::tools_in(*registry);
    let ghost key_models = lua_tool::values_of(keys@);
    let mut i: usize = 0;
    let n: usize = lua_tool::tool_count(registry);
    proof {
        table::as_many_keys_are_distinct(reg);
        assert(function::declarations_of(out@) =~= seq![]);
    }
    while i < n
        invariant
            i <= n,
            n == reg.len(),
            docs == doc_comment::docs_under(comments@),
            docs == doc_comment::all_doc_comments(text::texts(sources@)),
            sources@.len() > 0,
            reg == lua_tool::tools_in(*registry),
            table::distinct_keys(reg),
            key_models == lua_tool::values_of(keys@),
            lua_tool::reads_all(*signature),
            out@.len() == i,
            forall|k: int|
                0 <= k < i ==> tool_declared(
                    reg[k].0,
                    reg[k].1,
                    docs,
                    agent,
                    *signature,
                    Ok::<DeclarationModel, Error>((#[trigger] out@[k])@),
                ),
        decreases n - i,
    {
        if let Some((name, tool)) = lua_tool::tool_at(registry, i) {
            match declare_tool(name.as_str(), tool, &comments, agent, signature) {
                Ok(d) => {
                    out.push(d);
                },
                Err(e) => {
                    proof {
                        let before = function::declarations_of(out@);
                        assert(before.len() == i);
                        assert forall|k: int| 0 <= k < i implies tool_declared(
                            reg.take(i as int)[k].0,
                            reg.take(i as int)[k].1,
                            docs,
                            agent,
                            *signature,
                            Ok::<DeclarationModel, Error>(#[trigger] before[k]),
                        ) by {
                            assert(before[k] == out@[k]@);
                        }
                        assert(tools_declared(
                            reg.take(before.len() as int),
                            docs,
                            agent,
                            *signature,
                            before,
                        ));
                        assert(tools_failed(reg, docs, agent, *signature, e));
                        assert(discovery_failed(
                            reg,
                            docs,
                            key_models,
                            agent,
                            *is_function,
                            *doc,
                            *signature,
                            e,
                        ));
                    }
                    return Err(e);
                },
            }
        }
        i += 1;
    }
    let ghost tools = function::declarations_of(out@);
    proof {
        assert forall|k: int| 0 <= k < reg.len() implies tool_declared(
            reg[k].0,
            reg[k].1,
            docs,
            agent,
            *signature,
            Ok::<DeclarationModel, Error>(#[trigger] tools[k]),
        ) by {
            assert(tools[k] == out@[k]@);
        }
        assert(tools_declared(reg, docs, agent, *signature, tools));
    }
    let candidates = candidate_names(&comments, keys);
    let ghost names = text::texts(candidates@);
    let ghost mut picks: Seq<Option<DeclarationModel>> = seq![];
    let mut j: usize = 0;
    proof {
        assert(tools + made(picks) =~= tools);
    }
    while j < candidates.len()
        invariant
            j <= candidates@.len(),
            docs == doc_comment::docs_under(comments@),
            docs == doc_comment::all_doc_comments(text::texts(sources@)),
            sources@.len() > 0,
            reg == lua_tool::tools_in(*registry),
            table::distinct_keys(reg),
            key_models == lua_tool::values_of(keys@),
            names == text::texts(candidates@),
            are_candidates(docs, key_models, names),
            tools_declared(reg, docs, agent, *signature, tools),
            tells_all(*is_function),
            tells_all(*doc),
            lua_tool::reads_all(*signature),
            picks.len() == j,
            forall|k: int|
                0 <= k < j ==> candidate_declared(
                    names[k],
                    reg,
                    docs,
                    agent,
                    *is_function,
                    *doc,
                    *signature,
                    Ok::<Option<DeclarationModel>, Error>(#[trigger] picks[k]),
                ),
            function::declarations_of(out@) == tools + made(picks),
        decreases candidates@.len() - j,
    {
        let name = &candidates[j];
        let ghost before = picks;
        proof {
            assert(names[j as int] == name@);
            assert(names.contains(name@));
        }
        let pick = match lua_tool::get_tool(registry, name.as_str()) {
            Some(_) => Ok(None),
            None => declare_global(name.as_str(), &comments, agent, is_function, doc, signature),
        };
        proof {
            assert(candidate_declared(
                name@,
                reg,
                docs,
                agent,
                *is_function,
                *doc,
                *signature,
                picked(pick),
            ));
        }
        match pick {
            Ok(Some(d)) => {
                proof {
                    picks = before.push(Some(d@));
                    assert(picks.drop_last() =~= before);
                    assert(function::declarations_of(out@.push(d)) =~= function::declarations_of(
                        out@,
                    ).push(d@));
                    assert(tools + made(picks) =~= (tools + made(before)).push(d@));
                }
                out.push(d);
            },
            Ok(None) => {
                proof {
                    picks = before.push(None);
                    assert(picks.drop_last() =~= before);
                }
            },
            Err(e) => {
                proof {
                    assert(candidates_declared(
                        names.take(picks.len() as int),
                        reg,
                        docs,
                        agent,
                        *is_function,
                        *doc,
                        *signature,
                        picks,
                    ));
                    assert(candidates_failed(
                        reg,
                        docs,
                        key_models,
                        agent,
                        *is_function,
                        *doc,
                        *signature,
                        e,
                    ));
                    assert(discovery_failed(
                        reg,
                        docs,
                        key_models,
                        agent,
                        *is_function,
                        *doc,
                        *signature,
                        e,
                    ));
                }
                return Err(e);
            },
        }
        j += 1;
    }
    proof {
        assert(candidates_declared(
            names,
            reg,
            docs,
            agent,
            *is_function,
            *doc,
            *signature,
            picks,
        ));
        assert(discovered(
            reg,
            docs,
            key_models,
            agent,
            *is_function,
            *doc,
            *signature,
            function::declarations_of(out@),
        ));
        assert forall|i: int, j: int| 0 <= i < j < out@.len() implies (#[trigger] out@[i])@.name
            != (#[trigger] out@[j])@.name by {
            discovered_names_are_distinct(
                reg,
                docs,
                key_models,
                agent,
                *is_function,
                *doc,
                *signature,
                function::declarations_of(out@),
                i,
                j,
            );
        }
    }
    Ok(out)
}

/// Everything that is declared bears the name under which it was found.
proof fn tool_declared_name<S: Fn(&str, bool) -> Result<Vec<String>, Error>>(
    name: Seq<char>,
    tool: ToolModel,
    comments: Seq<(Seq<char>, DocModel)>,
    agent: bool,
    signature: S,
    d: DeclarationModel,
)
    requires
        tool_declared(name, tool, comments, agent, signature, Ok::<DeclarationModel, Error>(d)),
    ensures
        d.name == name,
        d.agent == agent,
{
}

/// A function that is declared bears its name, is registered under none, and is
/// documented with the description that its declaration holds.
proof fn candidate_declared_name<
    I: Fn(&str) -> Result<bool, Error>,
    D: Fn(&str) -> Result<Option<String>, Error>,
    S: Fn(&str, bool) -> Result<Vec<String>, Error>,
>(
    name: Seq<char>,
    registry: Seq<(Seq<char>, ToolModel)>,
    comments: Seq<(Seq<char>, DocModel)>,
    agent: bool,
    is_function: I,
    doc: D,
    signature: S,
    d: DeclarationModel,
)
    requires
        candidate_declared(
            name,
            registry,
            comments,
            agent,
            is_function,
            doc,
            signature,
            Ok::<Option<DeclarationModel>, Error>(Some(d)),
        ),
    ensures
        d.name == name,
        d.agent == agent,
        table::lookup(registry, name) is None,
{
    let out = Ok::<Option<DeclarationModel>, Error>(Some(d));
    let f = choose|f: Result<bool, Error>| #[trigger]
        told(is_function, name, f) && match f {
            Err(e) => out == Err::<Option<DeclarationModel>, Error>(e),
            Ok(false) => out == Ok::<Option<DeclarationModel>, Error>(None),
            Ok(true) => function_declared(name, comments, agent, doc, signature, out),
        };
    assert(function_declared(name, comments, agent, doc, signature, out));
}

/// What was made of the picks stands among them.
proof fn made_are_picks(picks: Seq<Option<DeclarationModel>>, i: int) -> (k: int)
    requires
        0 <= i < made(picks).len(),
    ensures
        0 <= k < picks.len(),
        picks[k] == Some(made(picks)[i]),
        i <= k,
    decreases picks.len(),
{
    let before = picks.drop_last();
    if i < made(before).len() {
        let k = made_are_picks(before, i);
        assert(made(picks)[i] == made(before)[i]);
        k
    } else {
        made_len(before);
        picks.len() - 1
    }
}

/// Every pick that is something is made.
proof fn picks_are_made(picks: Seq<Option<DeclarationModel>>, k: int) -> (i: int)
    requires
        0 <= k < picks.len(),
        picks[k] is Some,
    ensures
        0 <= i < made(picks).len(),
        picks[k] == Some(made(picks)[i]),
    decreases picks.len(),
{
    let before = picks.drop_last();
    if k < before.len() {
        let i = picks_are_made(before, k);
        assert(made(picks)[i] == made(before)[i]);
        i
    } else {
        made(before).len() as int
    }
}

/// No more is made than there are picks.
proof fn made_len(picks: Seq<Option<DeclarationModel>>)
    ensures
        made(picks).len() <= picks.len(),
    decreases picks.len(),
{
    if picks.len() > 0 {
        made_len(picks.drop_last());
    }
}

/// Of two that were made, the earlier was picked earlier.
proof fn made_keep_their_order(picks: Seq<Option<DeclarationModel>>, i: int, j: int) -> (k: (
    int,
    int,
))
    requires
        0 <= i < j < made(picks).len(),
    ensures
        0 <= k.0 < k.1 < picks.len(),
        picks[k.0] == Some(made(picks)[i]),
        picks[k.1] == Some(made(picks)[j]),
    decreases picks.len(),
{
    let before = picks.drop_last();
    if j < made(before).len() {
        let k = made_keep_their_order(before, i, j);
        assert(made(picks)[i] == made(before)[i] && made(picks)[j] == made(before)[j]);
        k
    } else {
        let a = made_are_picks(before, i);
        assert(made(picks)[i] == made(before)[i]);
        (a, picks.len() - 1)
    }
}

/// Everything that was discovered is an agent's own, or nothing is, as was asked
/// for; and no two declarations bear the same name: a tool that is registered takes
/// precedence over a function of the same name.
pub proof fn discovered_names_are_distinct<
    I: Fn(&str) -> Result<bool, Error>,
    D: Fn(&str) -> Result<Option<String>, Error>,
    S: Fn(&str, bool) -> Result<Vec<String>, Error>,
>(
    registry: Seq<(Seq<char>, ToolModel)>,
    comments: Seq<(Seq<char>, DocModel)>,
    keys: Seq<LuaModel>,
    agent: bool,
    is_function: I,
    doc: D,
    signature: S,
    out: Seq<DeclarationModel>,
    i: int,
    j: int,
)
    requires
        table::distinct_keys(registry),
        discovered(registry, comments, keys, agent, is_function, doc, signature, out),
        0 <= i < j < out.len(),
    ensures
        out[i].name != out[j].name,
        out[i].agent == agent,
        out[j].agent == agent,
{
    let (tools, names, picks) = choose|
        tools: Seq<DeclarationModel>,
        names: Seq<Seq<char>>,
        picks: Seq<Option<DeclarationModel>>,
    |
        {
            &&& #[trigger] tools_declared(registry, comments, agent, signature, tools)
            &&& are_candidates(comments, keys, names)
            &&& #[trigger] candidates_declared(
                names,
                registry,
                comments,
                agent,
                is_function,
                doc,
                signature,
                picks,
            )
            &&& out == tools + made(picks)
        };
    let n = tools.len() as int;
    if i < n {
        tool_declared_name(
            registry[i].0,
            registry[i].1,
            comments,
            agent,
            signature,
            tools[i],
        );
    }
    if j < n {
        tool_declared_name(
            registry[j].0,
            registry[j].1,
            comments,
            agent,
            signature,
            tools[j],
        );
        assert(registry[i].0 != registry[j].0);
    } else {
        let b = made_are_picks(picks, j - n);
        candidate_declared_name(
            names[b],
            registry,
            comments,
            agent,
            is_function,
            doc,
            signature,
            made(picks)[j - n],
        );
        if i < n {
            table::lookup_at(registry, i);
        } else {
            let k = made_keep_their_order(picks, i - n, j - n);
            candidate_declared_name(
                names[k.0],
                registry,
                comments,
                agent,
                is_function,
                doc,
                signature,
                made(picks)[i - n],
            );
            candidate_declared_name(
                names[k.1],
                registry,
                comments,
                agent,
                is_function,
                doc,
                signature,
                made(picks)[j - n],
            );
            assert(names[k.0] != names[k.1]);
        }
    }
}

/// A function that no tool is registered under is declared only where it is
/// documented.
pub proof fn discovered_functions_are_documented<
    I: Fn(&str) -> Result<bool, Error>,
    D: Fn(&str) -> Result<Option<String>, Error>,
    S: Fn(&str, bool) -> Result<Vec<String>, Error>,
>(
    registry: Seq<(Seq<char>, ToolModel)>,
    comments: Seq<(Seq<char>, DocModel)>,
    keys: Seq<LuaModel>,
    agent: bool,
    is_function: I,
    doc: D,
    signature: S,
    out: Seq<DeclarationModel>,
    i: int,
)
    requires
        discovered(registry, comments, keys, agent, is_function, doc, signature, out),
        0 <= i < out.len(),
        table::lookup(registry, out[i].name) is None,
    ensures
        is_documented(comments, keys, out[i].name),
{
    let (tools, names, picks) = choose|
        tools: Seq<DeclarationModel>,
        names: Seq<Seq<char>>,
        picks: Seq<Option<DeclarationModel>>,
    |
        {
            &&& #[trigger] tools_declared(registry, comments, agent, signature, tools)
            &&& are_candidates(comments, keys, names)
            &&& #[trigger] candidates_declared(
                names,
                registry,
                comments,
                agent,
                is_function,
                doc,
                signature,
                picks,
            )
            &&& out == tools + made(picks)
        };
    let n = tools.len() as int;
    if i < n {
        tool_declared_name(
            registry[i].0,
            registry[i].1,
            comments,
            agent,
            signature,
            tools[i],
        );
        table::lookup_finds(registry, out[i].name);
        assert(registry[i].0 == out[i].name);
    } else {
        let b = made_are_picks(picks, i - n);
        candidate_declared_name(
            names[b],
            registry,
            comments,
            agent,
            is_function,
            doc,
            signature,
            made(picks)[i - n],
        );
        assert(names.contains(names[b]));
    }
}

/// Documentation makes a function a tool: one with a comment, or with a description in
/// the table of descriptions, is declared, by a tool that is registered under its name
/// or by itself.
pub proof fn documented_functions_are_discovered<
    I: Fn(&str) -> Result<bool, Error>,
    D: Fn(&str) -> Result<Option<String>, Error>,
    S: Fn(&str, bool) -> Result<Vec<String>, Error>,
>(
    registry: Seq<(Seq<char>, ToolModel)>,
    comments: Seq<(Seq<char>, DocModel)>,
    keys: Seq<LuaModel>,
    agent: bool,
    is_function: I,
    doc: D,
    signature: S,
    out: Seq<DeclarationModel>,
    name: Seq<char>,
) -> (i: int)
    requires
        discovered(registry, comments, keys, agent, is_function, doc, signature, out),
        is_documented(comments, keys, name),
        forall|f: Result<bool, Error>| #[trigger]
            told(is_function, name, f) ==> f == Ok::<bool, Error>(true),
        table::lookup(comments, name) is Some || forall|w: Result<Option<String>, Error>| #[trigger]
            told(doc, name, w) ==> !(w matches Ok(None)),
    ensures
        0 <= i < out.len(),
        out[i].name == name,
{
    let (tools, names, picks) = choose|
        tools: Seq<DeclarationModel>,
        names: Seq<Seq<char>>,
        picks: Seq<Option<DeclarationModel>>,
    |
        {
            &&& #[trigger] tools_declared(registry, comments, agent, signature, tools)
            &&& are_candidates(comments, keys, names)
            &&& #[trigger] candidates_declared(
                names,
                registry,
                comments,
                agent,
                is_function,
                doc,
                signature,
                picks,
            )
            &&& out == tools + made(picks)
        };
    if table::lookup(registry, name) is Some {
        table::lookup_finds(registry, name);
        let k = choose|k: int| 0 <= k < registry.len() && registry[k].0 == name;
        tool_declared_name(registry[k].0, registry[k].1, comments, agent, signature, tools[k]);
        assert(out[k] == tools[k]);
        k
    } else {
        assert(names.contains(name));
        let k = choose|k: int| 0 <= k < names.len() && names[k] == name;
        let pick = Ok::<Option<DeclarationModel>, Error>(picks[k]);
        assert(candidate_declared(
            name,
            registry,
            comments,
            agent,
            is_function,
            doc,
            signature,
            pick,
        ));
        assert(function_declared(name, comments, agent, doc, signature, pick));
        assert(picks[k] is Some);
        candidate_declared_name(
            name,
            registry,
            comments,
            agent,
            is_function,
            doc,
            signature,
            picks[k]->0,
        );
        let j = picks_are_made(picks, k);
        assert(out[tools.len() + j] == made(picks)[j]);
        tools.len() + j
    }
}

// ---- Calls ----

/// The line that is shown for a call of a function in Lua.
pub open spec fn call_line(name: Seq<char>, description: Option<Seq<char>>) -> Seq<char> {
    "Call "@ + name + " (lua)"@ + match description {
        Some(d) => " -- "@ + d,
        None => seq![],
    }
}

/// The line that is shown for a call of a function in Lua.
pub fn lua_call_prompt(name: &str, description: Option<&str>) -> (r: String)
    ensures
        r@ == call_line(name@, prompt::optional_text(description)),
{
    let mut line = "Call ".to_owned();
    line.append(name);
    line.append(" (lua)");
    if let Some(d) = description {
        line.append(" -- ");
        line.append(d);
        proof {
            assert(line@ =~= "Call "@ + name@ + " (lua)"@ + (" -- "@ + d@));
        }
    } else {
        proof {
            assert(line@ =~= "Call "@ + name@ + " (lua)"@ + Seq::<char>::empty());
            assert(Seq::<char>::empty() =~= seq![]);
        }
    }
    line
}

/// `call` takes everything that it may be handed.
pub open spec fn calls_all<C: Fn(&str, bool, &Vec<LuaValue>) -> Result<LuaValue, Error>>(
    call: C,
) -> bool {
    forall|name: &str, registered: bool, args: &Vec<LuaValue>|
        call_requires(call, (name, registered, args))
}

/// `out` is what a function gives for arguments.
pub open spec fn call_gives<C: Fn(&str, bool, &Vec<LuaValue>) -> Result<LuaValue, Error>>(
    call: C,
    name: Seq<char>,
    registered: bool,
    args: Seq<LuaModel>,
    out: Result<LuaValue, Error>,
) -> bool {
    exists|n: &str, a: &Vec<LuaValue>|
        n@ == name && lua_tool::values_of(a@) == args && #[trigger] call_ensures(
            call,
            (n, registered, a),
            out,
        )
}

/// How a call ends when the function gave something.
pub open spec fn call_ended(
    out: Result<LuaValue, Error>,
    r: Result<Option<Value>, Error>,
) -> bool {
    match out {
        Err(e) => r == Err::<Option<Value>, Error>(e),
        Ok(v) => match lua_value::to_json(v@) {
            Ok(j) => r matches Ok(Some(x)) && json::json_of(x) == j,
            Err(e) => r is Err && r->Err_0@ == e,
        },
    }
}

/// The function was called with arguments for parameters, and with the variables of
/// the agent behind them.
pub open spec fn function_called<C: Fn(&str, bool, &Vec<LuaValue>) -> Result<LuaValue, Error>>(
    name: Seq<char>,
    registered: bool,
    params: Seq<ParamModel>,
    args: JsonModel,
    envs: Seq<(Seq<char>, Seq<char>)>,
    call: C,
    r: Result<Option<Value>, Error>,
) -> bool {
    exists|out: Result<LuaValue, Error>| #[trigger]
        call_gives(
            call,
            name,
            registered,
            lua_tool::call_args(args, lua_tool::param_names(params)).push(
                lua_tool::ctx_table(envs),
            ),
            out,
        ) && call_ended(out, r)
}

/// The parameters of a tool were found out, and it was called.
pub open spec fn tool_called<
    S: Fn(&str, bool) -> Result<Vec<String>, Error>,
    C: Fn(&str, bool, &Vec<LuaValue>) -> Result<LuaValue, Error>,
>(
    name: Seq<char>,
    tool: Option<ToolModel>,
    comments: Seq<(Seq<char>, DocModel)>,
    args: JsonModel,
    envs: Seq<(Seq<char>, Seq<char>)>,
    signature: S,
    call: C,
    r: Result<Option<Value>, Error>,
) -> bool {
    exists|p: Result<Seq<ParamModel>, Error>| #[trigger]
        lua_tool::params_resolved(
            name,
            tool is Some,
            explicit_params(tool),
            comment_params(comments, name),
            signature,
            p,
        ) && match p {
            Err(e) => r == Err::<Option<Value>, Error>(e),
            Ok(params) => function_called(name, tool is Some, params, args, envs, call, r),
        }
}

/// What stands under a name was called, where it is a function.
pub open spec fn global_called<
    I: Fn(&str) -> Result<bool, Error>,
    D: Fn(&str) -> Result<Option<String>, Error>,
    S: Fn(&str, bool) -> Result<Vec<String>, Error>,
    C: Fn(&str, bool, &Vec<LuaValue>) -> Result<LuaValue, Error>,
    A: Fn(&str) -> (),
>(
    name: Seq<char>,
    comments: Seq<(Seq<char>, DocModel)>,
    args: JsonModel,
    envs: Seq<(Seq<char>, Seq<char>)>,
    is_function: I,
    doc: D,
    signature: S,
    call: C,
    announce: A,
    r: Result<Option<Value>, Error>,
) -> bool {
    exists|f: Result<bool, Error>| #[trigger]
        told(is_function, name, f) && match f {
            Err(e) => r == Err::<Option<Value>, Error>(e),
            Ok(false) => r == Ok::<Option<Value>, Error>(None),
            Ok(true) => call_announced(name, None, comments, doc, announce) && tool_called(
                name,
                None,
                comments,
                args,
                envs,
                signature,
                call,
                r,
            ),
        }
}

/// `announce` was told what is called.
pub open spec fn announced<A: Fn(&str) -> ()>(announce: A, line: Seq<char>) -> bool {
    exists|l: &str| l@ == line && #[trigger] call_ensures(announce, (l,), ())
}

/// `out` is the description of a tool that is shown with a call: the one that it is
/// registered with, or else the one that is written down for it, as far as that can
/// be read, or else that in its comment.
pub open spec fn shown_description<D: Fn(&str) -> Result<Option<String>, Error>>(
    name: Seq<char>,
    tool: Option<ToolModel>,
    comments: Seq<(Seq<char>, DocModel)>,
    doc: D,
    out: Option<Seq<char>>,
) -> bool {
    if tool matches Some(t) && t.description is Some {
        out == tool->0.description
    } else {
        exists|w: Result<Option<String>, Error>| #[trigger]
            told(doc, name, w) && out == description_of(
                match w {
                    Ok(t) => text::optional(t),
                    Err(_) => None,
                },
                comments,
                name,
            )
    }
}

/// The call of a tool was announced with its description.
pub open spec fn call_announced<
    D: Fn(&str) -> Result<Option<String>, Error>,
    A: Fn(&str) -> (),
>(
    name: Seq<char>,
    tool: Option<ToolModel>,
    comments: Seq<(Seq<char>, DocModel)>,
    doc: D,
    announce: A,
) -> bool {
    exists|d: Option<Seq<char>>| #[trigger]
        shown_description(name, tool, comments, doc, d) && announced(announce, call_line(name, d))
}

/// How calling a function in Lua ends: the tool that is registered under its name
/// is called, or else the function of that name; `None` where there is neither.
pub open spec fn lua_tool_ran<
    I: Fn(&str) -> Result<bool, Error>,
    D: Fn(&str) -> Result<Option<String>, Error>,
    S: Fn(&str, bool) -> Result<Vec<String>, Error>,
    C: Fn(&str, bool, &Vec<LuaValue>) -> Result<LuaValue, Error>,
    A: Fn(&str) -> (),
>(
    name: Seq<char>,
    registry: Seq<(Seq<char>, ToolModel)>,
    comments: Seq<(Seq<char>, DocModel)>,
    args: JsonModel,
    envs: Seq<(Seq<char>, Seq<char>)>,
    is_function: I,
    doc: D,
    signature: S,
    call: C,
    announce: A,
    r: Result<Option<Value>, Error>,
) -> bool {
    match table::lookup(registry, name) {
        Some(tool) => call_announced(name, Some(tool), comments, doc, announce) && tool_called(
            name,
            Some(tool),
            comments,
            args,
            envs,
            signature,
            call,
            r,
        ),
        None => global_called(
            name,
            comments,
            args,
            envs,
            is_function,
            doc,
            signature,
            call,
            announce,
            r,
        ),
    }
}

/// The names of parameters.
fn names_of(params: &Vec<ParamMeta>) -> (r: Vec<String>)
    ensures
        text::texts(r@) == lua_tool::param_names(lua_tool::params_of(params@)),
{
    let mut out: Vec<String> = Vec::new();
    let mut i: usize = 0;
    while i < params.len()
        invariant
            i <= params@.len(),
            out@.len() == i,
            forall|k: int| 0 <= k < i ==> (#[trigger] out@[k])@ == params@[k]@.name,
        decreases params@.len() - i,
    {
        out.push(params[i].name.clone());
        i += 1;
    }
    proof {
        assert(text::texts(out@) =~= lua_tool::param_names(lua_tool::params_of(params@)));
    }
    out
}

/// Finds out the parameters of a tool, and calls it.
fn call_tool<
    S: Fn(&str, bool) -> Result<Vec<String>, Error>,
    C: Fn(&str, bool, &Vec<LuaValue>) -> Result<LuaValue, Error>,
>(
    name: &str,
    tool: Option<&RegisteredTool>,
    comments: &Table<ParsedDocComment>,
    args: &Value,
    envs: &Table<String>,
    signature: &S,
    call: &C,
) -> (r: Result<Option<Value>, Error>)
    requires
        lua_tool::reads_all(*signature),
        calls_all(*call),
    ensures
        tool_called(
            name@,
            match tool {
                Some(t) => Some(t@),
                None => None,
            },
            doc_comment::docs_under(comments@),
            json::json_of(*args),
            table::texts_under(envs@),
            *signature,
            *call,
            r,
        ),
{
    let ghost docs = doc_comment::docs_under(comments@);
    let ghost model: Option<ToolModel> = match tool {
        Some(t) => Some(t@),
        None => None,
    };
    let resolved = tool_params(name, tool, comments, signature);
    let ghost p = lua_tool::resolved(resolved);
    proof {
        assert(lua_tool::params_resolved(
            name@,
            model is Some,
            explicit_params(model),
            comment_params(docs, name@),
            *signature,
            p,
        ));
    }
    let params = match resolved {
        Ok(v) => v,
        Err(e) => {
            return Err(e);
        },
    };
    let names = names_of(&params);
    let mut values = lua_tool::build_call_args(args, &names);
    let ghost before = values@;
    let ctx = lua_tool::build_ctx_table(envs);
    values.push(ctx);
    proof {
        assert(lua_tool::values_of(values@) =~= lua_tool::values_of(before).push(ctx@));
    }
    let out = call(name, tool.is_some(), &values);
    proof {
        assert(call_gives(
            *call,
            name@,
            model is Some,
            lua_tool::call_args(
                json::json_of(*args),
                lua_tool::param_names(lua_tool::params_of(params@)),
            ).push(lua_tool::ctx_table(table::texts_under(envs@))),
            out,
        ));
    }
    let ghost given = out;
    let r = match out {
        Err(e) => Err(e),
        Ok(v) => match lua_value::lua_to_json(&v) {
            Ok(j) => Ok(Some(j)),
            Err(e) => Err(e),
        },
    };
    proof {
        assert(call_ended(given, r));
        assert(function_called(
            name@,
            model is Some,
            lua_tool::params_of(params@),
            json::json_of(*args),
            table::texts_under(envs@),
            *call,
            r,
        ));
    }
    r
}

/// The description of a tool that is shown with a call.
fn describe<D: Fn(&str) -> Result<Option<String>, Error>>(
    name: &str,
    tool: Option<&RegisteredTool>,
    comments: &Table<ParsedDocComment>,
    doc: &D,
) -> (r: Option<String>)
    requires
        tells_all(*doc),
    ensures
        shown_description(
            name@,
            match tool {
                Some(t) => Some(t@),
                None => None,
            },
            doc_comment::docs_under(comments@),
            *doc,
            text::optional(r),
        ),
{
    if let Some(t) = tool {
        if t.description.is_some() {
            return t.description.clone();
        }
    }
    let told_doc = doc(name);
    proof {
        assert(told(*doc, name@, told_doc));
    }
    let written = match told_doc {
        Ok(w) => w,
        Err(_) => None,
    };
    match written {
        Some(d) => Some(d),
        None => match find_comment(comments, name) {
            Some(c) => c.description.clone(),
            None => None,
        },
    }
}

/// Calls a function in Lua. `sources` are the scripts, and `registry` holds the tools
/// that they registered; `is_function` tells whether a function stands under a name,
/// `doc` which description the scripts hold for it, `signature` which parameters it
/// declares, and `call` calls it. `announce` is told what is called. `None` where no
/// script offers the function.
pub fn run_lua_tool_sync<
    I: Fn(&str) -> Result<bool, Error>,
    D: Fn(&str) -> Result<Option<String>, Error>,
    S: Fn(&str, bool) -> Result<Vec<String>, Error>,
    C: Fn(&str, bool, &Vec<LuaValue>) -> Result<LuaValue, Error>,
    A: Fn(&str) -> (),
>(
    sources: &Vec<String>,
    registry: &Registry,
    tool_name: &str,
    args: &Value,
    envs: &Table<String>,
    is_function: &I,
    doc: &D,
    signature: &S,
    call: &C,
    announce: &A,
) -> (r: Result<Option<Value>, Error>)
    requires
        tells_all(*is_function),
        tells_all(*doc),
        lua_tool::reads_all(*signature),
        calls_all(*call),
        forall|line: &str| call_requires(*announce, (line,)),
    ensures
        sources@.len() == 0 ==> r == Ok::<Option<Value>, Error>(None),
        sources@.len() > 0 ==> lua_tool_ran(
            tool_name@,
            lua_tool::tools_in(*registry),
            doc_comment::all_doc_comments(text::texts(sources@)),
            json::json_of(*args),
            table::texts_under(envs@),
            *is_function,
            *doc,
            *signature,
            *call,
            *announce,
            r,
        ),
{
    if sources.is_empty() {
        return Ok(None);
    }
    let comments = doc_comment::collect_doc_comments(sources);
    let ghost docs = doc_comment::docs_under(comments@);
    let tool = lua_tool::get_tool(registry, tool_name);
    let ghost asked: Result<bool, Error> = Ok(true);
    if tool.is_none() {
        let found = is_function(tool_name);
        proof {
            assert(told(*is_function, tool_name@, found));
            asked = found;
        }
        match found {
            Err(e) => {
                return Err(e);
            },
            Ok(yes) => {
                if !yes {
                    return Ok(None);
                }
            },
        }
    }
    let ghost model: Option<ToolModel> = match tool {
        Some(t) => Some(t@),
        None => None,
    };
    let description = describe(tool_name, tool, &comments, doc);
    let line = match &description {
        Some(d) => lua_call_prompt(tool_name, Some(d.as_str())),
        None => lua_call_prompt(tool_name, None),
    };
    announce(line.as_str());
    proof {
        let d = text::optional(description);
        assert(shown_description(tool_name@, model, docs, *doc, d));
        assert(announced(*announce, call_line(tool_name@, d)));
        assert(call_announced(tool_name@, model, docs, *doc, *announce));
    }
    let r = call_tool(tool_name, tool, &comments, args, envs, signature, call);
    proof {
        if tool is None {
            assert(told(*is_function, tool_name@, asked));
            assert(global_called(
                tool_name@,
                docs,
                json::json_of(*args),
                table::texts_under(envs@),
                *is_function,
                *doc,
                *signature,
                *call,
                *announce,
                r,
            ));
        }
    }
    r
}

/// Two ways to find out the parameters of a tool that tell the same of its signature
/// find the same.
proof fn resolved_alike<
    S: Fn(&str, bool) -> Result<Vec<String>, Error>,
    T: Fn(&str, bool) -> Result<Vec<String>, Error>,
>(
    name: Seq<char>,
    registered: bool,
    explicit: Option<Seq<ParamModel>>,
    comment: Option<Seq<(Seq<char>, Seq<char>)>>,
    s: S,
    t: T,
    p: Result<Seq<ParamModel>, Error>,
    q: Result<Seq<ParamModel>, Error>,
)
    requires
        read_alike(s, t, name, registered),
        lua_tool::params_resolved(name, registered, explicit, comment, s, p),
        lua_tool::params_resolved(name, registered, explicit, comment, t, q),
    ensures
        p == q,
{
    if lua_tool::documented_params(explicit, comment) is None {
        let a = choose|out: Result<Vec<String>, Error>| #[trigger]
            lua_tool::signed(s, name, registered, out) && match out {
                Ok(names) => p == Ok::<Seq<ParamModel>, Error>(
                    lua_tool::signature_params(text::texts(names@)),
                ),
                Err(e) => p == Err::<Seq<ParamModel>, Error>(e),
            };
        let b = choose|out: Result<Vec<String>, Error>| #[trigger]
            lua_tool::signed(t, name, registered, out) && match out {
                Ok(names) => q == Ok::<Seq<ParamModel>, Error>(
                    lua_tool::signature_params(text::texts(names@)),
                ),
                Err(e) => q == Err::<Seq<ParamModel>, Error>(e),
            };
        assert(lua_tool::signed(s, name, registered, a));
        assert(lua_tool::signed(t, name, registered, b));
    }
}

/// The parameters in the declaration of a tool that is registered are those that a call
/// of it passes.
proof fn tool_parameters_are_those_of_calls<
    S: Fn(&str, bool) -> Result<Vec<String>, Error>,
    T: Fn(&str, bool) -> Result<Vec<String>, Error>,
    C: Fn(&str, bool, &Vec<LuaValue>) -> Result<LuaValue, Error>,
>(
    name: Seq<char>,
    tool: ToolModel,
    comments: Seq<(Seq<char>, DocModel)>,
    agent: bool,
    s: S,
    t: T,
    d: DeclarationModel,
    args: JsonModel,
    envs: Seq<(Seq<char>, Seq<char>)>,
    call: C,
    r: Result<Option<Value>, Error>,
) -> (params: Seq<ParamModel>)
    requires
        read_alike(s, t, name, true),
        tool_declared(name, tool, comments, agent, s, Ok::<DeclarationModel, Error>(d)),
        tool_called(name, Some(tool), comments, args, envs, t, call, r),
    ensures
        d == lua_tool::declaration(name, d.description, params, agent),
        function_called(name, true, params, args, envs, call, r),
{
    let comment = comment_params(comments, name);
    let p = choose|p: Result<Seq<ParamModel>, Error>| #[trigger]
        lua_tool::params_resolved(name, true, tool.params, comment, s, p) && match p {
            Ok(params) => d == lua_tool::declaration(
                name,
                match tool.description {
                    Some(d) => d,
                    None => seq![],
                },
                params,
                agent,
            ),
            Err(_) => false,
        };
    let q = choose|q: Result<Seq<ParamModel>, Error>| #[trigger]
        lua_tool::params_resolved(name, true, tool.params, comment, t, q) && match q {
            Err(e) => r == Err::<Option<Value>, Error>(e),
            Ok(params) => function_called(name, true, params, args, envs, call, r),
        };
    resolved_alike(name, true, tool.params, comment, s, t, p, q);
    p->Ok_0
}

/// The parameters in the declaration of a function are those that a call of it passes.
proof fn function_parameters_are_those_of_calls<
    S: Fn(&str, bool) -> Result<Vec<String>, Error>,
    T: Fn(&str, bool) -> Result<Vec<String>, Error>,
    C: Fn(&str, bool, &Vec<LuaValue>) -> Result<LuaValue, Error>,
>(
    name: Seq<char>,
    description: Seq<char>,
    comments: Seq<(Seq<char>, DocModel)>,
    agent: bool,
    s: S,
    t: T,
    d: DeclarationModel,
    args: JsonModel,
    envs: Seq<(Seq<char>, Seq<char>)>,
    call: C,
    r: Result<Option<Value>, Error>,
) -> (params: Seq<ParamModel>)
    requires
        read_alike(s, t, name, false),
        described_declared(
            name,
            description,
            comments,
            agent,
            s,
            Ok::<Option<DeclarationModel>, Error>(Some(d)),
        ),
        tool_called(name, None, comments, args, envs, t, call, r),
    ensures
        d == lua_tool::declaration(name, d.description, params, agent),
        function_called(name, false, params, args, envs, call, r),
{
    let comment = comment_params(comments, name);
    let p = choose|p: Result<Seq<ParamModel>, Error>| #[trigger]
        lua_tool::params_resolved(name, false, None, comment, s, p) && match p {
            Ok(params) => d == lua_tool::declaration(name, description, params, agent),
            Err(_) => false,
        };
    let q = choose|q: Result<Seq<ParamModel>, Error>| #[trigger]
        lua_tool::params_resolved(name, false, None, comment, t, q) && match q {
            Err(e) => r == Err::<Option<Value>, Error>(e),
            Ok(params) => function_called(name, false, params, args, envs, call, r),
        };
    resolved_alike(name, false, None, comment, s, t, p, q);
    p->Ok_0
}

/// What a declaration promises is what a call passes: of everything that is discovered,
/// a call hands over the values of the parameters that the declaration lists, in the
/// same order. The scripts may be loaded anew for the call, as long as the same function
/// stands under the name, with the same signature. The properties of the declaration are
/// the very names, where no parameter is named twice.
pub proof fn declared_parameters_are_those_of_calls<
    I: Fn(&str) -> Result<bool, Error>,
    J: Fn(&str) -> Result<bool, Error>,
    D: Fn(&str) -> Result<Option<String>, Error>,
    E: Fn(&str) -> Result<Option<String>, Error>,
    S: Fn(&str, bool) -> Result<Vec<String>, Error>,
    T: Fn(&str, bool) -> Result<Vec<String>, Error>,
    C: Fn(&str, bool, &Vec<LuaValue>) -> Result<LuaValue, Error>,
    A: Fn(&str) -> (),
>(
    registry: Seq<(Seq<char>, ToolModel)>,
    comments: Seq<(Seq<char>, DocModel)>,
    keys: Seq<LuaModel>,
    agent: bool,
    is_function: I,
    doc: D,
    signature: S,
    out: Seq<DeclarationModel>,
    i: int,
    args: JsonModel,
    envs: Seq<(Seq<char>, Seq<char>)>,
    is_function_then: J,
    doc_then: E,
    signature_then: T,
    call: C,
    announce: A,
    r: Result<Option<Value>, Error>,
) -> (params: Seq<ParamModel>)
    requires
        table::distinct_keys(registry),
        discovered(registry, comments, keys, agent, is_function, doc, signature, out),
        0 <= i < out.len(),
        lua_tool_ran(
            out[i].name,
            registry,
            comments,
            args,
            envs,
            is_function_then,
            doc_then,
            signature_then,
            call,
            announce,
            r,
        ),
        tell_alike(is_function, is_function_then, out[i].name),
        read_alike(
            signature,
            signature_then,
            out[i].name,
            table::lookup(registry, out[i].name) is Some,
        ),
    ensures
        out[i] == lua_tool::declaration(out[i].name, out[i].description, params, agent),
        function_called(
            out[i].name,
            table::lookup(registry, out[i].name) is Some,
            params,
            args,
            envs,
            call,
            r,
        ),
        lua_tool::param_names(params).no_duplicates() ==> lua_tool::property_names(out[i])
            == lua_tool::param_names(params),
{
    let d = out[i];
    let name = d.name;
    let (tools, names, picks) = choose|
        tools: Seq<DeclarationModel>,
        names: Seq<Seq<char>>,
        picks: Seq<Option<DeclarationModel>>,
    |
        {
            &&& #[trigger] tools_declared(registry, comments, agent, signature, tools)
            &&& are_candidates(comments, keys, names)
            &&& #[trigger] candidates_declared(
                names,
                registry,
                comments,
                agent,
                is_function,
                doc,
                signature,
                picks,
            )
            &&& out == tools + made(picks)
        };
    let n = tools.len() as int;
    let params = if i < n {
        let tool = registry[i].1;
        assert(d == tools[i]);
        tool_declared_name(registry[i].0, tool, comments, agent, signature, d);
        table::lookup_at(registry, i);
        tool_parameters_are_those_of_calls(
            name,
            tool,
            comments,
            agent,
            signature,
            signature_then,
            d,
            args,
            envs,
            call,
            r,
        )
    } else {
        let k = made_are_picks(picks, i - n);
        assert(d == made(picks)[i - n]);
        candidate_declared_name(
            names[k],
            registry,
            comments,
            agent,
            is_function,
            doc,
            signature,
            d,
        );
        let pick = Ok::<Option<DeclarationModel>, Error>(Some(d));
        assert(global_declared(name, comments, agent, is_function, doc, signature, pick));
        assert(told(is_function, name, Ok::<bool, Error>(true)) && function_declared(
            name,
            comments,
            agent,
            doc,
            signature,
            pick,
        ));
        let written = choose|written: Result<Option<String>, Error>| #[trigger]
            told(doc, name, written) && match written {
                Err(_) => false,
                Ok(w) => match declared_description(text::optional(w), comments, name) {
                    None => false,
                    Some(x) => described_declared(name, x, comments, agent, signature, pick),
                },
            };
        let description = declared_description(
            text::optional(written->Ok_0),
            comments,
            name,
        )->0;
        assert(tool_called(name, None, comments, args, envs, signature_then, call, r));
        function_parameters_are_those_of_calls(
            name,
            description,
            comments,
            agent,
            signature,
            signature_then,
            d,
            args,
            envs,
            call,
            r,
        )
    };
    if lua_tool::param_names(params).no_duplicates() {
        lua_tool::properties_are_the_parameters(name, d.description, params, agent);
    }
    params
}

// ---- What is declared and what is called ----

/// The registered tools are declared first, in the order of their registration, each
/// under its name and with the description that it was registered with. Every
/// parameter that a tool was registered with, required or not, is declared with
/// just the values, the description and the type that it was registered with.
pub proof fn registered_tools_are_declared_as_registered<
    I: Fn(&str) -> Result<bool, Error>,
    D: Fn(&str) -> Result<Option<String>, Error>,
    S: Fn(&str, bool) -> Result<Vec<String>, Error>,
>(
    registry: Seq<(Seq<char>, ToolModel)>,
    comments: Seq<(Seq<char>, DocModel)>,
    keys: Seq<LuaModel>,
    agent: bool,
    is_function: I,
    doc: D,
    signature: S,
    out: Seq<DeclarationModel>,
    k: int,
    i: int,
)
    requires
        discovered(registry, comments, keys, agent, is_function, doc, signature, out),
        0 <= k < registry.len(),
    ensures
        out.len() >= registry.len(),
        out[k].name == registry[k].0,
        out[k].agent == agent,
        out[k].description == (if registry[k].1.description is Some {
            registry[k].1.description->0
        } else {
            seq![]
        }),
        registry[k].1.params is Some ==> {
            let params = registry[k].1.params->0;
            0 <= i < params.len() && (forall|j: int|
                i < j < params.len() ==> (#[trigger] params[j]).name != params[i].name) ==> {
                let properties = out[k].parameters.properties;
                &&& properties is Some
                &&& table::lookup(properties->0, params[i].name) is Some
                &&& ({
                    let s = table::lookup(properties->0, params[i].name)->0;
                    &&& s.enum_value == params[i].enum_values
                    &&& s.description == params[i].description
                    &&& params[i].kind is Some ==> s.type_value == params[i].kind
                    &&& params[i].kind is None ==> s.type_value == Some("string"@)
                })
            }
        },
{
    let (tools, names, picks) = choose|
        tools: Seq<DeclarationModel>,
        names: Seq<Seq<char>>,
        picks: Seq<Option<DeclarationModel>>,
    |
        {
            &&& #[trigger] tools_declared(registry, comments, agent, signature, tools)
            &&& are_candidates(comments, keys, names)
            &&& #[trigger] candidates_declared(
                names,
                registry,
                comments,
                agent,
                is_function,
                doc,
                signature,
                picks,
            )
            &&& out == tools + made(picks)
        };
    assert(out[k] == tools[k]);
    let name = registry[k].0;
    let tool = registry[k].1;
    assert(tool_declared(
        name,
        tool,
        comments,
        agent,
        signature,
        Ok::<DeclarationModel, Error>(tools[k]),
    ));
    if tool.params is Some {
        let params = tool.params->0;
        let description = if tool.description is Some {
            tool.description->0
        } else {
            seq![]
        };
        assert(tools[k] == lua_tool::declaration(name, description, params, agent));
        if 0 <= i < params.len() && (forall|j: int|
            i < j < params.len() ==> (#[trigger] params[j]).name != params[i].name) {
            lua_tool::parameters_are_declared_as_given(name, description, params, agent, i);
        }
    }
}

/// The functions that are declared behind the registered tools come in the order of
/// their names.
pub proof fn other_functions_are_declared_by_name<
    I: Fn(&str) -> Result<bool, Error>,
    D: Fn(&str) -> Result<Option<String>, Error>,
    S: Fn(&str, bool) -> Result<Vec<String>, Error>,
>(
    registry: Seq<(Seq<char>, ToolModel)>,
    comments: Seq<(Seq<char>, DocModel)>,
    keys: Seq<LuaModel>,
    agent: bool,
    is_function: I,
    doc: D,
    signature: S,
    out: Seq<DeclarationModel>,
    i: int,
    j: int,
)
    requires
        discovered(registry, comments, keys, agent, is_function, doc, signature, out),
        registry.len() <= i < j < out.len(),
    ensures
        text::text_le(out[i].name, out[j].name),
{
    let (tools, names, picks) = choose|
        tools: Seq<DeclarationModel>,
        names: Seq<Seq<char>>,
        picks: Seq<Option<DeclarationModel>>,
    |
        {
            &&& #[trigger] tools_declared(registry, comments, agent, signature, tools)
            &&& are_candidates(comments, keys, names)
            &&& #[trigger] candidates_declared(
                names,
                registry,
                comments,
                agent,
                is_function,
                doc,
                signature,
                picks,
            )
            &&& out == tools + made(picks)
        };
    let n = tools.len() as int;
    let k = made_keep_their_order(picks, i - n, j - n);
    candidate_declared_name(
        names[k.0],
        registry,
        comments,
        agent,
        is_function,
        doc,
        signature,
        made(picks)[i - n],
    );
    candidate_declared_name(
        names[k.1],
        registry,
        comments,
        agent,
        is_function,
        doc,
        signature,
        made(picks)[j - n],
    );
    assert(text::text_le(names[k.0], names[k.1]));
}

/// A function that is no registered tool is described by what was written for it,
/// or else by the comment above it, and by nothing where the comment has no text. It
/// is declared only if it is a function and one of the two is there.
pub proof fn other_functions_are_described_by_their_documentation<
    I: Fn(&str) -> Result<bool, Error>,
    D: Fn(&str) -> Result<Option<String>, Error>,
    S: Fn(&str, bool) -> Result<Vec<String>, Error>,
>(
    registry: Seq<(Seq<char>, ToolModel)>,
    comments: Seq<(Seq<char>, DocModel)>,
    keys: Seq<LuaModel>,
    agent: bool,
    is_function: I,
    doc: D,
    signature: S,
    out: Seq<DeclarationModel>,
    i: int,
) -> (written: Option<String>)
    requires
        discovered(registry, comments, keys, agent, is_function, doc, signature, out),
        registry.len() <= i < out.len(),
    ensures
        table::lookup(registry, out[i].name) is None,
        told(is_function, out[i].name, Ok::<bool, Error>(true)),
        told(doc, out[i].name, Ok::<Option<String>, Error>(written)),
        written is Some ==> out[i].description == written->0@,
        written is None ==> {
            &&& table::lookup(comments, out[i].name) is Some
            &&& table::lookup(comments, out[i].name)->0.description is Some ==> Some(
                out[i].description,
            ) == table::lookup(comments, out[i].name)->0.description
            &&& table::lookup(comments, out[i].name)->0.description is None
                ==> out[i].description.len() == 0
        },
{
    let (tools, names, picks) = choose|
        tools: Seq<DeclarationModel>,
        names: Seq<Seq<char>>,
        picks: Seq<Option<DeclarationModel>>,
    |
        {
            &&& #[trigger] tools_declared(registry, comments, agent, signature, tools)
            &&& are_candidates(comments, keys, names)
            &&& #[trigger] candidates_declared(
                names,
                registry,
                comments,
                agent,
                is_function,
                doc,
                signature,
                picks,
            )
            &&& out == tools + made(picks)
        };
    let n = tools.len() as int;
    let b = made_are_picks(picks, i - n);
    let d = made(picks)[i - n];
    candidate_declared_name(names[b], registry, comments, agent, is_function, doc, signature, d);
    let pick = Ok::<Option<DeclarationModel>, Error>(Some(d));
    assert(candidate_declared(
        names[b],
        registry,
        comments,
        agent,
        is_function,
        doc,
        signature,
        Ok::<Option<DeclarationModel>, Error>(picks[b]),
    ));
    assert(function_declared(names[b], comments, agent, doc, signature, pick));
    let w = choose|w: Result<Option<String>, Error>| #[trigger]
        told(doc, names[b], w) && match w {
            Err(e) => pick == Err::<Option<DeclarationModel>, Error>(e),
            Ok(w) => match declared_description(text::optional(w), comments, names[b]) {
                None => pick == Ok::<Option<DeclarationModel>, Error>(None),
                Some(d) => described_declared(names[b], d, comments, agent, signature, pick),
            },
        };
    w->Ok_0
}

/// A registered tool is called with the argument of each of its parameters in its
/// place, then with the arguments that no parameter is named after, and last with
/// what it is told of its surroundings; what it gives is handed back as a document.
pub proof fn registered_tools_are_called_with_their_arguments<
    I: Fn(&str) -> Result<bool, Error>,
    D: Fn(&str) -> Result<Option<String>, Error>,
    S: Fn(&str, bool) -> Result<Vec<String>, Error>,
    C: Fn(&str, bool, &Vec<LuaValue>) -> Result<LuaValue, Error>,
    A: Fn(&str) -> (),
>(
    name: Seq<char>,
    registry: Seq<(Seq<char>, ToolModel)>,
    comments: Seq<(Seq<char>, DocModel)>,
    m: Seq<(Seq<char>, JsonModel)>,
    envs: Seq<(Seq<char>, Seq<char>)>,
    is_function: I,
    doc: D,
    signature: S,
    call: C,
    announce: A,
    r: Result<Option<Value>, Error>,
    params: Seq<ParamModel>,
) -> (done: (Seq<LuaModel>, Result<LuaValue, Error>))
    requires
        lua_tool_ran(
            name,
            registry,
            comments,
            JsonModel::Object(m),
            envs,
            is_function,
            doc,
            signature,
            call,
            announce,
            r,
        ),
        table::lookup(registry, name) is Some,
        table::lookup(registry, name)->0.params == Some(params),
        table::distinct_keys(m),
    ensures
        call_gives(call, name, true, done.0, done.1),
        done.0.len() >= params.len() + 1,
        forall|i: int, k: int|
            0 <= i < params.len() && 0 <= k < m.len() && m[k].0 == params[i].name
                ==> #[trigger] done.0[i] == lua_value::to_lua((#[trigger] m[k]).1),
        forall|i: int|
            0 <= i < params.len() && (forall|k: int|
                0 <= k < m.len() ==> (#[trigger] m[k]).0 != params[i].name)
                ==> #[trigger] done.0[i] is Nil,
        done.0.last() == lua_tool::ctx_table(envs),
        match done.1 {
            Err(e) => r == Err::<Option<Value>, Error>(e),
            Ok(v) => match lua_value::to_json(v@) {
                Ok(j) => r is Ok && r->Ok_0 is Some && json::json_of(r->Ok_0->0) == j,
                Err(e) => r is Err && r->Err_0@ == e,
            },
        },
{
    let args = JsonModel::Object(m);
    let names = lua_tool::param_names(params);
    let given = lua_tool::call_args(args, names);
    assert(function_called(name, true, params, args, envs, call, r));
    let out = choose|out: Result<LuaValue, Error>| #[trigger]
        call_gives(call, name, true, given.push(lua_tool::ctx_table(envs)), out) && call_ended(
            out,
            r,
        );
    lua_tool::arguments_go_to_their_parameters(m, names);
    let passed = given.push(lua_tool::ctx_table(envs));
    assert forall|i: int, k: int|
        0 <= i < params.len() && 0 <= k < m.len() && m[k].0 == params[i].name
        implies #[trigger] passed[i] == lua_value::to_lua((#[trigger] m[k]).1) by {
        assert(names[i] == params[i].name);
        assert(given[i] == lua_value::to_lua(m[k].1));
    }
    assert forall|i: int|
        0 <= i < params.len() && (forall|k: int|
            0 <= k < m.len() ==> (#[trigger] m[k]).0 != params[i].name)
        implies #[trigger] passed[i] is Nil by {
        assert(names[i] == params[i].name);
        assert(given[i] is Nil);
    }
    (passed, out)
}

/// A name that no tool is registered under and that is no function gives nothing,
/// which is no error.
pub proof fn unknown_names_are_not_called<
    I: Fn(&str) -> Result<bool, Error>,
    D: Fn(&str) -> Result<Option<String>, Error>,
    S: Fn(&str, bool) -> Result<Vec<String>, Error>,
    C: Fn(&str, bool, &Vec<LuaValue>) -> Result<LuaValue, Error>,
    A: Fn(&str) -> (),
>(
    name: Seq<char>,
    registry: Seq<(Seq<char>, ToolModel)>,
    comments: Seq<(Seq<char>, DocModel)>,
    args: JsonModel,
    envs: Seq<(Seq<char>, Seq<char>)>,
    is_function: I,
    doc: D,
    signature: S,
    call: C,
    announce: A,
    r: Result<Option<Value>, Error>,
)
    requires
        lua_tool_ran(
            name,
            registry,
            comments,
            args,
            envs,
            is_function,
            doc,
            signature,
            call,
            announce,
            r,
        ),
        table::lookup(registry, name) is None,
        forall|f: Result<bool, Error>| #[trigger]
            told(is_function, name, f) ==> f == Ok::<bool, Error>(false),
    ensures
        r == Ok::<Option<Value>, Error>(None),
{
}

/// What is announced of a call is the name of the function and its description.
pub proof fn calls_are_announced_with_their_description(name: Seq<char>, d: Seq<char>)
    ensures
        call_line(name, None) == "Call "@ + name + " (lua)"@,
        call_line(name, Some(d)) == call_line(name, None) + " -- "@ + d,
{
    let line = "Call "@ + name + " (lua)"@;
    assert(line + Seq::<char>::empty() =~= line);
    assert(line + (" -- "@ + d) =~= line + " -- "@ + d);
}

/// The names among some keys are those of the keys that are texts.
pub proof fn keys_that_are_texts_are_names(keys: Seq<LuaModel>, name: Seq<char>)
    ensures
        key_texts(keys).contains(name) <==> exists|i: int|
            0 <= i < keys.len() && (#[trigger] keys[i]) is Text && lua_value::text_of(
                keys[i]->Text_0,
            ) == name,
    decreases keys.len(),
{
    if keys.len() > 0 {
        let before = keys.drop_last();
        keys_that_are_texts_are_names(before, name);
        if keys.last() is Text {
            pushed_contains(key_texts(before), lua_value::text_of(keys.last()->Text_0), name);
        }
        if key_texts(keys).contains(name) {
            if key_texts(before).contains(name) {
                let i = choose|i: int|
                    0 <= i < before.len() && (#[trigger] before[i]) is Text && lua_value::text_of(
                        before[i]->Text_0,
                    ) == name;
                assert(keys[i] == before[i]);
            } else {
                assert(keys[keys.len() - 1] is Text);
            }
        }
        if exists|i: int|
            0 <= i < keys.len() && (#[trigger] keys[i]) is Text && lua_value::text_of(
                keys[i]->Text_0,
            ) == name {
            let i = choose|i: int|
                0 <= i < keys.len() && (#[trigger] keys[i]) is Text && lua_value::text_of(
                    keys[i]->Text_0,
                ) == name;
            if i < before.len() {
                assert(before[i] == keys[i]);
            }
        }
    }
}

/// A call of a registered tool that has a description is announced with that.
pub proof fn registered_tools_are_announced<
    I: Fn(&str) -> Result<bool, Error>,
    D: Fn(&str) -> Result<Option<String>, Error>,
    S: Fn(&str, bool) -> Result<Vec<String>, Error>,
    C: Fn(&str, bool, &Vec<LuaValue>) -> Result<LuaValue, Error>,
    A: Fn(&str) -> (),
>(
    name: Seq<char>,
    registry: Seq<(Seq<char>, ToolModel)>,
    comments: Seq<(Seq<char>, DocModel)>,
    args: JsonModel,
    envs: Seq<(Seq<char>, Seq<char>)>,
    is_function: I,
    doc: D,
    signature: S,
    call: C,
    announce: A,
    r: Result<Option<Value>, Error>,
    d: Seq<char>,
)
    requires
        lua_tool_ran(
            name,
            registry,
            comments,
            args,
            envs,
            is_function,
            doc,
            signature,
            call,
            announce,
            r,
        ),
        table::lookup(registry, name) is Some,
        table::lookup(registry, name)->0.description == Some(d),
    ensures
        announced(announce, "Call "@ + name + " (lua)"@ + " -- "@ + d),
{
    calls_are_announced_with_their_description(name, d);
    let tool = table::lookup(registry, name);
    let shown = choose|shown: Option<Seq<char>>| #[trigger]
        shown_description(name, tool, comments, doc, shown) && announced(
            announce,
            call_line(name, shown),
        );
    assert(shown == Some(d));
}

/// What is told of a function that is no registered tool is what was written for it,
/// or else the text of the comment above it.
pub proof fn other_functions_are_announced_as_described<
    D: Fn(&str) -> Result<Option<String>, Error>,
>(
    name: Seq<char>,
    comments: Seq<(Seq<char>, DocModel)>,
    doc: D,
    out: Option<Seq<char>>,
) -> (written: Result<Option<String>, Error>)
    requires
        shown_description(name, None, comments, doc, out),
    ensures
        told(doc, name, written),
        written is Ok && written->Ok_0 is Some ==> out == Some(written->Ok_0->0@),
        !(written is Ok && written->Ok_0 is Some) && table::lookup(comments, name) is Some ==> out
            == table::lookup(comments, name)->0.description,
        !(written is Ok && written->Ok_0 is Some) && table::lookup(comments, name) is None
            ==> out is None,
{
    choose|w: Result<Option<String>, Error>| #[trigger]
        told(doc, name, w) && out == description_of(
            match w {
                Ok(t) => text::optional(t),
                Err(_) => None,
            },
            comments,
            name,
        )
}

/// A function that a comment documents, and that is no registered tool, is declared
/// with the parameters of the comment, in their order and each with its description;
/// all of them are required.
pub proof fn commented_functions_are_declared_with_their_parameters<
    I: Fn(&str) -> Result<bool, Error>,
    D: Fn(&str) -> Result<Option<String>, Error>,
    S: Fn(&str, bool) -> Result<Vec<String>, Error>,
>(
    registry: Seq<(Seq<char>, ToolModel)>,
    comments: Seq<(Seq<char>, DocModel)>,
    keys: Seq<LuaModel>,
    agent: bool,
    is_function: I,
    doc: D,
    signature: S,
    out: Seq<DeclarationModel>,
    i: int,
    k: int,
)
    requires
        discovered(registry, comments, keys, agent, is_function, doc, signature, out),
        registry.len() <= i < out.len(),
        table::lookup(comments, out[i].name) is Some,
        ({
            let params = table::lookup(comments, out[i].name)->0.params;
            0 <= k < params.len() && forall|j: int|
                k < j < params.len() ==> (#[trigger] params[j]).0 != params[k].0
        }),
    ensures
        ({
            let params = table::lookup(comments, out[i].name)->0.params;
            let properties = out[i].parameters.properties;
            &&& out[i].parameters.required == Some(
                params.map_values(|p: (Seq<char>, Seq<char>)| p.0),
            )
            &&& properties is Some
            &&& table::lookup(properties->0, params[k].0) is Some
            &&& ({
                let s = table::lookup(properties->0, params[k].0)->0;
                &&& s.type_value == Some("string"@)
                &&& s.enum_value is None
                &&& s.description == if params[k].1.len() == 0 {
                    None
                } else {
                    Some(params[k].1)
                }
            })
        }),
{
    let (tools, names, picks) = choose|
        tools: Seq<DeclarationModel>,
        names: Seq<Seq<char>>,
        picks: Seq<Option<DeclarationModel>>,
    |
        {
            &&& #[trigger] tools_declared(registry, comments, agent, signature, tools)
            &&& are_candidates(comments, keys, names)
            &&& #[trigger] candidates_declared(
                names,
                registry,
                comments,
                agent,
                is_function,
                doc,
                signature,
                picks,
            )
            &&& out == tools + made(picks)
        };
    let n = tools.len() as int;
    let b = made_are_picks(picks, i - n);
    let d = made(picks)[i - n];
    candidate_declared_name(names[b], registry, comments, agent, is_function, doc, signature, d);
    let pick = Ok::<Option<DeclarationModel>, Error>(Some(d));
    assert(candidate_declared(
        names[b],
        registry,
        comments,
        agent,
        is_function,
        doc,
        signature,
        Ok::<Option<DeclarationModel>, Error>(picks[b]),
    ));
    assert(function_declared(names[b], comments, agent, doc, signature, pick));
    let listed = table::lookup(comments, d.name)->0.params;
    let params = lua_tool::commented_params(listed);
    assert(d == lua_tool::declaration(d.name, d.description, params, agent));
    assert forall|j: int| k < j < params.len() implies (#[trigger] params[j]).name
        != params[k].name by {
        assert(listed[j].0 != listed[k].0);
    }
    lua_tool::parameters_are_declared_as_given(d.name, d.description, params, agent, k);
    lua_tool::declarations_tell_the_tool(d.name, d.description, params, agent);
    all_are_kept(params);
    assert(params.map_values(|p: ParamModel| p.name) =~= listed.map_values(
        |p: (Seq<char>, Seq<char>)| p.0,
    ));
}

/// Where every parameter is required, the required ones are all of them.
proof fn all_are_kept(params: Seq<ParamModel>)
    requires
        forall|i: int| 0 <= i < params.len() ==> (#[trigger] params[i]).required,
    ensures
        params.filter(|p: ParamModel| p.required) == params,
    decreases params.len(),
{
    reveal(Seq::filter);
    if params.len() > 0 {
        let before = params.drop_last();
        assert forall|i: int| 0 <= i < before.len() implies (#[trigger] before[i]).required by {
            assert(before[i] == params[i]);
        }
        all_are_kept(before);
        assert(params[params.len() - 1].required);
        assert(params =~= before.push(params.last()));
    }
}

} // verus!
