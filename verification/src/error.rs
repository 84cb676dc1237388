//! What can go wrong.

use vstd::prelude::*;

use crate::text;

verus! {

/// An error.
#[derive(Debug, PartialEq, Eq)]
pub enum Error {
    /// No function call is left to make.
    FunctionLoop,
    /// The arguments of a call are neither an object nor the text of a document.
    InvalidArguments { call: String, arguments: String },
    /// The call is of a function that is not declared.
    UnexpectedCall { name: String, arguments: String },
    /// The arguments of a call for a subagent cannot be read.
    InvalidSpawnArguments,
    /// A call for a subagent lacks an argument.
    MissingSpawnArgument { name: String },
    /// The agent may not be spawned.
    AgentNotAllowed { name: String },
    /// Subagents may not be nested deeper.
    SpawnDepthReached,
    /// A program for a function failed.
    ExitStatus { code: i32 },
    /// There is no such agent.
    UnknownAgent { name: String },
    /// There is no such role.
    UnknownRole { name: String },
    /// A document of an agent lies outside the agent's directory.
    InvalidDocumentPath { path: String },
    /// The instructions that a function gave are not a text.
    InstructionsNotText { value: String },
    /// The instructions function gave nothing.
    NoInstructions,
    /// Variables of an agent are not set; a line for each.
    RequiredVariables { lines: Vec<String> },
    /// The session has messages.
    SessionNotEmpty,
    /// A value of Lua has no JSON form.
    LuaValue { found: String },
    /// A key of a Lua table has no JSON form.
    LuaKey { found: String },
    /// An entry of a tool's parameters is neither a text nor a table.
    ParamEntry { index: u64 },
    /// An entry of a tool's parameters has no name.
    ParamName { index: u64 },
    /// A tool is registered without a function.
    MissingHandler { name: String },
    /// Work outside this library failed.
    Outside { words: String },
}

/// What an error says.
pub enum ErrorModel {
    FunctionLoop,
    InvalidArguments { call: Seq<char>, arguments: Seq<char> },
    UnexpectedCall { name: Seq<char>, arguments: Seq<char> },
    InvalidSpawnArguments,
    MissingSpawnArgument { name: Seq<char> },
    AgentNotAllowed { name: Seq<char> },
    SpawnDepthReached,
    ExitStatus { code: i32 },
    UnknownAgent { name: Seq<char> },
    UnknownRole { name: Seq<char> },
    InvalidDocumentPath { path: Seq<char> },
    InstructionsNotText { value: Seq<char> },
    NoInstructions,
    RequiredVariables { lines: Seq<Seq<char>> },
    SessionNotEmpty,
    LuaValue { found: Seq<char> },
    LuaKey { found: Seq<char> },
    ParamEntry { index: u64 },
    ParamName { index: u64 },
    MissingHandler { name: Seq<char> },
    Outside { words: Seq<char> },
}

impl View for Error {
    type V = ErrorModel;

    open spec fn view(&self) -> ErrorModel {
        match self {
            Error::FunctionLoop => ErrorModel::FunctionLoop,
            Error::InvalidArguments { call, arguments } => ErrorModel::InvalidArguments {
                call: call@,
                arguments: arguments@,
            },
            Error::UnexpectedCall { name, arguments } => ErrorModel::UnexpectedCall {
                name: name@,
                arguments: arguments@,
            },
            Error::InvalidSpawnArguments => ErrorModel::InvalidSpawnArguments,
            Error::MissingSpawnArgument { name } => ErrorModel::MissingSpawnArgument {
                name: name@,
            },
            Error::AgentNotAllowed { name } => ErrorModel::AgentNotAllowed { name: name@ },
            Error::SpawnDepthReached => ErrorModel::SpawnDepthReached,
            Error::ExitStatus { code } => ErrorModel::ExitStatus { code: *code },
            Error::UnknownAgent { name } => ErrorModel::UnknownAgent { name: name@ },
            Error::UnknownRole { name } => ErrorModel::UnknownRole { name: name@ },
            Error::InvalidDocumentPath { path } => ErrorModel::InvalidDocumentPath { path: path@ },
            Error::InstructionsNotText { value } => ErrorModel::InstructionsNotText {
                value: value@,
            },
            Error::NoInstructions => ErrorModel::NoInstructions,
            Error::RequiredVariables { lines } => ErrorModel::RequiredVariables {
                lines: text::texts(lines@),
            },
            Error::SessionNotEmpty => ErrorModel::SessionNotEmpty,
            Error::LuaValue { found } => ErrorModel::LuaValue { found: found@ },
            Error::LuaKey { found } => ErrorModel::LuaKey { found: found@ },
            Error::ParamEntry { index } => ErrorModel::ParamEntry { index: *index },
            Error::ParamName { index } => ErrorModel::ParamName { index: *index },
            Error::MissingHandler { name } => ErrorModel::MissingHandler { name: name@ },
            Error::Outside { words } => ErrorModel::Outside { words: words@ },
        }
    }
}

/// The words of an error.
pub open spec fn words(e: ErrorModel) -> Seq<char> {
    match e {
        ErrorModel::FunctionLoop =>
            "The request was aborted because an infinite loop of function calls was detected."@,
        ErrorModel::InvalidArguments { call, arguments } => "The call '"@ + call
            + "' has invalid arguments: "@ + arguments,
        ErrorModel::UnexpectedCall { name, arguments } => "Unexpected call: "@ + name + " "@
            + arguments,
        ErrorModel::InvalidSpawnArguments => "The call 'spawn_subagent' has invalid arguments"@,
        ErrorModel::MissingSpawnArgument { name } => "spawn_subagent requires an '"@ + name
            + "' argument"@,
        ErrorModel::AgentNotAllowed { name } => "Agent '"@ + name
            + "' is not in the allowlist for spawning subagents"@,
        ErrorModel::SpawnDepthReached => "Maximum subagent spawn depth reached"@,
        ErrorModel::ExitStatus { code } => "Tool call exit with "@ + text::signed_decimal(
            code as int,
        ),
        ErrorModel::UnknownAgent { name } => "Unknown agent `"@ + name + "`"@,
        ErrorModel::UnknownRole { name } => "Unknown role `"@ + name + "`"@,
        ErrorModel::InvalidDocumentPath { path } => "Invalid document path: '"@ + path + "'"@,
        ErrorModel::InstructionsNotText { value } => "'_instructions' must return a string, got: "@
            + value,
        ErrorModel::NoInstructions => "No return value from '_instructions' function"@,
        ErrorModel::RequiredVariables { lines } =>
            "The following agent variables are required:\n"@ + text::joined(lines, "\n"@),
        ErrorModel::SessionNotEmpty =>
            "Cannot perform this operation because the session has messages, please `.empty session` first."@,
        ErrorModel::LuaValue { found } => "Lua tool returned a "@ + found
            + " value, which can't be converted to JSON"@,
        ErrorModel::LuaKey { found } => "Lua table has a "@ + found
            + " key, which can't become a JSON object key"@,
        ErrorModel::ParamEntry { index } => "`params["@ + text::decimal(index as nat)
            + "]` must be a string or a table with a `name` field"@,
        ErrorModel::ParamName { index } => "`params["@ + text::decimal(index as nat)
            + "]` table is missing a `name` field"@,
        ErrorModel::MissingHandler { name } => "register(\""@ + name
            + "\", ...) requires a `handler` function"@,
        ErrorModel::Outside { words } => words,
    }
}

/// Three texts, one behind the other.
fn around(before: &str, inner: &str, after: &str) -> (r: String)
    ensures
        r@ == before@ + inner@ + after@,
{
    let mut out = before.to_owned();
    out.append(inner);
    out.append(after);
    out
}

/// Two texts, one behind the other.
fn behind(before: &str, inner: &str) -> (r: String)
    ensures
        r@ == before@ + inner@,
{
    let mut out = before.to_owned();
    out.append(inner);
    out
}

impl Error {
    /// The words of the error.
    pub fn message(&self) -> (r: String)
        ensures
            r@ == words(self@),
    {
        match self {
            Error::FunctionLoop =>
                "The request was aborted because an infinite loop of function calls was detected.".to_owned(),
            Error::InvalidArguments { call, arguments } => behind(
                around("The call '", call.as_str(), "' has invalid arguments: ").as_str(),
                arguments.as_str(),
            ),
            Error::UnexpectedCall { name, arguments } => behind(
                around("Unexpected call: ", name.as_str(), " ").as_str(),
                arguments.as_str(),
            ),
            Error::InvalidSpawnArguments =>
                "The call 'spawn_subagent' has invalid arguments".to_owned(),
            Error::MissingSpawnArgument { name } => around(
                "spawn_subagent requires an '",
                name.as_str(),
                "' argument",
            ),
            Error::AgentNotAllowed { name } => around(
                "Agent '",
                name.as_str(),
                "' is not in the allowlist for spawning subagents",
            ),
            Error::SpawnDepthReached => "Maximum subagent spawn depth reached".to_owned(),
            Error::ExitStatus { code } => behind(
                "Tool call exit with ",
                text::integer_text(*code as i64).as_str(),
            ),
            Error::UnknownAgent { name } => around("Unknown agent `", name.as_str(), "`"),
            Error::UnknownRole { name } => around("Unknown role `", name.as_str(), "`"),
            Error::InvalidDocumentPath { path } => around(
                "Invalid document path: '",
                path.as_str(),
                "'",
            ),
            Error::InstructionsNotText { value } => behind(
                "'_instructions' must return a string, got: ",
                value.as_str(),
            ),
            Error::NoInstructions => "No return value from '_instructions' function".to_owned(),
            Error::RequiredVariables { lines } => behind(
                "The following agent variables are required:\n",
                text::join(lines, "\n").as_str(),
            ),
            Error::SessionNotEmpty =>
                "Cannot perform this operation because the session has messages, please `.empty session` first.".to_owned(),
            Error::LuaValue { found } => around(
                "Lua tool returned a ",
                found.as_str(),
                " value, which can't be converted to JSON",
            ),
            Error::LuaKey { found } => around(
                "Lua table has a ",
                found.as_str(),
                " key, which can't become a JSON object key",
            ),
            Error::ParamEntry { index } => around(
                "`params[",
                text::number_text(*index).as_str(),
                "]` must be a string or a table with a `name` field",
            ),
            Error::ParamName { index } => around(
                "`params[",
                text::number_text(*index).as_str(),
                "]` table is missing a `name` field",
            ),
            Error::MissingHandler { name } => around(
                "register(\"",
                name.as_str(),
                "\", ...) requires a `handler` function",
            ),
            Error::Outside { words } => words.clone(),
        }
    }
}

/// A text stands in what it was put into.
proof fn stands_between(a: Seq<char>, t: Seq<char>, b: Seq<char>)
    ensures
        text::occurs(a + t + b, t),
        text::occurs(a + t, t),
{
    let n = a.len() as int;
    assert((a + t + b).subrange(n, n + t.len()) =~= t);
    assert(text::occurs_at(a + t + b, t, n));
    assert((a + t).subrange(n, n + t.len()) =~= t);
    assert(text::occurs_at(a + t, t, n));
}

/// The words of an error tell what it is about.
pub proof fn errors_tell_what_they_are_about(e: ErrorModel)
    ensures
        match e {
            ErrorModel::InvalidArguments { call, arguments } => text::occurs(words(e), call)
                && text::occurs(words(e), arguments),
            ErrorModel::UnexpectedCall { name, arguments } => text::occurs(words(e), name)
                && text::occurs(words(e), arguments),
            ErrorModel::MissingSpawnArgument { name } => text::occurs(words(e), name),
            ErrorModel::AgentNotAllowed { name } => text::occurs(words(e), name),
            ErrorModel::ExitStatus { code } => text::occurs(
                words(e),
                text::signed_decimal(code as int),
            ),
            ErrorModel::UnknownAgent { name } => text::occurs(words(e), name),
            ErrorModel::UnknownRole { name } => text::occurs(words(e), name),
            ErrorModel::InvalidDocumentPath { path } => text::occurs(words(e), path),
            ErrorModel::InstructionsNotText { value } => text::occurs(words(e), value),
            ErrorModel::RequiredVariables { lines } => text::occurs(
                words(e),
                text::joined(lines, "\n"@),
            ),
            ErrorModel::LuaValue { found } => text::occurs(words(e), found),
            ErrorModel::LuaKey { found } => text::occurs(words(e), found),
            ErrorModel::ParamEntry { index } => text::occurs(words(e), text::decimal(index as nat)),
            ErrorModel::ParamName { index } => text::occurs(words(e), text::decimal(index as nat)),
            ErrorModel::MissingHandler { name } => text::occurs(words(e), name),
            ErrorModel::Outside { words: told } => words(e) == told,
            _ => true,
        },
{
    match e {
        ErrorModel::InvalidArguments { call, arguments } => {
            let rest = "' has invalid arguments: "@ + arguments;
            stands_between("The call '"@, call, rest);
            assert(words(e) =~= "The call '"@ + call + rest);
            stands_between("The call '"@ + call + "' has invalid arguments: "@, arguments, seq![]);
        },
        ErrorModel::UnexpectedCall { name, arguments } => {
            let rest = " "@ + arguments;
            stands_between("Unexpected call: "@, name, rest);
            assert(words(e) =~= "Unexpected call: "@ + name + rest);
            stands_between("Unexpected call: "@ + name + " "@, arguments, seq![]);
        },
        ErrorModel::MissingSpawnArgument { name } => {
            stands_between("spawn_subagent requires an '"@, name, "' argument"@);
        },
        ErrorModel::AgentNotAllowed { name } => {
            stands_between("Agent '"@, name, "' is not in the allowlist for spawning subagents"@);
        },
        ErrorModel::ExitStatus { code } => {
            stands_between("Tool call exit with "@, text::signed_decimal(code as int), seq![]);
        },
        ErrorModel::UnknownAgent { name } => {
            stands_between("Unknown agent `"@, name, "`"@);
        },
        ErrorModel::UnknownRole { name } => {
            stands_between("Unknown role `"@, name, "`"@);
        },
        ErrorModel::InvalidDocumentPath { path } => {
            stands_between("Invalid document path: '"@, path, "'"@);
        },
        ErrorModel::InstructionsNotText { value } => {
            stands_between("'_instructions' must return a string, got: "@, value, seq![]);
        },
        ErrorModel::RequiredVariables { lines } => {
            stands_between(
                "The following agent variables are required:\n"@,
                text::joined(lines, "\n"@),
                seq![],
            );
        },
        ErrorModel::LuaValue { found } => {
            stands_between(
                "Lua tool returned a "@,
                found,
                " value, which can't be converted to JSON"@,
            );
        },
        ErrorModel::LuaKey { found } => {
            stands_between(
                "Lua table has a "@,
                found,
                " key, which can't become a JSON object key"@,
            );
        },
        ErrorModel::ParamEntry { index } => {
            stands_between(
                "`params["@,
                text::decimal(index as nat),
                "]` must be a string or a table with a `name` field"@,
            );
        },
        ErrorModel::ParamName { index } => {
            stands_between(
                "`params["@,
                text::decimal(index as nat),
                "]` table is missing a `name` field"@,
            );
        },
        ErrorModel::MissingHandler { name } => {
            stands_between("register(\""@, name, "\", ...) requires a `handler` function"@);
        },
        _ => {},
    }
}

} // verus!
