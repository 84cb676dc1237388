//! Making the calls of functions that the model asks for.

use serde_json::Value;
use vstd::prelude::*;

use crate::closure;
use crate::config;
use crate::config::{Config, ConfigModel, DirModel, FunctionsDir};
use crate::error::{Error, ErrorModel};
use crate::function;
use crate::function::{DeclarationModel, ToolCall, ToolCallModel, SPAWN_SUBAGENT_TOOL_NAME};
use crate::json;
use crate::json::{JsonModel, JsonParts};
use crate::render;
use crate::role;
use crate::role::{Role, RoleModel};
use crate::table;
use crate::table::Table;
use crate::text;

verus! {

// ---- What to call ----

/// How a function is called.
#[derive(Debug)]
pub struct CallConfig {
    /// The name of the call, for messages.
    pub call_name: String,
    /// The name of the program.
    pub cmd_name: String,
    pub cmd_args: Vec<String>,
    /// The environment of the program.
    pub envs: Table<String>,
}

/// How a function is called.
pub struct CallModel {
    pub call_name: Seq<char>,
    pub cmd_name: Seq<char>,
    pub cmd_args: Seq<Seq<char>>,
    pub envs: Seq<(Seq<char>, Seq<char>)>,
}

impl View for CallConfig {
    type V = CallModel;

    open spec fn view(&self) -> CallModel {
        CallModel {
            call_name: self.call_name@,
            cmd_name: self.cmd_name@,
            cmd_args: text::texts(self.cmd_args@),
            envs: table::texts_under(self.envs@),
        }
    }
}

/// How a function that every role may call is called: its program is named after
/// it.
pub open spec fn shared_call(name: Seq<char>) -> CallModel {
    CallModel { call_name: name, cmd_name: name, cmd_args: seq![], envs: seq![] }
}

/// How a function of an agent is called: by the agent's program, with the name of
/// the function and the agent's variables.
pub open spec fn agent_call(
    agent: Seq<char>,
    name: Seq<char>,
    envs: Seq<(Seq<char>, Seq<char>)>,
) -> CallModel {
    CallModel {
        call_name: agent + "-"@ + name,
        cmd_name: agent,
        cmd_args: seq![name],
        envs,
    }
}

/// How finding out how to call a function that is no agent's own ends.
pub open spec fn shared_call_found(
    call: ToolCallModel,
    functions: Seq<DeclarationModel>,
    r: Result<CallConfig, Error>,
) -> bool {
    match r {
        Ok(c) => function::find_declaration(functions, call.name) is Some && c@ == shared_call(
            call.name,
        ),
        Err(e) => function::find_declaration(functions, call.name) is None && e@
            == (ErrorModel::UnexpectedCall {
            name: call.name,
            arguments: json::json_text(call.arguments),
        }),
    }
}

/// How finding out how to call a function ends while an agent is active.
pub open spec fn agent_call_found<F: Fn(&str) -> String>(
    call: ToolCallModel,
    agent: RoleModel,
    functions: Seq<DeclarationModel>,
    normalize: F,
    r: Result<CallConfig, Error>,
) -> bool {
    match function::find_declaration(agent.functions, call.name) {
        Some(d) => if d.agent {
            r matches Ok(c) && c@ == agent_call(agent.name, call.name, c@.envs)
                && role::variable_envs_are(role::current_variables(agent), normalize, c@.envs)
        } else {
            r matches Ok(c) && c@ == shared_call(call.name)
        },
        None => shared_call_found(call, functions, r),
    }
}

/// How finding out how to call a function ends.
pub open spec fn call_found<F: Fn(&str) -> String>(
    call: ToolCallModel,
    config: ConfigModel,
    normalize: F,
    r: Result<CallConfig, Error>,
) -> bool {
    match config.agent {
        Some(agent) => agent_call_found(call, agent, config.functions, normalize, r),
        None => shared_call_found(call, config.functions, r),
    }
}

/// How a function that every role may call is called.
fn shared_call_config(name: &String) -> (r: CallConfig)
    ensures
        r@ == shared_call(name@),
{
    let r = CallConfig {
        call_name: name.clone(),
        cmd_name: name.clone(),
        cmd_args: Vec::new(),
        envs: Table::new(),
    };
    proof {
        assert(r@.cmd_args =~= seq![]);
        assert(r@.envs =~= seq![]);
    }
    r
}

/// The arguments of a call as a document: an object as it stands, a text as the
/// document that it is the text of.
pub open spec fn document(arguments: JsonModel) -> Option<JsonModel> {
    match arguments {
        JsonModel::Object(_) => Some(arguments),
        JsonModel::Text(t) => json::json_parse(t),
        _ => None,
    }
}

/// The arguments of a call, for messages.
pub open spec fn shown_arguments(arguments: JsonModel) -> Seq<char> {
    match arguments {
        JsonModel::Text(t) => t,
        other => json::json_text(other),
    }
}

/// The arguments of a call as a document.
pub fn read_arguments(arguments: &Value) -> (r: Option<Value>)
    ensures
        match r {
            Some(v) => document(json::json_of(*arguments)) == Some(json::json_of(v)),
            None => document(json::json_of(*arguments)) is None,
        },
{
    if json::is_object(arguments) {
        return Some(arguments.clone());
    }
    match json::as_text(arguments) {
        Some(t) => json::parse_value(t.as_str()),
        None => None,
    }
}

impl ToolCall {
    /// How the call is made while an agent is active.
    fn extract_call_config_from_agent<F: Fn(&str) -> String>(
        &self,
        config: &Config,
        agent: &Role,
        normalize: &F,
    ) -> (r: Result<CallConfig, Error>)
        requires
            closure::takes_all(*normalize),
        ensures
            agent_call_found(self@, agent@, config@.functions, *normalize, r),
    {
        match agent.functions().find(self.name.as_str()) {
            Some(function) => {
                if function.agent {
                    let mut call_name = agent.name.clone();
                    call_name.append("-");
                    call_name.append(self.name.as_str());
                    let mut cmd_args: Vec<String> = Vec::new();
                    cmd_args.push(self.name.clone());
                    proof {
                        assert(text::texts(cmd_args@) =~= seq![self.name@]);
                    }
                    Ok(
                        CallConfig {
                            call_name,
                            cmd_name: agent.name.clone(),
                            cmd_args,
                            envs: agent.variable_envs(normalize),
                        },
                    )
                } else {
                    Ok(shared_call_config(&self.name))
                }
            },
            None => self.extract_call_config_from_config(config),
        }
    }

    /// How the call is made where no agent is active.
    fn extract_call_config_from_config(&self, config: &Config) -> (r: Result<CallConfig, Error>)
        ensures
            shared_call_found(self@, config@.functions, r),
    {
        if config.functions.contains(self.name.as_str()) {
            Ok(shared_call_config(&self.name))
        } else {
            Err(
                Error::UnexpectedCall {
                    name: self.name.clone(),
                    arguments: json::value_text(&self.arguments),
                },
            )
        }
    }

    /// How the call is made.
    pub fn call_config<F: Fn(&str) -> String>(&self, config: &Config, normalize: &F) -> (r: Result<
        CallConfig,
        Error,
    >)
        requires
            closure::takes_all(*normalize),
        ensures
            call_found(self@, config@, *normalize, r),
    {
        match &config.agent {
            Some(agent) => self.extract_call_config_from_agent(config, agent, normalize),
            None => self.extract_call_config_from_config(config),
        }
    }
}

/// An agent that is active declares a function itself.
pub open spec fn overrides(config: ConfigModel, name: Seq<char>) -> bool {
    config.agent matches Some(agent) && function::find_declaration(agent.functions, name) is Some
}

/// Whether an agent that is active declares a function itself.
pub fn agent_declares_override(config: &Config, name: &str) -> (r: bool)
    ensures
        r == overrides(config@, name@),
{
    match &config.agent {
        Some(agent) => agent.functions().contains(name),
        None => false,
    }
}

/// The directory that holds the scripts for a call: that of the agent for one of
/// its own functions, else the shared one.
pub open spec fn scripts_dir(cmd_name: Seq<char>, cmd_args: nat) -> DirModel {
    if cmd_args > 0 {
        DirModel::Agent(cmd_name)
    } else {
        DirModel::Shared
    }
}

/// The directory that holds the scripts for a call.
pub fn lua_tools_dir_for(cmd_name: &str, cmd_args: &[String]) -> (r: FunctionsDir)
    ensures
        r@ == scripts_dir(cmd_name@, cmd_args@.len()),
{
    if cmd_args.len() > 0 {
        Config::agent_dir(cmd_name)
    } else {
        Config::functions_dir()
    }
}

/// What is to be done for a call.
#[derive(Debug)]
pub enum EvalPlan {
    /// Run a subagent.
    Spawn,
    /// Call a function: by a script, where scripts are in use and one is found, or
    /// else by a program.
    Call {
        config: CallConfig,
        arguments: Value,
        scripts: Option<FunctionsDir>,
    },
}

/// A call is for a subagent, and no agent has a function of that name.
pub open spec fn is_spawn(call: ToolCallModel, config: ConfigModel) -> bool {
    call.name == SPAWN_SUBAGENT_TOOL_NAME@ && !overrides(config, call.name)
}

/// What is to be done for a call of a function that can be called so.
pub open spec fn planned(
    call: ToolCallModel,
    config: ConfigModel,
    found: CallModel,
    r: Result<EvalPlan, Error>,
) -> bool {
    match document(call.arguments) {
        Some(v) => {
            &&& r matches Ok(EvalPlan::Call { config: c, arguments, scripts })
            &&& c@ == found
            &&& json::json_of(arguments) == v
            &&& scripts is Some <==> config.lua_tools
            &&& scripts matches Some(dir) ==> dir@ == scripts_dir(
                found.cmd_name,
                found.cmd_args.len(),
            )
        },
        None => r is Err && r->Err_0@ == (ErrorModel::InvalidArguments {
            call: found.call_name,
            arguments: shown_arguments(call.arguments),
        }),
    }
}

/// What is to be done for a call of a function: first it is found out how the
/// function is called, then its arguments are read.
pub open spec fn plan_outcome<F: Fn(&str) -> String>(
    call: ToolCallModel,
    config: ConfigModel,
    normalize: F,
    r: Result<EvalPlan, Error>,
) -> bool {
    exists|found: Result<CallConfig, Error>| #[trigger]
        call_found(call, config, normalize, found) && match found {
            Ok(c) => planned(call, config, c@, r),
            Err(e) => r == Err::<EvalPlan, Error>(e),
        }
}

impl ToolCall {
    /// What is to be done for the call.
    pub fn eval<F: Fn(&str) -> String>(&self, config: &Config, normalize: &F) -> (r: Result<
        EvalPlan,
        Error,
    >)
        requires
            closure::takes_all(*normalize),
        ensures
            is_spawn(self@, config@) ==> r == Ok::<EvalPlan, Error>(EvalPlan::Spawn),
            !is_spawn(self@, config@) ==> plan_outcome(self@, config@, *normalize, r),
    {
        if text::same_text(self.name.as_str(), SPAWN_SUBAGENT_TOOL_NAME)
            && !agent_declares_override(config, self.name.as_str()) {
            return Ok(EvalPlan::Spawn);
        }
        let found = self.call_config(config, normalize);
        let ghost known = found;
        let call = match found {
            Ok(c) => c,
            Err(e) => {
                proof {
                    assert(call_found(self@, config@, *normalize, known));
                }
                return Err(e);
            },
        };
        let r = match read_arguments(&self.arguments) {
            Some(arguments) => {
                let scripts = if config.lua_tools {
                    Some(lua_tools_dir_for(call.cmd_name.as_str(), call.cmd_args.as_slice()))
                } else {
                    None
                };
                Ok(EvalPlan::Call { config: call, arguments, scripts })
            },
            None => {
                let arguments = match json::as_text(&self.arguments) {
                    Some(t) => t.clone(),
                    None => json::value_text(&self.arguments),
                };
                Err(Error::InvalidArguments { call: call.call_name, arguments })
            },
        };
        proof {
            assert(call_found(self@, config@, *normalize, known));
            assert(planned(self@, config@, call@, r));
        }
        r
    }
}

/// The command line of a program: the arguments of the call come last, as text.
pub fn command_args(config: &CallConfig, arguments: &Value) -> (r: Vec<String>)
    ensures
        text::texts(r@) == config@.cmd_args.push(json::json_text(json::json_of(*arguments))),
{
    let mut args = text::clone_texts(&config.cmd_args);
    let last = json::value_text(arguments);
    proof {
        text::texts_push(args@, last);
    }
    args.push(last);
    args
}

/// What is to be done next for a call of a function.
#[derive(Debug)]
pub enum CallStep {
    /// Call the function in the scripts of a directory, where they have it.
    Script { dir: FunctionsDir },
    /// Run the program, with this command line.
    Run { args: Vec<String> },
    /// Nothing more: this is what the function gave.
    Done(Value),
}

/// What is to be done next for a call of a function.
pub enum StepModel {
    Script { dir: DirModel },
    Run { args: Seq<Seq<char>> },
    Done(JsonModel),
}

impl View for CallStep {
    type V = StepModel;

    open spec fn view(&self) -> StepModel {
        match self {
            CallStep::Script { dir } => StepModel::Script { dir: dir@ },
            CallStep::Run { args } => StepModel::Run { args: text::texts(args@) },
            CallStep::Done(v) => StepModel::Done(json::json_of(*v)),
        }
    }
}

/// The program is run, with the arguments of the call behind its own.
pub open spec fn program_step(found: CallModel, arguments: JsonModel) -> StepModel {
    StepModel::Run { args: found.cmd_args.push(json::json_text(arguments)) }
}

/// What is done first for a call of a function. `scripts` is the directory of the
/// scripts, where these are in use, and `has_scripts` says that there are any in it.
pub open spec fn opening_step(
    found: CallModel,
    arguments: JsonModel,
    scripts: Option<DirModel>,
    has_scripts: bool,
) -> StepModel {
    match scripts {
        Some(dir) if has_scripts => StepModel::Script { dir },
        _ => program_step(found, arguments),
    }
}

/// What is done when the scripts were looked through; `given` is what the function
/// gave, where they have it.
pub open spec fn step_after_script(
    found: CallModel,
    arguments: JsonModel,
    given: Option<JsonModel>,
) -> StepModel {
    match given {
        Some(v) => StepModel::Done(v),
        None => program_step(found, arguments),
    }
}

/// What is to be done first for a call of a function: the scripts are looked through,
/// where they are in use and there are any, or else the program is run.
pub fn first_step(
    config: &CallConfig,
    arguments: &Value,
    scripts: Option<FunctionsDir>,
    has_scripts: bool,
) -> (r: CallStep)
    ensures
        r@ == opening_step(
            config@,
            json::json_of(*arguments),
            config::dir_of(scripts),
            has_scripts,
        ),
{
    match scripts {
        Some(dir) => if has_scripts {
            CallStep::Script { dir }
        } else {
            CallStep::Run { args: command_args(config, arguments) }
        },
        None => CallStep::Run { args: command_args(config, arguments) },
    }
}

/// What is to be done when the scripts were looked through: what the function gave ends
/// the call, and where they do not have it, the program is run.
pub fn after_script(config: &CallConfig, arguments: &Value, given: Option<Value>) -> (r: CallStep)
    ensures
        match given {
            Some(v) => r matches CallStep::Done(out) && json::json_of(out) == json::json_of(v),
            None => r matches CallStep::Run { args } && text::texts(args@)
                == config@.cmd_args.push(json::json_text(json::json_of(*arguments))),
        },
        r@ == step_after_script(
            config@,
            json::json_of(*arguments),
            match given {
                Some(v) => Some(json::json_of(v)),
                None => None,
            },
        ),
{
    match given {
        Some(v) => CallStep::Done(v),
        None => CallStep::Run { args: command_args(config, arguments) },
    }
}

/// The program is run for a call: at once, or after the scripts were looked through.
pub open spec fn runs_program(
    found: CallModel,
    arguments: JsonModel,
    scripts: Option<DirModel>,
    has_scripts: bool,
    given: Option<JsonModel>,
) -> bool {
    match opening_step(found, arguments, scripts, has_scripts) {
        StepModel::Script { .. } => step_after_script(found, arguments, given) is Run,
        StepModel::Run { .. } => true,
        StepModel::Done(_) => false,
    }
}

/// The order in which a call that is no subagent's is tried: the function in the scripts
/// comes first, and what it gives ends the call; the program is run only where scripts
/// are not in use, there are none, or they do not have the function.
pub proof fn scripts_come_before_programs(
    call: ToolCallModel,
    config: ConfigModel,
    found: CallModel,
    plan: EvalPlan,
    has_scripts: bool,
    given: Option<JsonModel>,
)
    requires
        planned(call, config, found, Ok::<EvalPlan, Error>(plan)),
    ensures
        plan matches EvalPlan::Call { config: c, arguments, scripts } && ({
            let v = json::json_of(arguments);
            let dir = config::dir_of(scripts);
            let answered = config.lua_tools && has_scripts && given is Some;
            &&& document(call.arguments) == Some(v)
            &&& config.lua_tools && has_scripts ==> opening_step(c@, v, dir, has_scripts)
                == (StepModel::Script { dir: scripts_dir(found.cmd_name, found.cmd_args.len()) })
            &&& answered ==> step_after_script(c@, v, given) == StepModel::Done(given->0)
            &&& runs_program(c@, v, dir, has_scripts, given) <==> !answered
            &&& !answered ==> program_step(c@, v) == (StepModel::Run {
                args: found.cmd_args.push(json::json_text(v)),
            })
        }),
{
}

/// What a program gave, as a document: the one that it is the text of, or else an
/// object that holds the text.
pub open spec fn program_output(contents: Option<Seq<char>>) -> JsonModel {
    match contents {
        Some(t) => match json::json_parse(t) {
            Some(v) => v,
            None => json::single("output"@, JsonModel::Text(t)),
        },
        None => JsonModel::Null,
    }
}

/// What a program gave, as a document.
pub fn tool_output(contents: Option<String>) -> (r: Value)
    ensures
        json::json_of(r) == program_output(text::optional(contents)),
{
    match contents {
        Some(t) => match json::parse_value(t.as_str()) {
            Some(v) => v,
            None => json::single_member("output", json::text_value(t)),
        },
        None => json::null_value(),
    }
}

// ---- Running a program ----

/// The line that is shown for a call by a program.
pub fn call_prompt(cmd_name: &str, cmd_args: &Vec<String>) -> (r: String)
    ensures
        r@ == "Call "@ + cmd_name@ + " "@ + text::joined(text::texts(cmd_args@), " "@),
{
    let mut out = "Call ".to_owned();
    out.append(cmd_name);
    out.append(" ");
    let args = text::join(cmd_args, " ");
    out.append(args.as_str());
    out
}

/// The directories whose `bin` holds programs for a call: that of the agent, where
/// it is there and the function is the agent's own, and then the shared one.
pub fn bin_dirs(cmd_name: &str, cmd_args: usize, agent_bin_exists: bool) -> (r: Vec<FunctionsDir>)
    ensures
        cmd_args > 1 && agent_bin_exists ==> r@.len() == 2 && r@[0]@ == DirModel::Agent(cmd_name@)
            && r@[1]@ == DirModel::Shared,
        !(cmd_args > 1 && agent_bin_exists) ==> r@.len() == 1 && r@[0]@ == DirModel::Shared,
{
    let mut dirs: Vec<FunctionsDir> = Vec::new();
    if cmd_args > 1 && agent_bin_exists {
        dirs.push(Config::agent_dir(cmd_name));
    }
    dirs.push(Config::functions_dir());
    dirs
}

/// Directories in front of a search path, each with `sep` behind it.
pub open spec fn search_path(dirs: Seq<Seq<char>>, sep: Seq<char>, current: Seq<char>) -> Seq<char>
    decreases dirs.len(),
{
    if dirs.len() == 0 {
        current
    } else {
        dirs[0] + sep + search_path(dirs.skip(1), sep, current)
    }
}

/// Directories in front of a search path.
pub fn path_value(dirs: &Vec<String>, sep: &str, current: &str) -> (r: String)
    ensures
        r@ == search_path(text::texts(dirs@), sep@, current@),
{
    let ghost all = text::texts(dirs@);
    let mut out = current.to_owned();
    let mut i: usize = dirs.len();
    proof {
        assert(all.skip(i as int) =~= seq![]);
    }
    while i > 0
        invariant
            i <= dirs@.len(),
            all == text::texts(dirs@),
            out@ == search_path(all.skip(i as int), sep@, current@),
        decreases i,
    {
        i -= 1;
        let mut longer = dirs[i].clone();
        longer.append(sep);
        longer.append(out.as_str());
        proof {
            assert(all.skip(i as int).skip(1) =~= all.skip(i + 1));
            assert(all.skip(i as int)[0] == dirs@[i as int]@);
            assert(longer@ =~= search_path(all.skip(i as int), sep@, current@));
        }
        out = longer;
    }
    proof {
        assert(all.skip(0) =~= all);
    }
    out
}

/// The environment of a program: what the call says, the search path, and the file
/// that it is to write to.
pub fn program_envs(
    envs: Table<String>,
    dirs: &Vec<String>,
    sep: &str,
    current: &str,
    output_file: &str,
) -> (r: Table<String>)
    ensures
        table::texts_under(r@) == table::put(
            table::put(
                table::texts_under(envs@),
                "PATH"@,
                search_path(text::texts(dirs@), sep@, current@),
            ),
            "LLM_OUTPUT"@,
            output_file@,
        ),
        table::lookup(table::texts_under(r@), "PATH"@) == Some(
            text::joined(text::texts(dirs@).push(current@), sep@),
        ),
        table::lookup(table::texts_under(r@), "LLM_OUTPUT"@) == Some(output_file@),
        forall|key: Seq<char>|
            key != "PATH"@ && key != "LLM_OUTPUT"@ ==> #[trigger] table::lookup(
                table::texts_under(r@),
                key,
            ) == table::lookup(table::texts_under(envs@), key),
{
    let mut out = envs;
    let path = path_value(dirs, sep, current);
    let ghost before = out@;
    out.insert("PATH".to_owned(), path);
    proof {
        table::texts_under_put(before, "PATH"@, path);
    }
    let ghost between = out@;
    let file = output_file.to_owned();
    out.insert("LLM_OUTPUT".to_owned(), file);
    proof {
        table::texts_under_put(between, "LLM_OUTPUT"@, file);
        variables_are_added(
            table::texts_under(before),
            "PATH"@,
            path@,
            "LLM_OUTPUT"@,
            output_file@,
        );
        directories_come_before_the_search_path(text::texts(dirs@), sep@, current@);
    }
    out
}

/// Two variables are added to others.
proof fn variables_are_added(
    envs: Seq<(Seq<char>, Seq<char>)>,
    a: Seq<char>,
    x: Seq<char>,
    b: Seq<char>,
    y: Seq<char>,
)
    requires
        a == "PATH"@,
        b == "LLM_OUTPUT"@,
    ensures
        ({
            let all = table::put(table::put(envs, a, x), b, y);
            &&& table::lookup(all, a) == Some(x)
            &&& table::lookup(all, b) == Some(y)
            &&& forall|key: Seq<char>|
                key != a && key != b ==> #[trigger] table::lookup(all, key) == table::lookup(
                    envs,
                    key,
                )
        }),
{
    reveal_strlit("PATH");
    reveal_strlit("LLM_OUTPUT");
    assert(a.len() != b.len());
    let once = table::put(envs, a, x);
    table::lookup_after_put(envs, a, x, b);
    table::lookup_after_put(once, b, y, a);
    assert forall|key: Seq<char>| key != a && key != b implies #[trigger] table::lookup(
        table::put(once, b, y),
        key,
    ) == table::lookup(envs, key) by {
        table::lookup_after_put(envs, a, x, key);
        table::lookup_after_put(once, b, y, key);
    }
}

/// How a program ended: with 0, or as a failure.
pub fn check_exit_status(code: i32) -> (r: Result<(), Error>)
    ensures
        match r {
            Ok(_) => code == 0,
            Err(e) => code != 0 && e@ == (ErrorModel::ExitStatus { code }),
        },
{
    if code != 0 {
        return Err(Error::ExitStatus { code });
    }
    Ok(())
}

/// What a program wrote, unless that is nothing.
pub fn written_output(contents: Option<String>) -> (r: Option<String>)
    ensures
        text::optional(r) == (match contents {
            Some(t) => if t@.len() == 0 {
                None
            } else {
                Some(t@)
            },
            None => None,
        }),
{
    match contents {
        Some(t) => if t.as_str().is_empty() {
            None
        } else {
            Some(t)
        },
        None => None,
    }
}

/// `exists` takes every directory and name.
pub open spec fn looks_everywhere<E: Fn(&str, &str) -> bool>(exists_at: E) -> bool {
    forall|dir: &str, name: &str| call_requires(exists_at, (dir, name))
}

/// A file of that name is in the directory, or not, as `exists_at` tells.
pub open spec fn is_in<E: Fn(&str, &str) -> bool>(
    exists_at: E,
    dir: Seq<char>,
    name: Seq<char>,
    found: bool,
) -> bool {
    exists|d: &str, n: &str|
        d@ == dir && n@ == name && #[trigger] call_ensures(exists_at, (d, n), found)
}

/// A file of that name is in none of the directories.
pub open spec fn is_nowhere<E: Fn(&str, &str) -> bool>(
    exists_at: E,
    dirs: Seq<Seq<char>>,
    name: Seq<char>,
) -> bool {
    forall|i: int| 0 <= i < dirs.len() ==> is_in(exists_at, #[trigger] dirs[i], name, false)
}

/// A file of that name is in one of the directories.
pub open spec fn is_somewhere<E: Fn(&str, &str) -> bool>(
    exists_at: E,
    dirs: Seq<Seq<char>>,
    name: Seq<char>,
) -> bool {
    exists|i: int| 0 <= i < dirs.len() && is_in(exists_at, #[trigger] dirs[i], name, true)
}

/// `out` is the name of a program's file: with the first of the endings with which
/// it is found, or as it stands.
pub open spec fn program_file<E: Fn(&str, &str) -> bool>(
    cmd_name: Seq<char>,
    endings: Seq<Seq<char>>,
    dirs: Seq<Seq<char>>,
    exists_at: E,
    out: Seq<char>,
) -> bool {
    ||| out == cmd_name && forall|k: int|
        0 <= k < endings.len() ==> is_nowhere(exists_at, dirs, cmd_name + #[trigger] endings[k])
    ||| exists|k: int|
        {
            &&& 0 <= k < endings.len()
            &&& out == cmd_name + #[trigger] endings[k]
            &&& is_somewhere(exists_at, dirs, out)
            &&& forall|j: int|
                0 <= j < k ==> is_nowhere(exists_at, dirs, cmd_name + #[trigger] endings[j])
        }
}

/// Whether a file of a name is in one of the directories.
fn find_file<E: Fn(&str, &str) -> bool>(name: &str, dirs: &Vec<String>, exists_at: &E) -> (r: bool)
    requires
        looks_everywhere(*exists_at),
    ensures
        r ==> is_somewhere(*exists_at, text::texts(dirs@), name@),
        !r ==> is_nowhere(*exists_at, text::texts(dirs@), name@),
{
    let ghost all = text::texts(dirs@);
    let mut i: usize = 0;
    while i < dirs.len()
        invariant
            i <= dirs@.len(),
            all == text::texts(dirs@),
            looks_everywhere(*exists_at),
            forall|k: int| 0 <= k < i ==> is_in(*exists_at, #[trigger] all[k], name@, false),
        decreases dirs@.len() - i,
    {
        let found = exists_at(dirs[i].as_str(), name);
        proof {
            assert(is_in(*exists_at, all[i as int], name@, found));
        }
        if found {
            return true;
        }
        i += 1;
    }
    false
}

/// The name of a program's file, where files of programs have endings: `exts` lists
/// these, with `;` between them.
pub fn polyfill_cmd_name<E: Fn(&str, &str) -> bool>(
    cmd_name: &str,
    exts: &str,
    bin_dir: &Vec<String>,
    exists_at: &E,
) -> (r: String)
    requires
        looks_everywhere(*exists_at),
    ensures
        program_file(
            cmd_name@,
            text::split_of(exts@, ';'),
            text::texts(bin_dir@),
            *exists_at,
            r@,
        ),
{
    let endings = text::split(exts, ';');
    let ghost all = text::texts(endings@);
    let ghost dirs = text::texts(bin_dir@);
    let mut i: usize = 0;
    while i < endings.len()
        invariant
            i <= endings@.len(),
            all == text::texts(endings@),
            all == text::split_of(exts@, ';'),
            dirs == text::texts(bin_dir@),
            looks_everywhere(*exists_at),
            forall|k: int|
                0 <= k < i ==> is_nowhere(*exists_at, dirs, cmd_name@ + #[trigger] all[k]),
        decreases endings@.len() - i,
    {
        let mut name = cmd_name.to_owned();
        name.append(endings[i].as_str());
        proof {
            assert(name@ == cmd_name@ + all[i as int]);
        }
        if find_file(name.as_str(), bin_dir, exists_at) {
            return name;
        }
        i += 1;
    }
    cmd_name.to_owned()
}

// ---- Subagents ----

/// What a call for a subagent asks for: which agent, and its task.
pub open spec fn spawn_request(arguments: JsonModel) -> Result<(Seq<char>, Seq<char>), ErrorModel> {
    match document(arguments) {
        None => Err(ErrorModel::InvalidSpawnArguments),
        Some(v) => match json::text_field(v, "agent"@) {
            None => Err(ErrorModel::MissingSpawnArgument { name: "agent"@ }),
            Some(agent) => match json::text_field(v, "input"@) {
                None => Err(ErrorModel::MissingSpawnArgument { name: "input"@ }),
                Some(input) => Ok((agent, input)),
            },
        },
    }
}

/// What a call for a subagent asks for: which agent, and its task.
pub fn read_spawn_request(arguments: &Value) -> (r: Result<(String, String), Error>)
    ensures
        match r {
            Ok((agent, input)) => spawn_request(json::json_of(*arguments)) == Ok::<
                (Seq<char>, Seq<char>),
                ErrorModel,
            >((agent@, input@)),
            Err(e) => spawn_request(json::json_of(*arguments)) == Err::<
                (Seq<char>, Seq<char>),
                ErrorModel,
            >(e@),
        },
{
    let args = match read_arguments(arguments) {
        Some(v) => v,
        None => {
            return Err(Error::InvalidSpawnArguments);
        },
    };
    let agent = match json::get_text(&args, "agent") {
        Some(t) => t.clone(),
        None => {
            return Err(Error::MissingSpawnArgument { name: "agent".to_owned() });
        },
    };
    let input = match json::get_text(&args, "input") {
        Some(t) => t.clone(),
        None => {
            return Err(Error::MissingSpawnArgument { name: "input".to_owned() });
        },
    };
    Ok((agent, input))
}

/// The configuration of a subagent: that of its parent without a role, a session
/// or an agent, and one step deeper.
pub open spec fn child_config(parent: ConfigModel) -> ConfigModel {
    ConfigModel {
        role: None,
        session: None,
        agent: None,
        harness_active: false,
        harness_activated_agent: false,
        agent_depth: (parent.agent_depth + 1) as usize,
        agent_depth_ceiling: if parent.agent_depth_ceiling == 0 {
            usize::MAX
        } else {
            parent.agent_depth_ceiling
        },
        ..parent
    }
}

/// A subagent that is to be run.
#[derive(Debug)]
pub struct Spawn {
    pub agent_name: String,
    pub input: String,
    pub config: Config,
}

/// How a call for a subagent starts. `allowed` are the agents that may be spawned,
/// and `max_depth` is how deep they may be nested.
pub open spec fn spawn_started(
    call: ToolCallModel,
    parent: ConfigModel,
    allowed: Seq<Seq<char>>,
    max_depth: usize,
    r: Result<Spawn, Error>,
) -> bool {
    match spawn_request(call.arguments) {
        Err(e) => r is Err && r->Err_0@ == e,
        Ok((agent, input)) => if !allowed.contains(agent) {
            r is Err && r->Err_0@ == (ErrorModel::AgentNotAllowed { name: agent })
        } else if parent.agent_depth >= max_depth {
            r is Err && r->Err_0@ == ErrorModel::SpawnDepthReached
        } else {
            &&& r is Ok
            &&& r->Ok_0.agent_name@ == agent
            &&& r->Ok_0.input@ == input
            &&& r->Ok_0.config@ == child_config(parent)
        },
    }
}

impl ToolCall {
    /// Starts a subagent: reads what the call asks for, and makes the configuration
    /// in which the subagent runs.
    pub fn eval_spawn_subagent(&self, config: &Config, allowed: &Vec<String>, max_depth: usize) -> (r:
        Result<Spawn, Error>)
        ensures
            spawn_started(self@, config@, text::texts(allowed@), max_depth, r),
    {
        let (agent_name, input) = match read_spawn_request(&self.arguments) {
            Ok(request) => request,
            Err(e) => {
                return Err(e);
            },
        };
        if !text::is_among(allowed, agent_name.as_str()) {
            return Err(Error::AgentNotAllowed { name: agent_name });
        }
        if config.agent_depth >= max_depth {
            return Err(Error::SpawnDepthReached);
        }
        let child = Config {
            role: None,
            session: None,
            agent: None,
            functions: config.functions.clone(),
            settings: config.settings.clone(),
            lua_tools: config.lua_tools,
            stream: config.stream,
            show_subagent: config.show_subagent,
            save_session: config.save_session,
            info_flag: config.info_flag,
            highlight: config.highlight,
            harness_active: false,
            harness_activated_agent: false,
            agent_depth: config.agent_depth + 1,
            agent_depth_ceiling: if config.agent_depth_ceiling == 0 {
                usize::MAX
            } else {
                config.agent_depth_ceiling
            },
        };
        Ok(Spawn { agent_name, input, config: child })
    }
}

/// The configuration of a subagent after its agent was loaded: the agent may lower
/// how deep agents may be nested, never raise it.
pub open spec fn with_agent(config: ConfigModel, agent: RoleModel) -> ConfigModel {
    ConfigModel {
        agent: Some(agent),
        agent_depth_ceiling: match agent.settings.max_spawn_depth {
            Some(own) => if own < config.agent_depth_ceiling {
                own
            } else {
                config.agent_depth_ceiling
            },
            None => config.agent_depth_ceiling,
        },
        ..config
    }
}

impl Config {
    /// Makes an agent the one that runs.
    pub fn adopt_agent(&mut self, agent: Role)
        ensures
            final(self)@ == with_agent(old(self)@, agent@),
    {
        if let Some(own) = agent.settings.max_spawn_depth {
            if own < self.agent_depth_ceiling {
                self.agent_depth_ceiling = own;
            }
        }
        self.agent = Some(agent);
    }

    /// How many turns the agent that runs may take as a subagent.
    pub fn max_turns(&self) -> (r: Option<usize>)
        ensures
            r == (match self@.agent {
                Some(agent) => agent.settings.max_subagent_turns,
                None => None,
            }),
    {
        match &self.agent {
            Some(agent) => agent.settings.max_subagent_turns,
            None => None,
        }
    }
}

/// A subagent runs one step deeper than its parent, in a configuration of its own
/// that shows nothing of the parent's role, session or agent; and neither it nor
/// its agent raises a ceiling that was set.
pub proof fn subagents_are_isolated(parent: ConfigModel, agent: RoleModel)
    requires
        parent.agent_depth < usize::MAX,
    ensures
        child_config(parent).agent_depth == parent.agent_depth + 1,
        child_config(parent).role is None,
        child_config(parent).session is None,
        child_config(parent).agent is None,
        parent.agent_depth_ceiling != 0 ==> with_agent(
            child_config(parent),
            agent,
        ).agent_depth_ceiling <= parent.agent_depth_ceiling,
        agent.settings.max_spawn_depth matches Some(own) ==> with_agent(
            child_config(parent),
            agent,
        ).agent_depth_ceiling <= own,
{
}

/// A chain of subagents: how deep the last of them runs after `n` more steps.
pub open spec fn deeper(config: ConfigModel, n: nat) -> ConfigModel
    decreases n,
{
    if n == 0 {
        config
    } else {
        child_config(deeper(config, (n - 1) as nat))
    }
}

/// A chain of subagents never goes deeper than it may: each step that was not
/// refused started above the limit.
pub proof fn chains_of_subagents_are_bounded(config: ConfigModel, max_depth: usize, n: nat)
    requires
        forall|k: nat| k < n ==> (#[trigger] deeper(config, k)).agent_depth < max_depth,
    ensures
        deeper(config, n).agent_depth == config.agent_depth + n,
        n > 0 ==> deeper(config, n).agent_depth <= max_depth,
    decreases n,
{
    if n > 0 {
        chains_of_subagents_are_bounded(config, max_depth, (n - 1) as nat);
        assert(deeper(config, (n - 1) as nat).agent_depth < max_depth);
    }
}

/// How a subagent is shown while it runs.
#[derive(Debug, Clone, Copy, PartialEq, Eq, Structural)]
pub enum SpawnDisplay {
    /// Not at all.
    Nothing,
    /// Between two lines.
    Marks,
    /// As something that takes its time.
    Spinner,
}

/// How a subagent is shown while it runs.
pub fn spawn_display(stream: bool, show_subagent: bool) -> (r: SpawnDisplay)
    ensures
        r == (if !stream {
            SpawnDisplay::Nothing
        } else if show_subagent {
            SpawnDisplay::Marks
        } else {
            SpawnDisplay::Spinner
        }),
{
    if !stream {
        SpawnDisplay::Nothing
    } else if show_subagent {
        SpawnDisplay::Marks
    } else {
        SpawnDisplay::Spinner
    }
}

/// The trace of a subagent.
pub open spec fn spawn_trace(agent: Seq<char>, messages: JsonModel) -> JsonModel {
    JsonModel::Object(seq![("agent"@, JsonModel::Text(agent)), ("messages"@, messages)])
}

/// The trace that is recorded for a subagent can be shown: the agent is the one that
/// ran, and what it said are the texts of the messages.
pub proof fn recorded_trace_is_shown(agent: Seq<char>, messages: Seq<JsonModel>, fallback: Seq<char>)
    ensures
        render::traced_agent(spawn_trace(agent, JsonModel::Array(messages))) == agent,
        render::traced_body(spawn_trace(agent, JsonModel::Array(messages)), fallback)
            == text::joined(render::traced_texts(messages), "\n\n"@),
{
    reveal_strlit("agent");
    reveal_strlit("messages");
    let members = seq![
        ("agent"@, JsonModel::Text(agent)),
        ("messages"@, JsonModel::Array(messages)),
    ];
    assert(table::lookup(members, "agent"@) == Some(JsonModel::Text(agent)));
    assert("agent"@.len() != "messages"@.len());
    assert(members.skip(1)[0] == members[1]);
    assert(table::lookup(members.skip(1), "messages"@) == Some(JsonModel::Array(messages)));
    assert(table::lookup(members, "messages"@) == Some(JsonModel::Array(messages)));
}

/// What a call for a subagent gives: the subagent's last words, and the trace of
/// its messages.
pub fn finish_spawn(agent_name: String, output: String, messages: Value) -> (r: (Value, Value))
    ensures
        json::json_of(r.0) == JsonModel::Text(output@),
        json::json_of(r.1) == spawn_trace(agent_name@, json::json_of(messages)),
{
    let mut members: Vec<(String, Value)> = Vec::new();
    members.push(("agent".to_owned(), json::text_value(agent_name)));
    members.push(("messages".to_owned(), messages));
    proof {
        reveal_strlit("agent");
        reveal_strlit("messages");
        assert("agent"@.len() != "messages"@.len());
        assert(json::members_of(members@) =~= seq![
            ("agent"@, JsonModel::Text(agent_name@)),
            ("messages"@, json::json_of(messages)),
        ]);
    }
    (json::text_value(output), json::make_value(JsonParts::Object(members)))
}

// ---- What is called ----

/// The first declaration under a name, at `i`, decides.
pub open spec fn is_first_of_name(v: Seq<DeclarationModel>, name: Seq<char>, i: int) -> bool {
    &&& 0 <= i < v.len()
    &&& v[i].name == name
    &&& forall|j: int| 0 <= j < i ==> (#[trigger] v[j]).name != name
}

/// No declaration has the name.
pub open spec fn is_undeclared(v: Seq<DeclarationModel>, name: Seq<char>) -> bool {
    forall|i: int| 0 <= i < v.len() ==> (#[trigger] v[i]).name != name
}

/// A function that an agent has of its own is run as the agent's program, with the
/// name of the function for its argument and with the agent's variables.
pub proof fn agents_run_their_own_functions<F: Fn(&str) -> String>(
    call: ToolCallModel,
    config: ConfigModel,
    normalize: F,
    r: Result<CallConfig, Error>,
    i: int,
)
    requires
        call_found(call, config, normalize, r),
        config.agent is Some,
        is_first_of_name(config.agent->0.functions, call.name, i),
    ensures
        r is Ok,
        config.agent->0.functions[i].agent ==> {
            let c = r->Ok_0@;
            &&& c.call_name == config.agent->0.name + seq!['-'] + call.name
            &&& c.cmd_name == config.agent->0.name
            &&& c.cmd_args == seq![call.name]
            &&& role::variable_envs_are(
                if config.agent->0.session_variables is Some {
                    config.agent->0.session_variables->0
                } else {
                    config.agent->0.shared_variables
                },
                normalize,
                c.envs,
            )
        },
        !config.agent->0.functions[i].agent ==> {
            let c = r->Ok_0@;
            c.call_name == call.name && c.cmd_name == call.name && c.cmd_args.len() == 0
                && c.envs.len() == 0
        },
{
    function::first_declaration_of_a_name_is_found(config.agent->0.functions, call.name);
    assert(function::find_declaration(config.agent->0.functions, call.name) == Some(
        config.agent->0.functions[i],
    ));
    reveal_strlit("-");
    assert("-"@ =~= seq!['-']);
}

/// A function that is not an agent's is run as a program of its own name, if it is
/// declared for all; any other name is refused with its arguments.
pub proof fn other_functions_run_as_programs<F: Fn(&str) -> String>(
    call: ToolCallModel,
    config: ConfigModel,
    normalize: F,
    r: Result<CallConfig, Error>,
)
    requires
        call_found(call, config, normalize, r),
        config.agent is Some ==> is_undeclared(config.agent->0.functions, call.name),
    ensures
        r is Ok <==> !is_undeclared(config.functions, call.name),
        r is Ok ==> {
            let c = r->Ok_0@;
            c.call_name == call.name && c.cmd_name == call.name && c.cmd_args.len() == 0
                && c.envs.len() == 0
        },
        r is Err ==> r->Err_0@ == (ErrorModel::UnexpectedCall {
            name: call.name,
            arguments: json::json_text(call.arguments),
        }),
{
    function::first_declaration_of_a_name_is_found(config.functions, call.name);
    if config.agent is Some {
        function::first_declaration_of_a_name_is_found(config.agent->0.functions, call.name);
    }
}

/// A call starts a subagent exactly where it has the name for that and the agent has
/// no function of its own under the name.
pub proof fn spawning_can_be_taken_over(call: ToolCallModel, config: ConfigModel)
    ensures
        is_spawn(call, config) <==> call.name == "spawn_subagent"@ && (config.agent is Some
            ==> is_undeclared(config.agent->0.functions, "spawn_subagent"@)),
{
    if config.agent is Some {
        function::first_declaration_of_a_name_is_found(config.agent->0.functions, call.name);
    }
}

/// Arguments are an object as it is, or the document that a text holds; anything
/// else is no arguments.
pub proof fn arguments_are_objects_or_their_text(arguments: JsonModel, t: Seq<char>)
    ensures
        arguments is Object ==> document(arguments) == Some(arguments),
        document(JsonModel::Text(t)) == json::json_parse(t),
        arguments is Null || arguments is Bool || arguments is Number || arguments is Array
            ==> document(arguments) is None,
{
}

/// A call that is found is planned with the document of its arguments, and one
/// whose arguments are none is refused, with them, under the name of the call.
pub proof fn calls_are_planned_with_their_arguments<F: Fn(&str) -> String>(
    call: ToolCallModel,
    config: ConfigModel,
    normalize: F,
    r: Result<EvalPlan, Error>,
) -> (found: Result<CallConfig, Error>)
    requires
        plan_outcome(call, config, normalize, r),
    ensures
        call_found(call, config, normalize, found),
        found is Err ==> r is Err && r->Err_0 == found->Err_0,
        found is Ok && document(call.arguments) is None ==> r is Err && r->Err_0@ == (
        ErrorModel::InvalidArguments {
            call: found->Ok_0@.call_name,
            arguments: if call.arguments is Text {
                call.arguments->Text_0
            } else {
                json::json_text(call.arguments)
            },
        }),
        found is Ok && document(call.arguments) is Some ==> {
            &&& r is Ok && r->Ok_0 is Call
            &&& r->Ok_0->config@ == found->Ok_0@
            &&& Some(json::json_of(r->Ok_0->arguments)) == document(call.arguments)
            &&& r->Ok_0->scripts is Some <==> config.lua_tools
            &&& r->Ok_0->scripts is Some ==> r->Ok_0->scripts->0@ == if found->Ok_0@.cmd_args.len()
                > 0 {
                DirModel::Agent(found->Ok_0@.cmd_name)
            } else {
                DirModel::Shared
            }
        },
{
    choose|found: Result<CallConfig, Error>| #[trigger]
        call_found(call, config, normalize, found) && match found {
            Ok(c) => planned(call, config, c@, r),
            Err(e) => r == Err::<EvalPlan, Error>(e),
        }
}

/// A program is run with its own arguments and, last, those of the call as text.
pub proof fn programs_get_the_arguments_last(found: CallModel, arguments: JsonModel)
    ensures
        program_step(found, arguments) is Run,
        program_step(found, arguments)->args.len() == found.cmd_args.len() + 1,
        program_step(found, arguments)->args.drop_last() == found.cmd_args,
        program_step(found, arguments)->args.last() == json::json_text(arguments),
{
    assert(program_step(found, arguments)->args.drop_last() =~= found.cmd_args);
}

/// What a program writes is its result: the document that it is, or else the text
/// under `output`; where it writes nothing the result is null.
pub proof fn programs_give_what_they_write(t: Seq<char>)
    ensures
        program_output(None) is Null,
        json::json_parse(t) is Some ==> Some(program_output(Some(t))) == json::json_parse(t),
        json::json_parse(t) is None ==> json::text_field(program_output(Some(t)), "output"@)
            == Some(t),
{
    json::single_members_are_found("output"@, JsonModel::Text(t), seq![]);
}

/// Programs are looked for in each directory, in order, and then where they were
/// looked for before.
pub proof fn directories_come_before_the_search_path(
    dirs: Seq<Seq<char>>,
    sep: Seq<char>,
    current: Seq<char>,
)
    ensures
        search_path(dirs, sep, current) == text::joined(dirs.push(current), sep),
    decreases dirs.len(),
{
    let all = dirs.push(current);
    if dirs.len() == 0 {
        assert(all =~= seq![current]);
    } else {
        directories_come_before_the_search_path(dirs.skip(1), sep, current);
        assert(all.skip(1) =~= dirs.skip(1).push(current));
        text::joining_begins_with_the_first_part(all, sep);
    }
}

/// The file of a program is its name, with an ending only where such a file is found.
pub proof fn program_files_bear_the_name<E: Fn(&str, &str) -> bool>(
    cmd_name: Seq<char>,
    endings: Seq<Seq<char>>,
    dirs: Seq<Seq<char>>,
    exists_at: E,
    out: Seq<char>,
)
    requires
        program_file(cmd_name, endings, dirs, exists_at, out),
    ensures
        cmd_name.is_prefix_of(out),
        out != cmd_name ==> endings.contains(out.skip(cmd_name.len() as int)) && exists|i: int|
            0 <= i < dirs.len() && is_in(exists_at, #[trigger] dirs[i], out, true),
{
    if out != cmd_name {
        let k = choose|k: int|
            {
                &&& 0 <= k < endings.len()
                &&& out == cmd_name + #[trigger] endings[k]
                &&& is_somewhere(exists_at, dirs, out)
                &&& forall|j: int|
                    0 <= j < k ==> is_nowhere(exists_at, dirs, cmd_name + #[trigger] endings[j])
            };
        assert(out.skip(cmd_name.len() as int) =~= endings[k]);
        assert(out.take(cmd_name.len() as int) =~= cmd_name);
    } else {
        assert(out.take(cmd_name.len() as int) =~= cmd_name);
    }
}

/// A request for a subagent gives the agent and the task, and one without either is
/// refused for what is missing, the agent first.
pub proof fn spawn_requests_name_agent_and_task(arguments: JsonModel)
    ensures
        document(arguments) is None ==> spawn_request(arguments) == Err::<
            (Seq<char>, Seq<char>),
            ErrorModel,
        >(ErrorModel::InvalidSpawnArguments),
        document(arguments) is Some ==> {
            let agent = json::text_field(document(arguments)->0, "agent"@);
            let input = json::text_field(document(arguments)->0, "input"@);
            &&& agent is Some && input is Some ==> spawn_request(arguments) == Ok::<
                (Seq<char>, Seq<char>),
                ErrorModel,
            >((agent->0, input->0))
            &&& agent is None ==> spawn_request(arguments) == Err::<
                (Seq<char>, Seq<char>),
                ErrorModel,
            >(ErrorModel::MissingSpawnArgument { name: "agent"@ })
            &&& agent is Some && input is None ==> spawn_request(arguments) == Err::<
                (Seq<char>, Seq<char>),
                ErrorModel,
            >(ErrorModel::MissingSpawnArgument { name: "input"@ })
        },
{
}

/// A subagent is started exactly where the request names an agent that is allowed
/// and the limit of depth is not reached, and then it is the agent and the task that
/// were asked for. It starts one deeper, without the role, the session and the agent
/// of the one that asked, and with all else as it is there.
pub proof fn allowed_subagents_are_started(
    call: ToolCallModel,
    parent: ConfigModel,
    allowed: Seq<Seq<char>>,
    max_depth: usize,
    r: Result<Spawn, Error>,
    agent: Seq<char>,
    input: Seq<char>,
)
    requires
        spawn_started(call, parent, allowed, max_depth, r),
        spawn_request(call.arguments) == Ok::<(Seq<char>, Seq<char>), ErrorModel>((agent, input)),
    ensures
        r is Ok <==> allowed.contains(agent) && parent.agent_depth < max_depth,
        !allowed.contains(agent) ==> r->Err_0@ == (ErrorModel::AgentNotAllowed { name: agent }),
        allowed.contains(agent) && parent.agent_depth >= max_depth ==> r->Err_0@
            == ErrorModel::SpawnDepthReached,
        r is Ok ==> {
            let child = r->Ok_0.config@;
            &&& r->Ok_0.agent_name@ == agent
            &&& r->Ok_0.input@ == input
            &&& child.role is None && child.session is None && child.agent is None
            &&& !child.harness_active && !child.harness_activated_agent
            &&& child.agent_depth == parent.agent_depth + 1
            &&& child.agent_depth_ceiling == if parent.agent_depth_ceiling == 0 {
                usize::MAX
            } else {
                parent.agent_depth_ceiling
            }
            &&& child.functions == parent.functions
            &&& child.settings == parent.settings
            &&& child.lua_tools == parent.lua_tools
            &&& child.stream == parent.stream
            &&& child.show_subagent == parent.show_subagent
            &&& child.save_session == parent.save_session
            &&& child.info_flag == parent.info_flag
            &&& child.highlight == parent.highlight
        },
{
}

/// An agent is adopted with the lower of its own limit of depth and the one that
/// holds already; nothing else changes.
pub proof fn adopted_agents_only_lower_the_limit(config: ConfigModel, agent: RoleModel)
    ensures
        ({
            let new = with_agent(config, agent);
            let own = agent.settings.max_spawn_depth;
            &&& new.agent == Some(agent)
            &&& own is None ==> new.agent_depth_ceiling == config.agent_depth_ceiling
            &&& own is Some ==> new.agent_depth_ceiling <= own->0 && new.agent_depth_ceiling
                <= config.agent_depth_ceiling && (new.agent_depth_ceiling == own->0
                || new.agent_depth_ceiling == config.agent_depth_ceiling)
            &&& new == (ConfigModel {
                agent: Some(agent),
                agent_depth_ceiling: new.agent_depth_ceiling,
                ..config
            })
        }),
{
}

/// The trace of a subagent holds its name and its messages.
pub proof fn traces_hold_agent_and_messages(agent: Seq<char>, messages: JsonModel)
    ensures
        json::text_field(spawn_trace(agent, messages), "agent"@) == Some(agent),
        json::field(spawn_trace(agent, messages), "messages"@) == Some(messages),
{
    reveal_strlit("agent");
    reveal_strlit("messages");
    let members = seq![("agent"@, JsonModel::Text(agent)), ("messages"@, messages)];
    assert("agent"@.len() != "messages"@.len());
    table::first_entry_is_found(members, 0);
    table::first_entry_is_found(members, 1);
}

} // verus!
