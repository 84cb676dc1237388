//! Bringing roles and agents into use.

use serde_json::Value;
use vstd::prelude::*;

use crate::agent;
use crate::agent::{AgentVariable, AgentVariables, VariableModel};
use crate::closure;
use crate::error::{Error, ErrorModel};
use crate::function;
use crate::function::{DeclarationModel, Functions};
use crate::json;
use crate::json::JsonModel;
use crate::model;
use crate::model::{Model, ModelModel, Real, RealModel};
use crate::prompt;
use crate::role;
use crate::role::{Role, RoleKind, RoleModel};
use crate::settings;
use crate::settings::{RoleSettings, SettingsModel};
use crate::table;
use crate::table::Table;
use crate::text;

verus! {

// ---- Variables ----

/// What becomes of a variable of an agent that has neither a value nor a default.
#[derive(Debug, Clone, Copy, PartialEq, Eq, Structural)]
pub enum VariableInitMode {
    /// Ask the user for it.
    Interactive,
    /// Refuse, and list every such variable.
    FailOnMissing,
    /// Set it to the empty text.
    DefaultEmpty,
}

/// The value of a variable that is known without asking: the one that was given,
/// or else the default.
pub open spec fn known_value(
    v: VariableModel,
    given: Seq<(Seq<char>, Seq<char>)>,
) -> Option<Seq<char>> {
    match table::lookup(given, v.name) {
        Some(t) => Some(t),
        None => v.default,
    }
}

/// `ask` can be asked for every variable.
pub open spec fn asks_all<A: Fn(&AgentVariable, bool) -> Result<String, Error>>(ask: A) -> bool {
    forall|v: &AgentVariable, first: bool| call_requires(ask, (v, first))
}

/// `t` is what `ask` gives for a variable.
pub open spec fn answers<A: Fn(&AgentVariable, bool) -> Result<String, Error>>(
    ask: A,
    v: VariableModel,
    first: bool,
    t: Seq<char>,
) -> bool {
    exists|a: &AgentVariable, s: String|
        a@ == v && s@ == t && #[trigger] call_ensures(ask, (a, first), Ok::<String, Error>(s))
}

/// `e` is how `ask` fails for a variable.
pub open spec fn refuses<A: Fn(&AgentVariable, bool) -> Result<String, Error>>(
    ask: A,
    v: VariableModel,
    first: bool,
    e: Error,
) -> bool {
    exists|a: &AgentVariable|
        a@ == v && #[trigger] call_ensures(ask, (a, first), Err::<String, Error>(e))
}

/// No variable before position `i` has to be asked for.
pub open spec fn asked_first(
    declared: Seq<VariableModel>,
    given: Seq<(Seq<char>, Seq<char>)>,
    i: int,
) -> bool {
    forall|j: int| 0 <= j < i ==> known_value(#[trigger] declared[j], given) is Some
}

/// `t` is a value for the variable at position `i`: the one that is known, or else
/// what `mode` says.
pub open spec fn valued<A: Fn(&AgentVariable, bool) -> Result<String, Error>>(
    declared: Seq<VariableModel>,
    given: Seq<(Seq<char>, Seq<char>)>,
    mode: VariableInitMode,
    ask: A,
    i: int,
    t: Seq<char>,
) -> bool {
    match known_value(declared[i], given) {
        Some(known) => t == known,
        None => match mode {
            VariableInitMode::DefaultEmpty => t.len() == 0,
            VariableInitMode::FailOnMissing => false,
            VariableInitMode::Interactive => answers(
                ask,
                declared[i],
                asked_first(declared, given, i),
                t,
            ),
        },
    }
}

/// Variables with their values.
pub open spec fn with_values(declared: Seq<VariableModel>, values: Seq<Seq<char>>) -> Seq<
    (Seq<char>, Seq<char>),
> {
    Seq::new(declared.len(), |i: int| (declared[i].name, values[i]))
}

/// `out` are the variables with a value for each; of two with the same name, the
/// later value counts.
pub open spec fn initialized<A: Fn(&AgentVariable, bool) -> Result<String, Error>>(
    declared: Seq<VariableModel>,
    given: Seq<(Seq<char>, Seq<char>)>,
    mode: VariableInitMode,
    ask: A,
    out: Seq<(Seq<char>, Seq<char>)>,
) -> bool {
    exists|values: Seq<Seq<char>>| #[trigger]
        all_valued(declared, given, mode, ask, values) && out == table::put_all(
            seq![],
            with_values(declared, values),
        )
}

/// There is a value for each variable.
pub open spec fn all_valued<A: Fn(&AgentVariable, bool) -> Result<String, Error>>(
    declared: Seq<VariableModel>,
    given: Seq<(Seq<char>, Seq<char>)>,
    mode: VariableInitMode,
    ask: A,
    values: Seq<Seq<char>>,
) -> bool {
    &&& values.len() == declared.len()
    &&& forall|i: int|
        0 <= i < declared.len() ==> valued(declared, given, mode, ask, i, #[trigger] values[i])
}

/// The lines for the variables of which no value is known.
pub open spec fn missing_lines(
    declared: Seq<VariableModel>,
    given: Seq<(Seq<char>, Seq<char>)>,
) -> Seq<Seq<char>>
    decreases declared.len(),
{
    if declared.len() == 0 {
        seq![]
    } else {
        let before = missing_lines(declared.drop_last(), given);
        let v = declared.last();
        if known_value(v, given) is None {
            before.push("  - "@ + v.name + ": "@ + v.description)
        } else {
            before
        }
    }
}

/// What is wrong with an answer for a variable: it must not be blank.
pub fn validate_variable(input: &str) -> (r: Option<String>)
    ensures
        text::optional(r) == (if text::trimmed(input@).len() == 0 {
            Some("This field is required"@)
        } else {
            None
        }),
{
    if text::trim(input).is_empty() {
        Some("This field is required".to_owned())
    } else {
        None
    }
}

/// The value of a variable that is known without asking.
fn find_value(v: &AgentVariable, given: &AgentVariables) -> (r: Option<String>)
    ensures
        text::optional(r) == known_value(v@, agent::variables_in(*given)),
{
    match agent::get_variable(given, v.name.as_str()) {
        Some(t) => Some(t.clone()),
        None => v.default.clone(),
    }
}

/// The line for a variable of which no value is known.
fn missing_line(v: &AgentVariable) -> (r: String)
    ensures
        r@ == "  - "@ + v@.name + ": "@ + v@.description,
{
    let mut line = "  - ".to_owned();
    line.append(v.name.as_str());
    line.append(": ");
    line.append(v.description.as_str());
    line
}

/// `ask` fails for the variable at position `i`, after it gave a value for each one
/// before that has to be asked for.
pub open spec fn refused_at<A: Fn(&AgentVariable, bool) -> Result<String, Error>>(
    declared: Seq<VariableModel>,
    given: Seq<(Seq<char>, Seq<char>)>,
    ask: A,
    i: int,
    e: Error,
) -> bool {
    &&& 0 <= i < declared.len()
    &&& known_value(declared[i], given) is None
    &&& refuses(ask, declared[i], asked_first(declared, given, i), e)
    &&& forall|k: int|
        0 <= k < i && known_value(#[trigger] declared[k], given) is None ==> is_answered(
            declared,
            given,
            ask,
            k,
        )
}

/// `ask` gives a value for the variable at position `i`.
pub open spec fn is_answered<A: Fn(&AgentVariable, bool) -> Result<String, Error>>(
    declared: Seq<VariableModel>,
    given: Seq<(Seq<char>, Seq<char>)>,
    ask: A,
    i: int,
) -> bool {
    exists|t: Seq<char>| #[trigger]
        answers(ask, declared[i], asked_first(declared, given, i), t)
}

/// How initialising variables ends.
pub open spec fn init_outcome<A: Fn(&AgentVariable, bool) -> Result<String, Error>>(
    declared: Seq<VariableModel>,
    given: Seq<(Seq<char>, Seq<char>)>,
    mode: VariableInitMode,
    ask: A,
    r: Result<AgentVariables, Error>,
) -> bool {
    let missing = missing_lines(declared, given);
    match r {
        Ok(out) => initialized(declared, given, mode, ask, agent::variables_in(out)),
        Err(e) => match mode {
            VariableInitMode::DefaultEmpty => false,
            VariableInitMode::FailOnMissing => missing.len() > 0 && e@
                == (ErrorModel::RequiredVariables { lines: missing }),
            VariableInitMode::Interactive => exists|i: int| #[trigger]
                refused_at(declared, given, ask, i, e),
        },
    }
}

/// A list of variables has no missing line exactly when each has a known value.
proof fn nothing_missing(declared: Seq<VariableModel>, given: Seq<(Seq<char>, Seq<char>)>)
    ensures
        missing_lines(declared, given).len() == 0 <==> asked_first(
            declared,
            given,
            declared.len() as int,
        ),
    decreases declared.len(),
{
    if declared.len() > 0 {
        let before = declared.drop_last();
        nothing_missing(before, given);
        let n = declared.len() as int;
        if asked_first(declared, given, n) {
            assert forall|j: int| 0 <= j < before.len() implies known_value(
                #[trigger] before[j],
                given,
            ) is Some by {
                assert(known_value(declared[j], given) is Some);
            }
            assert(known_value(declared[n - 1], given) is Some);
        } else if missing_lines(declared, given).len() == 0 {
            assert forall|j: int| 0 <= j < n implies known_value(
                #[trigger] declared[j],
                given,
            ) is Some by {
                if j < n - 1 {
                    assert(known_value(before[j], given) is Some);
                }
            }
        }
    }
}

impl Role {
    /// The variables of an agent with their values: those that were given, or else
    /// the defaults; for the others `mode` decides. `ask` asks the user for one,
    /// and is told whether it is the first.
    pub fn init_agent_variables<A: Fn(&AgentVariable, bool) -> Result<String, Error>>(
        agent_variables: &Vec<AgentVariable>,
        variables: &AgentVariables,
        mode: VariableInitMode,
        ask: &A,
    ) -> (r: Result<AgentVariables, Error>)
        requires
            asks_all(*ask),
        ensures
            init_outcome(
                agent::declared(agent_variables@),
                agent::variables_in(*variables),
                mode,
                *ask,
                r,
            ),
    {
        let ghost declared = agent::declared(agent_variables@);
        let ghost given = agent::variables_in(*variables);
        let ghost mut values: Seq<Seq<char>> = seq![];
        let mut output = agent::no_variables();
        let mut first = true;
        let mut unset: Vec<String> = Vec::new();
        let mut i: usize = 0;
        proof {
            assert(declared.take(0) =~= seq![]);
            assert(with_values(declared.take(0), values) =~= seq![]);
            assert(text::texts(unset@) =~= seq![]);
        }
        while i < agent_variables.len()
            invariant
                i <= agent_variables@.len(),
                declared == agent::declared(agent_variables@),
                given == agent::variables_in(*variables),
                asks_all(*ask),
                first == asked_first(declared, given, i as int),
                mode is FailOnMissing ==> text::texts(unset@) == missing_lines(
                    declared.take(i as int),
                    given,
                ),
                !(mode is FailOnMissing) ==> unset@.len() == 0,
                values.len() == i,
                unset@.len() == 0 ==> {
                    &&& forall|k: int|
                        0 <= k < i ==> valued(declared, given, mode, *ask, k, #[trigger] values[k])
                    &&& agent::variables_in(output) == table::put_all(
                        seq![],
                        with_values(declared.take(i as int), values),
                    )
                },
            decreases agent_variables@.len() - i,
        {
            let v = &agent_variables[i];
            proof {
                assert(declared[i as int] == v@);
                assert(declared.take(i + 1).drop_last() =~= declared.take(i as int));
                assert(declared.take(i + 1).last() == v@);
            }
            let mut value: Option<String> = find_value(v, variables);
            if value.is_none() {
                match mode {
                    VariableInitMode::DefaultEmpty => {
                        value = Some(String::new());
                    },
                    VariableInitMode::FailOnMissing => {
                        let line = missing_line(v);
                        proof {
                            text::texts_push(unset@, line);
                        }
                        unset.push(line);
                    },
                    VariableInitMode::Interactive => {
                        match ask(v, first) {
                            Ok(t) => {
                                value = Some(t);
                            },
                            Err(e) => {
                                proof {
                                    assert(refuses(*ask, declared[i as int], first, e));
                                    assert forall|k: int|
                                        0 <= k < i && known_value(
                                            #[trigger] declared[k],
                                            given,
                                        ) is None implies is_answered(
                                        declared,
                                        given,
                                        *ask,
                                        k,
                                    ) by {
                                        assert(valued(declared, given, mode, *ask, k, values[k]));
                                    }
                                    assert(refused_at(declared, given, *ask, i as int, e));
                                }
                                return Err(e);
                            },
                        }
                    },
                }
                first = false;
            }
            let ghost before = values;
            if let Some(t) = value {
                proof {
                    values = before.push(t@);
                    let entries = with_values(declared.take(i + 1), values);
                    assert(entries.drop_last() =~= with_values(declared.take(i as int), before));
                    assert(entries.last() == (v@.name, t@));
                }
                agent::set_variable(&mut output, v.name.clone(), t);
            } else {
                proof {
                    values = before.push(seq![]);
                }
            }
            i += 1;
        }
        proof {
            assert(declared.take(i as int) =~= declared);
        }
        if !unset.is_empty() {
            return Err(Error::RequiredVariables { lines: unset });
        }
        proof {
            assert(all_valued(declared, given, mode, *ask, values));
        }
        Ok(output)
    }
}

/// Refusing open variables refuses exactly when one is open: otherwise each
/// variable gets the value that is known.
pub proof fn fail_on_missing_outcome<A: Fn(&AgentVariable, bool) -> Result<String, Error>>(
    declared: Seq<VariableModel>,
    given: Seq<(Seq<char>, Seq<char>)>,
    ask: A,
    r: Result<AgentVariables, Error>,
)
    requires
        init_outcome(declared, given, VariableInitMode::FailOnMissing, ask, r),
    ensures
        r is Ok <==> asked_first(declared, given, declared.len() as int),
{
    nothing_missing(declared, given);
    if r is Ok {
        let out = agent::variables_in(r->Ok_0);
        let values = choose|values: Seq<Seq<char>>| #[trigger]
            all_valued(declared, given, VariableInitMode::FailOnMissing, ask, values)
                && out == table::put_all(seq![], with_values(declared, values));
        assert forall|j: int| 0 <= j < declared.len() implies known_value(
            #[trigger] declared[j],
            given,
        ) is Some by {
            assert(valued(
                declared,
                given,
                VariableInitMode::FailOnMissing,
                ask,
                j,
                values[j],
            ));
        }
    }
}

/// Each variable that an agent declares is there afterwards, in every mode: no
/// mark for one is left without a value.
pub proof fn every_declared_variable_is_set<A: Fn(&AgentVariable, bool) -> Result<String, Error>>(
    declared: Seq<VariableModel>,
    given: Seq<(Seq<char>, Seq<char>)>,
    mode: VariableInitMode,
    ask: A,
    out: Seq<(Seq<char>, Seq<char>)>,
    i: int,
)
    requires
        initialized(declared, given, mode, ask, out),
        0 <= i < declared.len(),
    ensures
        table::lookup(out, declared[i].name) is Some,
{
    let values = choose|values: Seq<Seq<char>>| #[trigger]
        all_valued(declared, given, mode, ask, values) && out == table::put_all(
            seq![],
            with_values(declared, values),
        );
    let entries = with_values(declared, values);
    table::lookup_after_put_all(seq![], entries, declared[i].name);
    assert(entries[i].0 == declared[i].name);
}

/// Where no name is declared twice, each variable has the value that was given,
/// or else its default, or else what the mode says.
pub proof fn declared_variables_have_their_values<
    A: Fn(&AgentVariable, bool) -> Result<String, Error>,
>(
    declared: Seq<VariableModel>,
    given: Seq<(Seq<char>, Seq<char>)>,
    mode: VariableInitMode,
    ask: A,
    out: Seq<(Seq<char>, Seq<char>)>,
    i: int,
)
    requires
        initialized(declared, given, mode, ask, out),
        0 <= i < declared.len(),
        forall|j: int| i < j < declared.len() ==> (#[trigger] declared[j]).name != declared[i].name,
    ensures
        table::lookup(out, declared[i].name) matches Some(t) && valued(
            declared,
            given,
            mode,
            ask,
            i,
            t,
        ),
{
    let values = choose|values: Seq<Seq<char>>| #[trigger]
        all_valued(declared, given, mode, ask, values) && out == table::put_all(
            seq![],
            with_values(declared, values),
        );
    let entries = with_values(declared, values);
    assert(entries[i] == (declared[i].name, values[i]));
    assert forall|j: int| i < j < entries.len() implies (#[trigger] entries[j]).0 != entries[i].0 by {
        assert(declared[j].name != declared[i].name);
    }
    table::last_put_counts(seq![], entries, i);
    assert(valued(declared, given, mode, ask, i, values[i]));
}

// ---- Instructions from functions ----

/// The line for a function in a list of functions.
pub open spec fn tool_line(i: int, d: DeclarationModel) -> Seq<char> {
    text::decimal((i + 1) as nat) + ". "@ + d.name + ": "@ + d.description.take(
        text::until(d.description, '\n'),
    )
}

/// A list of functions, one in a line.
pub open spec fn tool_list(v: Seq<DeclarationModel>) -> Seq<char> {
    text::joined(Seq::new(v.len(), |i: int| tool_line(i, v[i])), "\n"@)
}

impl Role {
    /// Puts a list of the role's functions where the prompt asks for one.
    pub fn replace_tools_placeholder(&mut self)
        ensures
            final(self)@ == with_tools(old(self)@),
    {
        proof {
            reveal_strlit("{{__tools__}}");
        }
        if text::contains(self.prompt.as_str(), "{{__tools__}}") {
            let declarations = self.functions.declarations();
            let ghost all = self.functions@;
            let mut lines: Vec<String> = Vec::new();
            let mut i: usize = 0;
            while i < declarations.len()
                invariant
                    i <= declarations@.len(),
                    declarations@.len() == declarations.len(),
                    all == function::declarations_of(declarations@),
                    lines@.len() == i,
                    forall|k: int| 0 <= k < i ==> (#[trigger] lines@[k])@ == tool_line(k, all[k]),
                decreases declarations@.len() - i,
            {
                let d = &declarations[i];
                proof {
                    assert(all[i as int] == d@);
                    text::until_bounds(d.description@, '\n');
                }
                let chars = text::to_chars(d.description.as_str());
                let end: usize = text::index_until(&chars, 0, '\n');
                let first_line = text::from_chars(&chars, 0, end);
                let mut line = text::number_text((i + 1) as u64);
                line.append(". ");
                line.append(d.name.as_str());
                line.append(": ");
                line.append(first_line.as_str());
                proof {
                    assert(d.description@.skip(0) =~= d.description@);
                    assert(first_line@ =~= d.description@.take(text::until(d.description@, '\n')));
                    assert(line@ =~= tool_line(i as int, all[i as int]));
                }
                lines.push(line);
                i += 1;
            }
            let tools = text::join(&lines, "\n");
            proof {
                assert(text::texts(lines@) =~= Seq::new(all.len(), |i: int| tool_line(i, all[i])));
            }
            self.prompt = text::replace(self.prompt.as_str(), "{{__tools__}}", tools.as_str());
        } else {
            proof {
                text::replaced_without_occurrence(
                    self.prompt@,
                    "{{__tools__}}"@,
                    tool_list(self@.functions),
                );
            }
        }
    }
}

/// A role with a list of its functions in place of every mark for one.
pub open spec fn with_tools(role: RoleModel) -> RoleModel {
    RoleModel {
        prompt: text::replaced(role.prompt, "{{__tools__}}"@, tool_list(role.functions)),
        ..role
    }
}

/// The arguments for an instructions function.
pub open spec fn instructions_arguments(input: Option<Seq<char>>) -> JsonModel {
    json::single(
        "input"@,
        match input {
            Some(t) => JsonModel::Text(t),
            None => JsonModel::Null,
        },
    )
}

/// The arguments for an instructions function.
pub fn instructions_args(input: Option<&str>) -> (r: Value)
    ensures
        json::json_of(r) == instructions_arguments(prompt::optional_text(input)),
{
    let value = match input {
        Some(t) => json::text_value(t.to_owned()),
        None => json::null_value(),
    };
    json::single_member("input", value)
}

/// What a script's instructions function gave, as a text.
pub open spec fn scripted_instructions(v: JsonModel) -> Result<Seq<char>, ErrorModel> {
    match v {
        JsonModel::Text(t) => Ok(t),
        other => Err(ErrorModel::InstructionsNotText { value: json::json_text(other) }),
    }
}

/// The result with its text or error in view.
pub open spec fn shown(r: Result<String, Error>) -> Result<Seq<char>, ErrorModel> {
    match r {
        Ok(t) => Ok(t@),
        Err(e) => Err(e@),
    }
}

/// What a script's instructions function gave, as a text.
pub fn instructions_of_script(output: &Value) -> (r: Result<String, Error>)
    ensures
        shown(r) == scripted_instructions(json::json_of(*output)),
{
    match json::as_text(output) {
        Some(t) => Ok(t.clone()),
        None => Err(Error::InstructionsNotText { value: json::value_text(output) }),
    }
}

/// What a program's instructions function gave, as a text.
pub fn instructions_of_program(output: Option<String>) -> (r: Result<String, Error>)
    ensures
        shown(r) == (match output {
            Some(t) => Ok(t@),
            None => Err(ErrorModel::NoInstructions),
        }),
{
    match output {
        Some(t) => Ok(t),
        None => Err(Error::NoInstructions),
    }
}

/// `script` takes everything that it may be handed.
pub open spec fn scripts_all<L: Fn(&str, &Value, &Table<String>) -> Result<Option<Value>, Error>>(
    script: L,
) -> bool {
    forall|n: &str, v: &Value, t: &Table<String>| call_requires(script, (n, v, t))
}

/// `program` takes everything that it may be handed.
pub open spec fn programs_all<
    P: Fn(&str, &Vec<String>, &Table<String>) -> Result<Option<String>, Error>,
>(program: P) -> bool {
    forall|n: &str, v: &Vec<String>, t: &Table<String>| call_requires(program, (n, v, t))
}

/// `out` is what the script of an agent gave for an input, with the agent's
/// variables; `None` where there is no script.
pub open spec fn script_gives<
    F: Fn(&str) -> String,
    L: Fn(&str, &Value, &Table<String>) -> Result<Option<Value>, Error>,
>(
    agent: RoleModel,
    input: Option<Seq<char>>,
    normalize: F,
    script: L,
    out: Result<Option<Value>, Error>,
) -> bool {
    exists|n: &str, v: &Value, t: &Table<String>|
        {
            &&& n@ == agent.name
            &&& json::json_of(*v) == instructions_arguments(input)
            &&& role::variable_envs_are(
                role::current_variables(agent),
                normalize,
                table::texts_under(t@),
            )
            &&& #[trigger] call_ensures(script, (n, v, t), out)
        }
}

/// `out` is what the program of an agent gave for an input, with the agent's
/// variables.
pub open spec fn program_gives<
    F: Fn(&str) -> String,
    P: Fn(&str, &Vec<String>, &Table<String>) -> Result<Option<String>, Error>,
>(
    agent: RoleModel,
    input: Option<Seq<char>>,
    normalize: F,
    program: P,
    out: Result<Option<String>, Error>,
) -> bool {
    exists|n: &str, v: &Vec<String>, t: &Table<String>|
        {
            &&& n@ == agent.name
            &&& text::texts(v@) == seq![
                "_instructions"@,
                json::json_text(instructions_arguments(input)),
            ]
            &&& role::variable_envs_are(
                role::current_variables(agent),
                normalize,
                table::texts_under(t@),
            )
            &&& #[trigger] call_ensures(program, (n, v, t), out)
        }
}

/// How running a program for instructions ends.
pub open spec fn from_program(
    out: Result<Option<String>, Error>,
    r: Result<String, Error>,
) -> bool {
    match out {
        Ok(Some(t)) => r matches Ok(s) && s@ == t@,
        Ok(None) => shown(r) == Err::<Seq<char>, ErrorModel>(ErrorModel::NoInstructions),
        Err(e) => r == Err::<String, Error>(e),
    }
}

/// The program was run, and the run ended so.
pub open spec fn program_ran<
    F: Fn(&str) -> String,
    P: Fn(&str, &Vec<String>, &Table<String>) -> Result<Option<String>, Error>,
>(
    agent: RoleModel,
    input: Option<Seq<char>>,
    normalize: F,
    program: P,
    r: Result<String, Error>,
) -> bool {
    exists|out: Result<Option<String>, Error>| #[trigger]
        program_gives(agent, input, normalize, program, out) && from_program(out, r)
}

/// The script was run first, and the program only where there is no script.
pub open spec fn script_ran<
    F: Fn(&str) -> String,
    L: Fn(&str, &Value, &Table<String>) -> Result<Option<Value>, Error>,
    P: Fn(&str, &Vec<String>, &Table<String>) -> Result<Option<String>, Error>,
>(
    agent: RoleModel,
    input: Option<Seq<char>>,
    normalize: F,
    script: L,
    program: P,
    r: Result<String, Error>,
) -> bool {
    exists|out: Result<Option<Value>, Error>| #[trigger]
        script_gives(agent, input, normalize, script, out) && match out {
            Ok(Some(v)) => shown(r) == scripted_instructions(json::json_of(v)),
            Ok(None) => program_ran(agent, input, normalize, program, r),
            Err(e) => r == Err::<String, Error>(e),
        }
}

/// The instructions of an agent were made: by the script, where scripts are enabled and
/// there is one, or else by the program.
pub open spec fn instructions_made<
    F: Fn(&str) -> String,
    L: Fn(&str, &Value, &Table<String>) -> Result<Option<Value>, Error>,
    P: Fn(&str, &Vec<String>, &Table<String>) -> Result<Option<String>, Error>,
>(
    agent: RoleModel,
    input: Option<Seq<char>>,
    lua_tools_enabled: bool,
    normalize: F,
    script: L,
    program: P,
    r: Result<String, Error>,
) -> bool {
    if lua_tools_enabled {
        script_ran(agent, input, normalize, script, program, r)
    } else {
        program_ran(agent, input, normalize, program, r)
    }
}

impl Role {
    /// Makes the instructions of an agent: by `script`, where scripts are enabled
    /// and there is one, or else by `program`, which gets its command line. Both
    /// get the name of the agent and its variables.
    pub fn run_instructions_fn<
        F: Fn(&str) -> String,
        L: Fn(&str, &Value, &Table<String>) -> Result<Option<Value>, Error>,
        P: Fn(&str, &Vec<String>, &Table<String>) -> Result<Option<String>, Error>,
    >(
        &self,
        input: Option<&str>,
        lua_tools_enabled: bool,
        normalize: &F,
        script: &L,
        program: &P,
    ) -> (r: Result<String, Error>)
        requires
            closure::takes_all(*normalize),
            scripts_all(*script),
            programs_all(*program),
        ensures
            instructions_made(
                self@,
                prompt::optional_text(input),
                lua_tools_enabled,
                *normalize,
                *script,
                *program,
                r,
            ),
    {
        let ghost given = prompt::optional_text(input);
        let args = instructions_args(input);
        if lua_tools_enabled {
            let envs = self.variable_envs(normalize);
            let out = script(self.name.as_str(), &args, &envs);
            proof {
                assert(script_gives(self@, given, *normalize, *script, out));
            }
            match out {
                Ok(Some(v)) => {
                    return instructions_of_script(&v);
                },
                Ok(None) => {},
                Err(e) => {
                    return Err(e);
                },
            }
        }
        let mut command: Vec<String> = Vec::new();
        command.push("_instructions".to_owned());
        command.push(json::value_text(&args));
        proof {
            assert(text::texts(command@) =~= seq![
                "_instructions"@,
                json::json_text(instructions_arguments(given)),
            ]);
        }
        let envs = self.variable_envs(normalize);
        let out = program(self.name.as_str(), &command, &envs);
        proof {
            assert(program_gives(self@, given, *normalize, *program, out));
        }
        let r = match out {
            Ok(v) => instructions_of_program(v),
            Err(e) => Err(e),
        };
        proof {
            assert(program_ran(self@, given, *normalize, *program, r));
        }
        r
    }
}

/// How setting instructions ends: with those that were made, or with the error of
/// making them and everything as it was.
pub open spec fn instructed(
    old: RoleModel,
    new: RoleModel,
    with: RoleModel,
    made: Result<String, Error>,
    r: Result<(), Error>,
) -> bool {
    match made {
        Ok(_) => r is Ok && new == with,
        Err(e) => r == Err::<(), Error>(e) && new == old,
    }
}

/// The shared instructions of an agent were made and set.
pub open spec fn shared_instructions_set<
    F: Fn(&str) -> String,
    L: Fn(&str, &Value, &Table<String>) -> Result<Option<Value>, Error>,
    P: Fn(&str, &Vec<String>, &Table<String>) -> Result<Option<String>, Error>,
>(
    old: RoleModel,
    new: RoleModel,
    input: Option<Seq<char>>,
    lua_tools_enabled: bool,
    normalize: F,
    script: L,
    program: P,
    r: Result<(), Error>,
) -> bool {
    exists|made: Result<String, Error>| #[trigger]
        instructions_made(old, input, lua_tools_enabled, normalize, script, program, made)
            && instructed(
            old,
            new,
            RoleModel { shared_dynamic_instructions: Some(made->Ok_0@), ..old },
            made,
            r,
        )
}

/// The instructions of an agent for a session were made, for no input, and set.
pub open spec fn session_instructions_set<
    F: Fn(&str) -> String,
    L: Fn(&str, &Value, &Table<String>) -> Result<Option<Value>, Error>,
    P: Fn(&str, &Vec<String>, &Table<String>) -> Result<Option<String>, Error>,
>(
    old: RoleModel,
    new: RoleModel,
    lua_tools_enabled: bool,
    normalize: F,
    script: L,
    program: P,
    r: Result<(), Error>,
) -> bool {
    exists|made: Result<String, Error>| #[trigger]
        instructions_made(old, None, lua_tools_enabled, normalize, script, program, made)
            && instructed(
            old,
            new,
            RoleModel { session_dynamic_instructions: Some(made->Ok_0@), ..old },
            made,
            r,
        )
}

impl Role {
    /// Has the shared instructions made for an input, where they come from a function
    /// and are not there yet, or are to be made anew.
    pub fn update_shared_dynamic_instructions<
        F: Fn(&str) -> String,
        L: Fn(&str, &Value, &Table<String>) -> Result<Option<Value>, Error>,
        P: Fn(&str, &Vec<String>, &Table<String>) -> Result<Option<String>, Error>,
    >(
        &mut self,
        force: bool,
        input: Option<&str>,
        lua_tools_enabled: bool,
        normalize: &F,
        script: &L,
        program: &P,
    ) -> (r: Result<(), Error>)
        requires
            closure::takes_all(*normalize),
            scripts_all(*script),
            programs_all(*program),
        ensures
            if old(self)@.dynamic_instructions && (force || old(
                self,
            )@.shared_dynamic_instructions is None) {
                shared_instructions_set(
                    old(self)@,
                    final(self)@,
                    prompt::optional_text(input),
                    lua_tools_enabled,
                    *normalize,
                    *script,
                    *program,
                    r,
                )
            } else {
                r is Ok && final(self)@ == old(self)@
            },
    {
        if self.dynamic_instructions && (force || self.shared_dynamic_instructions.is_none()) {
            let made = self.run_instructions_fn(
                input,
                lua_tools_enabled,
                normalize,
                script,
                program,
            );
            let ghost outcome = made;
            let r = match made {
                Ok(t) => {
                    self.shared_dynamic_instructions = Some(t);
                    Ok(())
                },
                Err(e) => Err(e),
            };
            proof {
                assert(instructions_made(
                    old(self)@,
                    prompt::optional_text(input),
                    lua_tools_enabled,
                    *normalize,
                    *script,
                    *program,
                    outcome,
                ));
            }
            return r;
        }
        Ok(())
    }

    /// Sets the instructions of the session, where they come from a function: to a
    /// value, or else to what the function makes.
    pub fn update_session_dynamic_instructions<
        F: Fn(&str) -> String,
        L: Fn(&str, &Value, &Table<String>) -> Result<Option<Value>, Error>,
        P: Fn(&str, &Vec<String>, &Table<String>) -> Result<Option<String>, Error>,
    >(
        &mut self,
        value: Option<String>,
        lua_tools_enabled: bool,
        normalize: &F,
        script: &L,
        program: &P,
    ) -> (r: Result<(), Error>)
        requires
            closure::takes_all(*normalize),
            scripts_all(*script),
            programs_all(*program),
        ensures
            if !old(self)@.dynamic_instructions {
                r is Ok && final(self)@ == old(self)@
            } else {
                match value {
                    Some(t) => r is Ok && final(self)@ == (RoleModel {
                        session_dynamic_instructions: Some(t@),
                        ..old(self)@
                    }),
                    None => session_instructions_set(
                        old(self)@,
                        final(self)@,
                        lua_tools_enabled,
                        *normalize,
                        *script,
                        *program,
                        r,
                    ),
                }
            },
    {
        if !self.dynamic_instructions {
            return Ok(());
        }
        match value {
            Some(t) => {
                self.session_dynamic_instructions = Some(t);
                Ok(())
            },
            None => {
                let made = self.run_instructions_fn(
                    None,
                    lua_tools_enabled,
                    normalize,
                    script,
                    program,
                );
                let ghost outcome = made;
                let r = match made {
                    Ok(t) => {
                        self.session_dynamic_instructions = Some(t);
                        Ok(())
                    },
                    Err(e) => Err(e),
                };
                proof {
                    assert(instructions_made(
                        old(self)@,
                        None,
                        lua_tools_enabled,
                        *normalize,
                        *script,
                        *program,
                        outcome,
                    ));
                }
                r
            },
        }
    }
}

// ---- Loading ----

/// What the environment says of an agent. A setting that it names is set or
/// left open; one that it does not name stays as it is.
#[derive(Debug)]
pub struct EnvOverrides {
    pub model_id: Option<Option<String>>,
    pub temperature: Option<Option<Real>>,
    pub top_p: Option<Option<Real>>,
    pub use_tools: Option<Option<String>>,
    pub use_agents: Option<Option<String>>,
    pub max_spawn_depth: Option<Option<usize>>,
    pub max_subagent_turns: Option<Option<usize>>,
    /// The text of the variables.
    pub variables: Option<String>,
}

/// The text that the environment names.
pub open spec fn named_text(v: Option<Option<String>>, was: Option<Seq<char>>) -> Option<
    Seq<char>,
> {
    match v {
        Some(t) => text::optional(t),
        None => was,
    }
}

/// The number that the environment names.
pub open spec fn named_real(v: Option<Option<Real>>, was: Option<RealModel>) -> Option<RealModel> {
    match v {
        Some(t) => model::real_of(t),
        None => was,
    }
}

/// The count that the environment names.
pub open spec fn named_count(v: Option<Option<usize>>, was: Option<usize>) -> Option<usize> {
    match v {
        Some(t) => t,
        None => was,
    }
}

/// A role with what the environment says. Variables count only where their text
/// can be read.
pub open spec fn overridden(role: RoleModel, env: EnvOverrides) -> RoleModel {
    RoleModel {
        settings: SettingsModel {
            model_id: named_text(env.model_id, role.settings.model_id),
            temperature: named_real(env.temperature, role.settings.temperature),
            top_p: named_real(env.top_p, role.settings.top_p),
            use_tools: named_text(env.use_tools, role.settings.use_tools),
            use_agents: named_text(env.use_agents, role.settings.use_agents),
            max_spawn_depth: named_count(env.max_spawn_depth, role.settings.max_spawn_depth),
            max_subagent_turns: named_count(
                env.max_subagent_turns,
                role.settings.max_subagent_turns,
            ),
        },
        shared_variables: match env.variables {
            Some(t) => match agent::variables_parse(t@) {
                Some(v) => v,
                None => role.shared_variables,
            },
            None => role.shared_variables,
        },
        ..role
    }
}

/// A role under a name, with what the surroundings tell put into its prompt.
pub open spec fn named_role(parsed: RoleModel, name: Seq<char>, prompt: Seq<char>) -> RoleModel {
    RoleModel { kind: RoleKind::Role, name, prompt, ..parsed }
}

impl Role {
    /// A role from its definition, under the name of the file that holds it.
    pub fn load_role<F: Fn(&str) -> String>(name: &str, parsed: Role, interpolate: &F) -> (r: Role)
        requires
            closure::takes_all(*interpolate),
        ensures
            exists|p: Seq<char>| #[trigger]
                closure::gives(*interpolate, parsed@.prompt, p) && r@ == named_role(
                    parsed@,
                    name@,
                    p,
                ),
    {
        let mut role = parsed;
        role.kind = RoleKind::Role;
        role.name = name.to_owned();
        role.prompt = closure::apply(interpolate, role.prompt.as_str());
        proof {
            assert(closure::gives(*interpolate, parsed@.prompt, role@.prompt));
        }
        role
    }

    /// A role that comes with the program; `found` is its definition.
    pub fn builtin<F: Fn(&str) -> String>(
        name: &str,
        found: Option<Role>,
        interpolate: &F,
    ) -> (r: Result<Role, Error>)
        requires
            closure::takes_all(*interpolate),
        ensures
            match found {
                Some(parsed) => r is Ok && exists|p: Seq<char>| #[trigger]
                    closure::gives(*interpolate, parsed@.prompt, p) && r->Ok_0@ == named_role(
                        parsed@,
                        name@,
                        p,
                    ),
                None => r is Err && r->Err_0@ == (ErrorModel::UnknownRole { name: name@ }),
            },
    {
        match found {
            Some(parsed) => Ok(Role::load_role(name, parsed, interpolate)),
            None => Err(Error::UnknownRole { name: name.to_owned() }),
        }
    }

    /// The name of the environment variable for a setting of the agent.
    pub fn env_name<F: Fn(&str) -> String>(&self, setting: &str, normalize: &F) -> (r: String)
        requires
            closure::takes_all(*normalize),
        ensures
            closure::gives(*normalize, self@.name + "_"@ + setting@, r@),
    {
        let mut name = self.name.clone();
        name.append("_");
        name.append(setting);
        closure::apply(normalize, name.as_str())
    }

    /// Takes over what the environment says.
    pub fn load_envs(&mut self, env: &EnvOverrides)
        ensures
            final(self)@ == overridden(old(self)@, *env),
    {
        if let Some(v) = &env.model_id {
            self.settings.model_id = v.clone();
        }
        if let Some(v) = &env.temperature {
            self.settings.temperature = v.clone();
        }
        if let Some(v) = &env.top_p {
            self.settings.top_p = v.clone();
        }
        if let Some(v) = &env.use_tools {
            self.settings.use_tools = v.clone();
        }
        if let Some(v) = &env.use_agents {
            self.settings.use_agents = v.clone();
        }
        if let Some(v) = env.max_spawn_depth {
            self.settings.max_spawn_depth = v;
        }
        if let Some(v) = env.max_subagent_turns {
            self.settings.max_subagent_turns = v;
        }
        if let Some(t) = &env.variables {
            if let Some(v) = agent::parse_variables(t.as_str()) {
                self.shared_variables = v;
            }
        }
    }
}

/// The names of the files that hold a role, without their suffix.
pub open spec fn role_names(files: Seq<Seq<char>>) -> Seq<Seq<char>>
    decreases files.len(),
{
    if files.len() == 0 {
        seq![]
    } else {
        let before = role_names(files.drop_last());
        match text::without_suffix(files.last(), ".yaml"@) {
            Some(name) => before.push(name),
            None => before,
        }
    }
}

impl Role {
    /// The names of the roles that come with the program, from those of its files.
    pub fn list_builtin_role_names(files: &Vec<String>) -> (r: Vec<String>)
        ensures
            text::texts(r@) == role_names(text::texts(files@)),
    {
        let ghost all = text::texts(files@);
        let mut names: Vec<String> = Vec::new();
        let mut i: usize = 0;
        proof {
            assert(all.take(0) =~= seq![]);
            assert(text::texts(names@) =~= seq![]);
        }
        while i < files.len()
            invariant
                i <= files@.len(),
                all == text::texts(files@),
                text::texts(names@) == role_names(all.take(i as int)),
            decreases files@.len() - i,
        {
            proof {
                assert(all.take(i + 1).drop_last() =~= all.take(i as int));
                assert(all.take(i + 1).last() == files@[i as int]@);
            }
            if let Some(name) = text::strip_suffix(files[i].as_str(), ".yaml") {
                let name = name.to_owned();
                proof {
                    text::texts_push(names@, name);
                }
                names.push(name);
            }
            i += 1;
        }
        proof {
            assert(all.take(i as int) =~= all);
        }
        names
    }
}

/// `retrieve` takes every id.
pub open spec fn retrieves_all<M: Fn(&str) -> Result<Model, Error>>(retrieve: M) -> bool {
    forall|id: &str| call_requires(retrieve, (id,))
}

/// `out` is what `retrieve` finds under an id.
pub open spec fn retrieved<M: Fn(&str) -> Result<Model, Error>>(
    retrieve: M,
    id: Seq<char>,
    out: Result<Model, Error>,
) -> bool {
    exists|s: &str| s@ == id && #[trigger] call_ensures(retrieve, (s,), out)
}

/// An agent as its definition, its functions and the environment make it, before
/// its model is chosen.
pub open spec fn defined_agent(
    definition: RoleModel,
    name: Seq<char>,
    functions: Seq<DeclarationModel>,
    env: EnvOverrides,
) -> RoleModel {
    overridden(
        with_tools(RoleModel { kind: RoleKind::Agent, name, functions, ..definition }),
        env,
    )
}

/// An agent without a model of its own: it takes the current one, and with it the
/// numbers that it leaves open.
pub open spec fn with_current_model(
    role: RoleModel,
    defaults: SettingsModel,
    current: ModelModel,
) -> RoleModel {
    RoleModel {
        settings: SettingsModel {
            temperature: settings::over(role.settings.temperature, defaults.temperature),
            top_p: settings::over(role.settings.top_p, defaults.top_p),
            ..role.settings
        },
        model: current,
        ..role
    }
}

/// How loading an agent that names a model ends.
pub open spec fn own_model_loaded<M: Fn(&str) -> Result<Model, Error>>(
    agent: RoleModel,
    id: Seq<char>,
    retrieve: M,
    r: Result<Role, Error>,
) -> bool {
    exists|out: Result<Model, Error>| #[trigger]
        retrieved(retrieve, id, out) && match out {
            Ok(m) => r matches Ok(role) && role@ == (RoleModel { model: m@, ..agent }),
            Err(e) => r == Err::<Role, Error>(e),
        }
}

/// How loading an agent that is defined ends: with the model that it names, or
/// with the current one.
pub open spec fn agent_loaded<M: Fn(&str) -> Result<Model, Error>>(
    agent: RoleModel,
    defaults: SettingsModel,
    current: ModelModel,
    retrieve: M,
    r: Result<Role, Error>,
) -> bool {
    match agent.settings.model_id {
        Some(id) => own_model_loaded(agent, id, retrieve, r),
        None => r matches Ok(role) && role@ == with_current_model(agent, defaults, current),
    }
}

impl Role {
    /// An agent, from its definition, its functions, what the environment says, and
    /// the settings and the model in use.
    pub fn load_agent<M: Fn(&str) -> Result<Model, Error>>(
        name: &str,
        definition: Option<Role>,
        functions: Functions,
        env: &EnvOverrides,
        defaults: &RoleSettings,
        current: &Model,
        retrieve: &M,
    ) -> (r: Result<Role, Error>)
        requires
            retrieves_all(*retrieve),
        ensures
            match definition {
                None => r is Err && r->Err_0@ == (ErrorModel::UnknownAgent { name: name@ }),
                Some(d) => agent_loaded(
                    defined_agent(d@, name@, functions@, *env),
                    defaults@,
                    current@,
                    *retrieve,
                    r,
                ),
            },
    {
        let mut role = match definition {
            Some(d) => d,
            None => {
                return Err(Error::UnknownAgent { name: name.to_owned() });
            },
        };
        role.kind = RoleKind::Agent;
        role.name = name.to_owned();
        role.functions = functions;
        role.replace_tools_placeholder();
        role.load_envs(env);
        let ghost agent = role@;
        proof {
            assert(definition is Some);
            assert(agent == defined_agent(definition->0@, name@, functions@, *env));
        }
        match role.settings.model_id.clone() {
            Some(id) => {
                let out = retrieve(id.as_str());
                proof {
                    assert(retrieved(*retrieve, id@, out));
                }
                match out {
                    Ok(m) => {
                        role.model = m;
                        proof {
                            assert(own_model_loaded(agent, id@, *retrieve, Ok(role)));
                        }
                    },
                    Err(e) => {
                        proof {
                            assert(own_model_loaded(agent, id@, *retrieve, Err(e)));
                        }
                        return Err(e);
                    },
                }
            },
            None => {
                if role.settings.temperature.is_none() {
                    role.settings.temperature = defaults.temperature.clone();
                }
                if role.settings.top_p.is_none() {
                    role.settings.top_p = defaults.top_p.clone();
                }
                role.model = current.clone();
            },
        }
        Ok(role)
    }
}

// ---- Documents of an agent ----

/// What is to be done about the document index of an agent.
#[derive(Debug, Clone, Copy, PartialEq, Eq, Structural)]
pub enum RagPlan {
    /// Load the one that is there.
    Load,
    /// Build one from the documents.
    Build,
    /// Ask the user whether to build one.
    Ask,
    /// Go without.
    Skip,
}

/// What is to be done about the document index of an agent: one that is there is
/// loaded; else one is built from the agent's documents, where that is forced or
/// the user, who can be asked only at a terminal, agrees. Where only information is
/// wanted, nobody is asked.
pub open spec fn rag_planned(
    documents: nat,
    exists: bool,
    info_flag: bool,
    force: bool,
    terminal: bool,
) -> RagPlan {
    if exists {
        RagPlan::Load
    } else if documents == 0 {
        RagPlan::Skip
    } else if force {
        RagPlan::Build
    } else if terminal && !info_flag {
        RagPlan::Ask
    } else {
        RagPlan::Skip
    }
}

impl Role {
    /// What is to be done about the document index of the agent.
    pub fn rag_plan(&self, rag_exists: bool, info_flag: bool, force: bool, terminal: bool) -> (r:
        RagPlan)
        ensures
            r == rag_planned(self@.documents.len(), rag_exists, info_flag, force, terminal),
    {
        if rag_exists {
            RagPlan::Load
        } else if self.documents.is_empty() {
            RagPlan::Skip
        } else if force {
            RagPlan::Build
        } else if terminal && !info_flag {
            RagPlan::Ask
        } else {
            RagPlan::Skip
        }
    }
}

/// A forced build never asks, and is made wherever there are documents and no index.
pub proof fn forced_plan_never_asks(documents: nat, exists: bool, info_flag: bool, terminal: bool)
    ensures
        !(rag_planned(documents, exists, info_flag, true, terminal) is Ask),
        rag_planned(documents, exists, info_flag, true, terminal) is Build <==> !exists && documents
            > 0,
{
}

/// `is_url` takes every text.
pub open spec fn tests_all<U: Fn(&str) -> bool>(is_url: U) -> bool {
    forall|s: &str| call_requires(is_url, (s,))
}

/// `join` takes every text.
pub open spec fn joins_all<J: Fn(&str) -> Option<String>>(join: J) -> bool {
    forall|s: &str| call_requires(join, (s,))
}

/// `is_url` says of a text whether it is an address.
pub open spec fn tells<U: Fn(&str) -> bool>(is_url: U, t: Seq<char>, out: bool) -> bool {
    exists|s: &str| s@ == t && #[trigger] call_ensures(is_url, (s,), out)
}

/// `join` finds a path so; `None` where it lies outside.
pub open spec fn finds<J: Fn(&str) -> Option<String>>(
    join: J,
    t: Seq<char>,
    out: Option<Seq<char>>,
) -> bool {
    exists|s: &str, j: Option<String>|
        s@ == t && text::optional(j) == out && #[trigger] call_ensures(join, (s,), j)
}

/// `out` is where a document is found: an address as it stands, a path as `join`
/// finds it in the agent's directory; `None` where it lies outside.
pub open spec fn located<U: Fn(&str) -> bool, J: Fn(&str) -> Option<String>>(
    path: Seq<char>,
    is_url: U,
    join: J,
    out: Option<Seq<char>>,
) -> bool {
    ||| tells(is_url, path, true) && out == Some(path)
    ||| tells(is_url, path, false) && finds(join, path, out)
}

/// A document is found somewhere.
pub open spec fn is_located<U: Fn(&str) -> bool, J: Fn(&str) -> Option<String>>(
    path: Seq<char>,
    is_url: U,
    join: J,
) -> bool {
    exists|out: Seq<char>| #[trigger] located(path, is_url, join, Some(out))
}

impl Role {
    /// Where the documents of the agent are found; the first that lies outside the
    /// agent's directory is refused.
    pub fn document_paths<U: Fn(&str) -> bool, J: Fn(&str) -> Option<String>>(
        &self,
        is_url: &U,
        join: &J,
    ) -> (r: Result<Vec<String>, Error>)
        requires
            tests_all(*is_url),
            joins_all(*join),
        ensures
            match r {
                Ok(paths) => paths@.len() == self@.documents.len() && forall|i: int|
                    0 <= i < paths@.len() ==> located(
                        self@.documents[i],
                        *is_url,
                        *join,
                        Some((#[trigger] paths@[i])@),
                    ),
                Err(e) => exists|i: int|
                    {
                        &&& 0 <= i < self@.documents.len()
                        &&& e@ == (ErrorModel::InvalidDocumentPath {
                            path: #[trigger] self@.documents[i],
                        })
                        &&& located(self@.documents[i], *is_url, *join, None)
                        &&& forall|k: int|
                            0 <= k < i ==> is_located(
                                #[trigger] self@.documents[k],
                                *is_url,
                                *join,
                            )
                    },
            },
    {
        let mut paths: Vec<String> = Vec::new();
        let mut i: usize = 0;
        while i < self.documents.len()
            invariant
                i <= self.documents@.len(),
                tests_all(*is_url),
                joins_all(*join),
                paths@.len() == i,
                forall|k: int|
                    0 <= k < i ==> located(
                        self.documents@[k]@,
                        *is_url,
                        *join,
                        Some((#[trigger] paths@[k])@),
                    ),
            decreases self.documents@.len() - i,
        {
            let path = &self.documents[i];
            let address = is_url(path.as_str());
            proof {
                assert(tells(*is_url, path@, address));
            }
            if address {
                paths.push(path.clone());
            } else {
                let found = join(path.as_str());
                proof {
                    assert(finds(*join, path@, text::optional(found)));
                }
                match found {
                    Some(found) => {
                        paths.push(found);
                    },
                    None => {
                        proof {
                            assert(self@.documents[i as int] == path@);
                            assert(located(self@.documents[i as int], *is_url, *join, None));
                            assert forall|k: int| 0 <= k < i implies is_located(
                                #[trigger] self@.documents[k],
                                *is_url,
                                *join,
                            ) by {
                                assert(located(self@.documents[k], *is_url, *join, Some(paths@[k]@)));
                            }
                        }
                        return Err(Error::InvalidDocumentPath { path: path.clone() });
                    },
                }
            }
            i += 1;
        }
        Ok(paths)
    }
}

// ---- What agents start with ----

/// Where no name is declared twice, a variable has the value that was given for it,
/// or else its default; without either it is empty where that is allowed, and has
/// what the user answered where the user is asked, who is told of the first question
/// that it is the first.
pub proof fn given_values_come_before_defaults<
    A: Fn(&AgentVariable, bool) -> Result<String, Error>,
>(
    declared: Seq<VariableModel>,
    given: Seq<(Seq<char>, Seq<char>)>,
    mode: VariableInitMode,
    ask: A,
    out: Seq<(Seq<char>, Seq<char>)>,
    i: int,
)
    requires
        initialized(declared, given, mode, ask, out),
        0 <= i < declared.len(),
        forall|j: int| i < j < declared.len() ==> (#[trigger] declared[j]).name != declared[i].name,
    ensures
        ({
            let value = table::lookup(out, declared[i].name);
            let known = table::lookup(given, declared[i].name);
            &&& known is Some ==> value == known
            &&& known is None && declared[i].default is Some ==> value == declared[i].default
            &&& known is None && declared[i].default is None ==> {
                &&& !(mode is FailOnMissing)
                &&& value is Some
                &&& mode is DefaultEmpty ==> value->0.len() == 0
                &&& mode is Interactive ==> exists|first: bool| #[trigger]
                    answers(ask, declared[i], first, value->0) && (first <==> forall|j: int|
                        0 <= j < i ==> !is_missing(#[trigger] declared[j], given))
            }
        }),
{
    declared_variables_have_their_values(declared, given, mode, ask, out, i);
    let t = table::lookup(out, declared[i].name)->0;
    if mode is Interactive && known_value(declared[i], given) is None {
        assert(answers(ask, declared[i], asked_first(declared, given, i), t));
        first_is_asked_before_others(declared, given, i);
    }
}

/// The first question is that for the first variable that is missing.
proof fn first_is_asked_before_others(
    declared: Seq<VariableModel>,
    given: Seq<(Seq<char>, Seq<char>)>,
    i: int,
)
    requires
        0 <= i <= declared.len(),
    ensures
        asked_first(declared, given, i) <==> forall|j: int|
            0 <= j < i ==> !is_missing(#[trigger] declared[j], given),
{
    if asked_first(declared, given, i) {
        assert forall|j: int| 0 <= j < i implies !is_missing(#[trigger] declared[j], given) by {
            assert(known_value(declared[j], given) is Some);
        }
    }
    if forall|j: int| 0 <= j < i ==> !is_missing(#[trigger] declared[j], given) {
        assert forall|j: int| 0 <= j < i implies known_value(#[trigger] declared[j], given) is Some by {
            assert(!is_missing(declared[j], given));
        }
    }
}

/// Only declared variables are set.
pub proof fn undeclared_variables_are_not_set<A: Fn(&AgentVariable, bool) -> Result<String, Error>>(
    declared: Seq<VariableModel>,
    given: Seq<(Seq<char>, Seq<char>)>,
    mode: VariableInitMode,
    ask: A,
    out: Seq<(Seq<char>, Seq<char>)>,
    name: Seq<char>,
)
    requires
        initialized(declared, given, mode, ask, out),
        forall|i: int| 0 <= i < declared.len() ==> (#[trigger] declared[i]).name != name,
    ensures
        table::lookup(out, name) is None,
{
    let values = choose|values: Seq<Seq<char>>| #[trigger]
        all_valued(declared, given, mode, ask, values) && out == table::put_all(
            seq![],
            with_values(declared, values),
        );
    let entries = with_values(declared, values);
    table::lookup_after_put_all(seq![], entries, name);
    assert forall|i: int| 0 <= i < entries.len() implies (#[trigger] entries[i]).0 != name by {
        assert(declared[i].name != name);
    }
}

/// A variable for which there is neither a value nor a default.
pub open spec fn is_missing(v: VariableModel, given: Seq<(Seq<char>, Seq<char>)>) -> bool {
    table::lookup(given, v.name) is None && v.default is None
}

/// The variables that are missing are all listed, in order, each with its name and
/// its description.
pub proof fn missing_variables_are_all_listed(
    declared: Seq<VariableModel>,
    given: Seq<(Seq<char>, Seq<char>)>,
)
    ensures
        missing_lines(declared, given) == declared.filter(
            |v: VariableModel| is_missing(v, given),
        ).map_values(|v: VariableModel| "  - "@ + v.name + ": "@ + v.description),
    decreases declared.len(),
{
    reveal(Seq::filter);
    if declared.len() > 0 {
        missing_variables_are_all_listed(declared.drop_last(), given);
    }
    assert(missing_lines(declared, given) =~= declared.filter(
        |v: VariableModel| is_missing(v, given),
    ).map_values(|v: VariableModel| "  - "@ + v.name + ": "@ + v.description));
}

/// A function is listed under its number, which counts from one, by its name and the
/// first line of its description.
pub proof fn functions_are_listed_by_first_line(
    v: Seq<DeclarationModel>,
    i: int,
    line: Seq<char>,
    rest: Seq<char>,
)
    requires
        0 <= i < v.len(),
        !line.contains('\n'),
        v[i].description == line || v[i].description == line + seq!['\n'] + rest,
    ensures
        tool_line(i, v[i]) == text::decimal((i + 1) as nat) + ". "@ + v[i].name + ": "@ + line,
{
    let d = v[i].description;
    text::until_bounds(d, '\n');
    let n = text::until(d, '\n');
    if d == line {
        if n < d.len() {
            assert(line.contains(line[n]));
        }
        assert(d.take(n) =~= line);
    } else {
        assert(d[line.len() as int] == '\n');
        if n < line.len() {
            assert(d[n] == line[n]);
            assert(line.contains(line[n]));
        }
        assert(d.take(n) =~= line);
    }
}

/// The list of functions holds a line for each, in their order.
pub proof fn functions_are_listed_in_order(v: Seq<DeclarationModel>, d: DeclarationModel)
    ensures
        tool_list(seq![]) == Seq::<char>::empty(),
        v.len() == 0 ==> tool_list(v.push(d)) == tool_line(0, d),
        v.len() > 0 ==> tool_list(v.push(d)) == tool_list(v) + seq!['\n'] + tool_line(
            v.len() as int,
            d,
        ),
{
    reveal_strlit("\n");
    assert("\n"@ =~= seq!['\n']);
    let lines = Seq::new(v.len(), |i: int| tool_line(i, v[i]));
    let w = v.push(d);
    let more = Seq::new(w.len(), |i: int| tool_line(i, w[i]));
    assert(more =~= lines.push(tool_line(v.len() as int, d)));
    assert(more.drop_last() =~= lines);
    let none = Seq::<DeclarationModel>::empty();
    assert(Seq::new(none.len(), |i: int| tool_line(i, none[i])) =~= seq![]);
}

/// The list of functions stands in every place for it, and the rest of the prompt
/// stays; nothing else of the role changes.
pub proof fn functions_are_listed_in_every_place(role: RoleModel, pieces: Seq<Seq<char>>)
    requires
        pieces.len() > 0,
        forall|i: int| 0 <= i < pieces.len() ==> !(#[trigger] pieces[i]).contains('{'),
        role.prompt == text::joined(pieces, "{{__tools__}}"@),
    ensures
        with_tools(role).prompt == text::joined(pieces, tool_list(role.functions)),
        with_tools(role) == (RoleModel { prompt: with_tools(role).prompt, ..role }),
{
    reveal_strlit("{{__tools__}}");
    let mark = "{{__tools__}}"@;
    assert(mark[0] == '{');
    text::replacing_fills_every_mark(pieces, mark, tool_list(role.functions));
}

/// The function that makes instructions is told the input, or that there is none.
pub proof fn instructions_are_made_for_the_input(t: Seq<char>)
    ensures
        json::field(instructions_arguments(Some(t)), "input"@) == Some(JsonModel::Text(t)),
        json::field(instructions_arguments(None), "input"@) == Some(JsonModel::Null),
{
    json::single_members_are_found("input"@, JsonModel::Text(t), seq![]);
    json::single_members_are_found("input"@, JsonModel::Null, seq![]);
}

/// Instructions are the text that a script gives, or, where scripts are off or none
/// gives anything, what the program gives. What is no text, or nothing at all, is
/// refused.
pub proof fn instructions_come_from_script_or_program<
    F: Fn(&str) -> String,
    L: Fn(&str, &Value, &Table<String>) -> Result<Option<Value>, Error>,
    P: Fn(&str, &Vec<String>, &Table<String>) -> Result<Option<String>, Error>,
>(
    agent: RoleModel,
    input: Option<Seq<char>>,
    lua_tools_enabled: bool,
    normalize: F,
    script: L,
    program: P,
    r: Result<String, Error>,
    t: Seq<char>,
)
    requires
        instructions_made(agent, input, lua_tools_enabled, normalize, script, program, r),
    ensures
        lua_tools_enabled && (forall|out: Result<Option<Value>, Error>| #[trigger]
            script_gives(agent, input, normalize, script, out) ==> out is Ok && out->Ok_0 is Some
                && json::json_of(out->Ok_0->0) == JsonModel::Text(t)) ==> r is Ok && r->Ok_0@ == t,
        (!lua_tools_enabled || forall|out: Result<Option<Value>, Error>| #[trigger]
            script_gives(agent, input, normalize, script, out) ==> out == Ok::<
                Option<Value>,
                Error,
            >(None)) && (forall|out: Result<Option<String>, Error>| #[trigger]
            program_gives(agent, input, normalize, program, out) ==> out is Ok && out->Ok_0 is Some
                && out->Ok_0->0@ == t) ==> r is Ok && r->Ok_0@ == t,
        (!lua_tools_enabled || forall|out: Result<Option<Value>, Error>| #[trigger]
            script_gives(agent, input, normalize, script, out) ==> out == Ok::<
                Option<Value>,
                Error,
            >(None)) && (forall|out: Result<Option<String>, Error>| #[trigger]
            program_gives(agent, input, normalize, program, out) ==> out == Ok::<
                Option<String>,
                Error,
            >(None)) ==> r is Err && r->Err_0@ == ErrorModel::NoInstructions,
{
}

/// What the environment names of an agent is as it says, set or left open; what it
/// does not name stays, and so does all else. Variables count where they can be read.
pub proof fn environment_overrides_what_it_names(role: RoleModel, env: EnvOverrides)
    ensures
        ({
            let new = overridden(role, env);
            let was = role.settings;
            let now = new.settings;
            &&& now.model_id == if env.model_id is Some {
                text::optional(env.model_id->0)
            } else {
                was.model_id
            }
            &&& now.temperature == if env.temperature is Some {
                model::real_of(env.temperature->0)
            } else {
                was.temperature
            }
            &&& now.top_p == if env.top_p is Some {
                model::real_of(env.top_p->0)
            } else {
                was.top_p
            }
            &&& now.use_tools == if env.use_tools is Some {
                text::optional(env.use_tools->0)
            } else {
                was.use_tools
            }
            &&& now.use_agents == if env.use_agents is Some {
                text::optional(env.use_agents->0)
            } else {
                was.use_agents
            }
            &&& now.max_spawn_depth == if env.max_spawn_depth is Some {
                env.max_spawn_depth->0
            } else {
                was.max_spawn_depth
            }
            &&& now.max_subagent_turns == if env.max_subagent_turns is Some {
                env.max_subagent_turns->0
            } else {
                was.max_subagent_turns
            }
            &&& new.shared_variables == if env.variables is Some && agent::variables_parse(
                env.variables->0@,
            ) is Some {
                agent::variables_parse(env.variables->0@)->0
            } else {
                role.shared_variables
            }
            &&& new == (RoleModel {
                settings: now,
                shared_variables: new.shared_variables,
                ..role
            })
        }),
{
}

/// A role that is read from a file has the name of the file and the prompt that was
/// filled in, and all else as the file has it.
pub proof fn roles_are_read_under_their_name(
    parsed: RoleModel,
    name: Seq<char>,
    prompt: Seq<char>,
)
    ensures
        ({
            let r = named_role(parsed, name, prompt);
            r.kind is Role && r.name == name && r.prompt == prompt && r == (RoleModel {
                kind: RoleKind::Role,
                name,
                prompt,
                ..parsed
            })
        }),
{
}

/// The roles are the files with the ending for them, without it, in their order.
pub proof fn roles_are_the_files_with_their_ending(files: Seq<Seq<char>>)
    ensures
        role_names(files) == files.filter(
            |f: Seq<char>| ".yaml"@.is_suffix_of(f),
        ).map_values(|f: Seq<char>| f.take(f.len() - ".yaml"@.len())),
    decreases files.len(),
{
    reveal(Seq::filter);
    if files.len() > 0 {
        roles_are_the_files_with_their_ending(files.drop_last());
    }
    assert(role_names(files) =~= files.filter(
        |f: Seq<char>| ".yaml"@.is_suffix_of(f),
    ).map_values(|f: Seq<char>| f.take(f.len() - ".yaml"@.len())));
}

/// An agent has the functions and the name that it is loaded with and what its
/// definition says, with its functions listed where it asks for that and with what
/// the environment names.
pub proof fn agents_are_loaded_from_their_definition(
    definition: RoleModel,
    name: Seq<char>,
    functions: Seq<DeclarationModel>,
    env: EnvOverrides,
)
    ensures
        ({
            let a = defined_agent(definition, name, functions, env);
            &&& a.kind is Agent
            &&& a.name == name
            &&& a.functions == functions
            &&& a.prompt == text::replaced(
                definition.prompt,
                "{{__tools__}}"@,
                tool_list(functions),
            )
            &&& a.description == definition.description
            &&& a.version == definition.version
            &&& a.variables == definition.variables
            &&& a.conversation_starters == definition.conversation_starters
            &&& a.documents == definition.documents
            &&& a.dynamic_instructions == definition.dynamic_instructions
        }),
{
}

/// An agent without a model of its own answers with the current one, and takes the
/// numbers that it leaves open from the defaults. One with a model answers with that,
/// and loading it fails where the model cannot be had.
pub proof fn agents_get_a_model<M: Fn(&str) -> Result<Model, Error>>(
    agent: RoleModel,
    defaults: SettingsModel,
    current: ModelModel,
    retrieve: M,
    r: Result<Role, Error>,
)
    requires
        agent_loaded(agent, defaults, current, retrieve, r),
    ensures
        agent.settings.model_id is None ==> {
            &&& r is Ok
            &&& r->Ok_0@.model == current
            &&& r->Ok_0@.settings.temperature == if agent.settings.temperature is Some {
                agent.settings.temperature
            } else {
                defaults.temperature
            }
            &&& r->Ok_0@.settings.top_p == if agent.settings.top_p is Some {
                agent.settings.top_p
            } else {
                defaults.top_p
            }
            &&& r->Ok_0@ == (RoleModel {
                model: current,
                settings: SettingsModel {
                    temperature: r->Ok_0@.settings.temperature,
                    top_p: r->Ok_0@.settings.top_p,
                    ..agent.settings
                },
                ..agent
            })
        },
        agent.settings.model_id is Some ==> exists|out: Result<Model, Error>|
            {
                &&& #[trigger] retrieved(retrieve, agent.settings.model_id->0, out)
                &&& out is Ok <==> r is Ok
                &&& out is Ok ==> r->Ok_0@ == (RoleModel { model: out->Ok_0@, ..agent })
                &&& out is Err ==> r->Err_0 == out->Err_0
            },
{
    if agent.settings.model_id is Some {
        let id = agent.settings.model_id->0;
        let out = choose|out: Result<Model, Error>| #[trigger]
            retrieved(retrieve, id, out) && match out {
                Ok(m) => r matches Ok(role) && role@ == (RoleModel { model: m@, ..agent }),
                Err(e) => r == Err::<Role, Error>(e),
            };
        assert(retrieved(retrieve, id, out));
    }
}

/// Documents that were read in before are loaded. Otherwise they are read in where
/// there are any: at once where that is asked for, and else only if the user, at a
/// terminal and not just asking for information, says so.
pub proof fn documents_are_read_in_when_wanted(
    documents: nat,
    exists_already: bool,
    info_flag: bool,
    force: bool,
    terminal: bool,
)
    ensures
        ({
            let plan = rag_planned(documents, exists_already, info_flag, force, terminal);
            &&& plan is Load <==> exists_already
            &&& plan is Build <==> !exists_already && documents > 0 && force
            &&& plan is Ask <==> !exists_already && documents > 0 && !force && terminal
                && !info_flag
        }),
{
}

/// Starting an agent with empty values for what is missing never fails; where what is
/// missing is an error, it fails exactly where something is missing; and where the
/// user is asked, only a question that was not answered makes it fail.
pub proof fn starting_fails_only_for_missing_values<
    A: Fn(&AgentVariable, bool) -> Result<String, Error>,
>(
    declared: Seq<VariableModel>,
    given: Seq<(Seq<char>, Seq<char>)>,
    mode: VariableInitMode,
    ask: A,
    r: Result<AgentVariables, Error>,
)
    requires
        init_outcome(declared, given, mode, ask, r),
    ensures
        mode is DefaultEmpty ==> r is Ok,
        mode is FailOnMissing ==> (r is Ok <==> forall|i: int|
            0 <= i < declared.len() ==> !is_missing(#[trigger] declared[i], given)),
        mode is Interactive && r is Err ==> exists|i: int, first: bool|
            0 <= i < declared.len() && is_missing(declared[i], given) && #[trigger] refuses(
                ask,
                declared[i],
                first,
                r->Err_0,
            ),
{
    if mode is FailOnMissing {
        fail_on_missing_outcome(declared, given, ask, r);
        first_is_asked_before_others(declared, given, declared.len() as int);
    }
    if mode is Interactive && r is Err {
        let e = r->Err_0;
        let i = choose|i: int| #[trigger] refused_at(declared, given, ask, i, e);
        assert(refuses(ask, declared[i], asked_first(declared, given, i), e));
    }
}

/// Instructions that were made for all sessions, or for one, are kept as such; where
/// making them fails the agent stays as it was, and the failure is told.
pub proof fn made_instructions_are_kept<
    F: Fn(&str) -> String,
    L: Fn(&str, &Value, &Table<String>) -> Result<Option<Value>, Error>,
    P: Fn(&str, &Vec<String>, &Table<String>) -> Result<Option<String>, Error>,
>(
    old_role: RoleModel,
    new: RoleModel,
    input: Option<Seq<char>>,
    lua_tools_enabled: bool,
    normalize: F,
    script: L,
    program: P,
    r: Result<(), Error>,
)
    ensures
        shared_instructions_set(
            old_role,
            new,
            input,
            lua_tools_enabled,
            normalize,
            script,
            program,
            r,
        ) ==> {
            &&& r is Err ==> new == old_role
            &&& r is Ok ==> new.shared_dynamic_instructions is Some && new == (RoleModel {
                shared_dynamic_instructions: new.shared_dynamic_instructions,
                ..old_role
            }) && exists|t: String|
                t@ == new.shared_dynamic_instructions->0 && #[trigger] instructions_made(
                    old_role,
                    input,
                    lua_tools_enabled,
                    normalize,
                    script,
                    program,
                    Ok::<String, Error>(t),
                )
        },
        session_instructions_set(
            old_role,
            new,
            lua_tools_enabled,
            normalize,
            script,
            program,
            r,
        ) ==> {
            &&& r is Err ==> new == old_role
            &&& r is Ok ==> new.session_dynamic_instructions is Some && new == (RoleModel {
                session_dynamic_instructions: new.session_dynamic_instructions,
                ..old_role
            }) && exists|t: String|
                t@ == new.session_dynamic_instructions->0 && #[trigger] instructions_made(
                    old_role,
                    None,
                    lua_tools_enabled,
                    normalize,
                    script,
                    program,
                    Ok::<String, Error>(t),
                )
        },
{
    if shared_instructions_set(
        old_role,
        new,
        input,
        lua_tools_enabled,
        normalize,
        script,
        program,
        r,
    ) {
        let made = choose|made: Result<String, Error>| #[trigger]
            instructions_made(old_role, input, lua_tools_enabled, normalize, script, program, made)
                && instructed(
                old_role,
                new,
                RoleModel { shared_dynamic_instructions: Some(made->Ok_0@), ..old_role },
                made,
                r,
            );
        if r is Ok {
            assert(made == Ok::<String, Error>(made->Ok_0));
        }
    }
    if session_instructions_set(old_role, new, lua_tools_enabled, normalize, script, program, r) {
        let made = choose|made: Result<String, Error>| #[trigger]
            instructions_made(old_role, None, lua_tools_enabled, normalize, script, program, made)
                && instructed(
                old_role,
                new,
                RoleModel { session_dynamic_instructions: Some(made->Ok_0@), ..old_role },
                made,
                r,
            );
        if r is Ok {
            assert(made == Ok::<String, Error>(made->Ok_0));
        }
    }
}

/// A document that is an address stands for itself; any other is where its path leads.
pub proof fn documents_are_addresses_or_paths<U: Fn(&str) -> bool, J: Fn(&str) -> Option<String>>(
    path: Seq<char>,
    is_url: U,
    join: J,
    out: Option<Seq<char>>,
)
    requires
        located(path, is_url, join, out),
    ensures
        (forall|b: bool| #[trigger] tells(is_url, path, b) ==> b) ==> out == Some(path),
        (forall|b: bool| #[trigger] tells(is_url, path, b) ==> !b) ==> finds(join, path, out),
{
}

} // verus!
