use aichat_core::config::{Config, FunctionsDir};
use aichat_core::dispatch::{
    after_script, agent_declares_override, bin_dirs, call_prompt, check_exit_status, command_args, finish_spawn, first_step,
    lua_tools_dir_for, path_value, polyfill_cmd_name, program_envs, spawn_display, tool_output,
    written_output, CallStep, EvalPlan, SpawnDisplay,
};
use aichat_core::error::Error;
use aichat_core::function::{
    finish_tool_calls, prepare_tool_calls, spawn_subagent_declaration, FunctionDeclaration,
    Functions, JsonSchema, Properties, ToolCall, ToolResult,
};
use aichat_core::harness::{comes_in_one_piece, CompletionLoop};
use aichat_core::input::Input;
use aichat_core::message::{Message, MessageContent, MessageRole};
use aichat_core::render::format_subagent_trace;
use aichat_core::role::{Role, RoleKind};
use aichat_core::settings::RoleSettings;
use aichat_core::table::Table;
use serde_json::Value;

fn json(text: &str) -> Value {
    serde_json::from_str(text).unwrap()
}

fn upper(s: &str) -> String {
    s.to_uppercase()
}

fn call(name: &str, arguments: &str, id: Option<&str>) -> ToolCall {
    ToolCall::new(name.to_string(), json(arguments), id.map(|v| v.to_string()))
}

fn declaration(name: &str, agent: bool) -> FunctionDeclaration {
    FunctionDeclaration {
        name: name.to_string(),
        description: format!("about {name}"),
        parameters: JsonSchema::default(),
        agent,
    }
}

fn functions(names: &[(&str, bool)]) -> Functions {
    Functions::init(names.iter().map(|(n, a)| declaration(n, *a)).collect(), vec![])
}

fn agent(names: &[(&str, bool)]) -> Role {
    let mut role = Role::default();
    role.kind = RoleKind::Agent;
    role.name = "todo".to_string();
    role.functions = functions(names);
    let mut variables = aichat_core::agent::AgentVariables::new();
    variables.insert("user".to_string(), "me".to_string());
    role.set_shared_variables(variables);
    role
}

fn config(names: &[(&str, bool)]) -> Config {
    Config {
        role: None,
        session: None,
        agent: None,
        functions: functions(names),
        settings: RoleSettings::default(),
        lua_tools: true,
        stream: true,
        show_subagent: false,
        save_session: None,
        info_flag: false,
        highlight: true,
        harness_active: true,
        harness_activated_agent: true,
        agent_depth: 0,
        agent_depth_ceiling: 0,
    }
}

// ---- Declarations ----

#[test]
fn declared_functions_come_before_discovered_ones() {
    let mut hand_written = declaration("a", false);
    hand_written.description = "by hand".to_string();
    let all = Functions::init(
        vec![hand_written, declaration("b", false)],
        vec![declaration("a", true), declaration("c", true), declaration("c", false)],
    );
    let names: Vec<&str> = all.declarations().iter().map(|d| d.name.as_str()).collect();
    assert_eq!(names, vec!["a", "b", "c", "c"]);
    assert_eq!(all.find("a").unwrap().description, "by hand");
    assert!(all.find("c").unwrap().agent);
    assert!(all.contains("b") && !all.contains("d"));
    assert!(all.find("d").is_none());
    assert!(!all.is_empty());
    assert!(Functions::default().is_empty());
}

#[test]
fn properties_keep_their_order() {
    let mut p = Properties::new();
    assert!(p.is_empty());
    p.insert("b".to_string(), JsonSchema::default());
    p.insert("a".to_string(), JsonSchema::default());
    let mut described = JsonSchema::default();
    described.description = Some("new".to_string());
    p.insert("b".to_string(), described);
    assert_eq!(p.len(), 2);
    let (name, schema) = p.entry(0).unwrap();
    assert_eq!((name.as_str(), schema.description.as_deref()), ("b", Some("new")));
    assert_eq!(p.entry(1).unwrap().0, "a");
    assert!(p.entry(2).is_none());
    assert!(p.get("c").is_none());
    let schema = JsonSchema { properties: Some(p), ..JsonSchema::default() };
    assert!(!schema.is_empty_properties());
    let copy = schema.clone();
    assert_eq!(copy.properties.unwrap().entry(1).unwrap().0, "a");
    assert!(JsonSchema::default().is_empty_properties());
    let empty = JsonSchema { properties: Some(Properties::new()), ..JsonSchema::default() };
    assert!(empty.is_empty_properties());
}

#[test]
fn declaration_of_the_function_for_subagents() {
    let d = spawn_subagent_declaration(&vec![]);
    assert_eq!(d.name, "spawn_subagent");
    assert!(!d.agent);
    assert_eq!(d.parameters.type_value.as_deref(), Some("object"));
    let p = d.parameters.properties.unwrap();
    assert_eq!(p.len(), 2);
    assert!(p.get("agent").unwrap().enum_value.is_none());
    assert_eq!(p.get("agent").unwrap().description.as_deref(), Some("Name of the agent to run."));
    assert_eq!(p.get("input").unwrap().type_value.as_deref(), Some("string"));
    assert_eq!(d.parameters.required.unwrap(), vec!["agent", "input"]);
    let limited = spawn_subagent_declaration(&vec!["x".to_string()]);
    let p = limited.parameters.properties.unwrap();
    assert_eq!(p.get("agent").unwrap().enum_value, Some(vec!["x".to_string()]));
}

// ---- Rounds of calls ----

#[test]
fn later_calls_replace_earlier_ones_with_the_same_id() {
    let calls = vec![
        call("a", "1", Some("x")),
        call("b", "2", None),
        call("c", "3", Some("y")),
        call("d", "4", Some("x")),
        call("b", "2", None),
    ];
    let kept = ToolCall::dedup(calls);
    let names: Vec<&str> = kept.iter().map(|c| c.name.as_str()).collect();
    assert_eq!(names, vec!["b", "c", "d", "b"]);
    let again = ToolCall::dedup(kept);
    assert_eq!(again.len(), 4);
    assert!(ToolCall::dedup(vec![]).is_empty());
}

#[test]
fn a_round_of_calls_is_never_empty() {
    assert!(prepare_tool_calls(vec![]).unwrap().is_empty());
    let same = vec![call("a", "1", Some("x")), call("a", "2", Some("x"))];
    let kept = prepare_tool_calls(same).unwrap();
    assert_eq!(kept.len(), 1);
    assert_eq!(kept[0].arguments, json("2"));
}

#[test]
fn nothing_from_a_function_is_told_as_done() {
    let results = vec![
        ToolResult::new(call("a", "{}", None), Value::Null),
        ToolResult::new_with_trace(call("b", "{}", None), json("5"), json("[]")),
    ];
    let told = finish_tool_calls(results);
    assert_eq!(told.len(), 2);
    assert_eq!(told[0].output, Value::String("DONE".to_string()));
    assert_eq!(told[1].output, json("5"));
    assert_eq!(told[1].trace, Some(json("[]")));
    let silent = vec![
        ToolResult::new(call("a", "{}", None), Value::Null),
        ToolResult::new(call("b", "{}", None), Value::Null),
    ];
    assert!(finish_tool_calls(silent).is_empty());
    assert!(finish_tool_calls(vec![]).is_empty());
}

#[test]
fn default_call_has_no_arguments() {
    let c = ToolCall::default();
    assert_eq!((c.name.as_str(), c.arguments, c.id), ("", Value::Null, None));
}

// ---- Dispatch ----

#[test]
fn lua_tools_dir_for_distinguishes_standalone_and_agent_dispatch() {
    let standalone = lua_tools_dir_for("reverse_text", &[]);
    assert_eq!(standalone, Config::functions_dir());
    let agent_dispatch = lua_tools_dir_for("todo", &["add_task".into()]);
    assert_eq!(agent_dispatch, Config::agent_dir("todo"));
}

#[test]
fn calls_of_shared_functions() {
    let config = config(&[("reverse", false)]);
    match call("reverse", r#"{"text": "a"}"#, None).eval(&config, &upper).unwrap() {
        EvalPlan::Call { config: found, arguments, scripts } => {
            assert_eq!(found.call_name, "reverse");
            assert_eq!(found.cmd_name, "reverse");
            assert!(found.cmd_args.is_empty());
            assert!(found.envs.is_empty());
            assert_eq!(scripts, Some(FunctionsDir::Shared));
            assert_eq!(command_args(&found, &arguments), vec![r#"{"text":"a"}"#]);
        }
        EvalPlan::Spawn => panic!("no subagent"),
    }
    let err = call("other", "[1, 2]", None).eval(&config, &upper).unwrap_err();
    assert_eq!(err.message(), "Unexpected call: other [1,2]");
}

#[test]
fn calls_of_an_agents_functions() {
    let mut config = config(&[("reverse", false), ("shared", false)]);
    config.agent = Some(agent(&[("add", true), ("reverse", false)]));
    config.lua_tools = false;
    match call("add", r#""{\"n\": 1}""#, None).eval(&config, &upper).unwrap() {
        EvalPlan::Call { config: found, arguments, scripts } => {
            assert_eq!(found.call_name, "todo-add");
            assert_eq!(found.cmd_name, "todo");
            assert_eq!(found.cmd_args, vec!["add"]);
            assert_eq!(found.envs.get("LLM_AGENT_VAR_USER"), Some(&"me".to_string()));
            assert_eq!(scripts, None);
            assert_eq!(arguments, json(r#"{"n": 1}"#));
            assert_eq!(command_args(&found, &arguments), vec!["add", r#"{"n":1}"#]);
        }
        EvalPlan::Spawn => panic!("no subagent"),
    }
    match call("reverse", "{}", None).eval(&config, &upper).unwrap() {
        EvalPlan::Call { config: found, .. } => assert_eq!(found.cmd_name, "reverse"),
        EvalPlan::Spawn => panic!("no subagent"),
    }
    match call("shared", "{}", None).eval(&config, &upper).unwrap() {
        EvalPlan::Call { config: found, .. } => assert_eq!(found.cmd_name, "shared"),
        EvalPlan::Spawn => panic!("no subagent"),
    }
}

#[test]
fn arguments_that_cannot_be_read_are_refused() {
    let mut config = config(&[("f", false)]);
    let err = call("f", r#""{not json""#, None).eval(&config, &upper).unwrap_err();
    assert_eq!(err.message(), "The call 'f' has invalid arguments: {not json");
    let err = call("f", "[1]", None).eval(&config, &upper).unwrap_err();
    assert_eq!(err.message(), "The call 'f' has invalid arguments: [1]");
    config.agent = Some(agent(&[("f", true)]));
    let err = call("f", "null", None).eval(&config, &upper).unwrap_err();
    assert_eq!(
        err,
        Error::InvalidArguments { call: "todo-f".to_string(), arguments: "null".to_string() }
    );
}

#[test]
fn subagents_are_spawned_unless_an_agent_has_its_own_function() {
    let mut config = config(&[]);
    let spawn = call("spawn_subagent", "{}", None);
    assert!(matches!(spawn.eval(&config, &upper), Ok(EvalPlan::Spawn)));
    config.agent = Some(agent(&[("add", true)]));
    assert!(!agent_declares_override(&config, "spawn_subagent"));
    assert!(matches!(spawn.eval(&config, &upper), Ok(EvalPlan::Spawn)));
    config.agent = Some(agent(&[("spawn_subagent", true)]));
    assert!(agent_declares_override(&config, "spawn_subagent"));
    assert!(matches!(spawn.eval(&config, &upper), Ok(EvalPlan::Call { .. })));
}

#[test]
fn scripts_are_tried_before_programs() {
    let mut config = config(&[("reverse", false)]);
    let plan = |config: &Config| match call("reverse", r#"{"t": "a"}"#, None).eval(config, &upper) {
        Ok(EvalPlan::Call { config, arguments, scripts }) => (config, arguments, scripts),
        _ => panic!("no call"),
    };
    let (found, arguments, scripts) = plan(&config);
    match first_step(&found, &arguments, scripts, true) {
        CallStep::Script { dir } => assert_eq!(dir, FunctionsDir::Shared),
        _ => panic!("no script"),
    }
    match after_script(&found, &arguments, Some(json("5"))) {
        CallStep::Done(v) => assert_eq!(v, json("5")),
        _ => panic!("not done"),
    }
    match after_script(&found, &arguments, Some(Value::Null)) {
        CallStep::Done(v) => assert_eq!(v, Value::Null),
        _ => panic!("not done"),
    }
    let command = |step: CallStep| match step {
        CallStep::Run { args } => args,
        _ => panic!("no program"),
    };
    assert_eq!(command(after_script(&found, &arguments, None)), vec![r#"{"t":"a"}"#]);
    let (found, arguments, scripts) = plan(&config);
    assert_eq!(command(first_step(&found, &arguments, scripts, false)), vec![r#"{"t":"a"}"#]);
    config.lua_tools = false;
    let (found, arguments, scripts) = plan(&config);
    assert_eq!(command(first_step(&found, &arguments, scripts, true)), vec![r#"{"t":"a"}"#]);
}

#[test]
fn output_of_a_program() {
    assert_eq!(tool_output(None), Value::Null);
    assert_eq!(tool_output(Some("[1, 2]".to_string())), json("[1, 2]"));
    assert_eq!(tool_output(Some("plain text".to_string())), json(r#"{"output": "plain text"}"#));
    assert_eq!(written_output(Some(String::new())), None);
    assert_eq!(written_output(Some("x".to_string())), Some("x".to_string()));
    assert_eq!(written_output(None), None);
}

#[test]
fn environment_of_a_program() {
    assert_eq!(
        call_prompt("todo", &vec!["add".to_string(), "{}".to_string()]),
        "Call todo add {}"
    );
    assert_eq!(bin_dirs("todo", 2, true), vec![Config::agent_dir("todo"), Config::functions_dir()]);
    assert_eq!(bin_dirs("todo", 2, false), vec![Config::functions_dir()]);
    assert_eq!(bin_dirs("todo", 1, true), vec![Config::functions_dir()]);
    let dirs = vec!["/a/bin".to_string(), "/f/bin".to_string()];
    assert_eq!(path_value(&dirs, ":", "/usr/bin"), "/a/bin:/f/bin:/usr/bin");
    assert_eq!(path_value(&vec![], ":", "/usr/bin"), "/usr/bin");
    let mut envs = Table::new();
    envs.insert("PATH".to_string(), "old".to_string());
    envs.insert("X".to_string(), "1".to_string());
    let envs = program_envs(envs, &dirs, ";", "C", "/tmp/out");
    assert_eq!(envs.len(), 3);
    assert_eq!(envs.get("PATH"), Some(&"/a/bin;/f/bin;C".to_string()));
    assert_eq!(envs.get("LLM_OUTPUT"), Some(&"/tmp/out".to_string()));
    assert_eq!(envs.get("X"), Some(&"1".to_string()));
}

#[test]
fn exit_status_of_a_program() {
    assert_eq!(check_exit_status(0), Ok(()));
    assert_eq!(check_exit_status(-3).unwrap_err().message(), "Tool call exit with -3");
    assert_eq!(check_exit_status(127).unwrap_err().message(), "Tool call exit with 127");
}

#[test]
fn file_of_a_program_with_an_ending() {
    let dirs = vec!["/a".to_string(), "/b".to_string()];
    let exists = |dir: &str, name: &str| (dir == "/b" && name == "f.cmd") || name == "f.exe";
    assert_eq!(polyfill_cmd_name("f", ".com;.cmd;.exe", &dirs, &exists), "f.cmd");
    assert_eq!(polyfill_cmd_name("f", ".exe;.cmd", &dirs, &exists), "f.exe");
    assert_eq!(polyfill_cmd_name("g", ".com;.cmd", &dirs, &exists), "g");
}

// ---- Subagents ----

#[test]
fn subagent_gets_a_configuration_of_its_own() {
    let mut parent = config(&[("f", false)]);
    parent.agent = Some(agent(&[]));
    parent.agent_depth = 1;
    let spawn = call("spawn_subagent", r#"{"agent": "coder", "input": "do it"}"#, None);
    let allowed = vec!["writer".to_string(), "coder".to_string()];
    let mut child = spawn.eval_spawn_subagent(&parent, &allowed, 2).unwrap();
    assert_eq!(child.agent_name, "coder");
    assert_eq!(child.input, "do it");
    assert!(child.config.agent.is_none() && child.config.session.is_none());
    assert!(!child.config.harness_active && !child.config.harness_activated_agent);
    assert_eq!(child.config.agent_depth, 2);
    assert_eq!(child.config.agent_depth_ceiling, usize::MAX);
    assert!(child.config.functions.contains("f"));

    let mut role = agent(&[]);
    role.settings.max_spawn_depth = Some(3);
    role.settings.max_subagent_turns = Some(5);
    child.config.adopt_agent(role.clone());
    assert_eq!(child.config.agent_depth_ceiling, 3);
    assert_eq!(child.config.max_turns(), Some(5));
    role.settings.max_spawn_depth = Some(8);
    child.config.adopt_agent(role);
    assert_eq!(child.config.agent_depth_ceiling, 3);

    parent.agent_depth_ceiling = 4;
    let child = spawn.eval_spawn_subagent(&parent, &allowed, 2).unwrap();
    assert_eq!(child.config.agent_depth_ceiling, 4);
    assert_eq!(child.config.max_turns(), None);
}

#[test]
fn subagents_that_may_not_run() {
    let parent = config(&[]);
    let allowed = vec!["coder".to_string()];
    let refused = |arguments: &str, depth: usize| {
        call("spawn_subagent", arguments, None)
            .eval_spawn_subagent(&parent, &allowed, depth)
            .unwrap_err()
            .message()
    };
    assert_eq!(refused("[]", 1), "The call 'spawn_subagent' has invalid arguments");
    assert_eq!(refused("\"{\"", 1), "The call 'spawn_subagent' has invalid arguments");
    assert_eq!(refused("\"5\"", 1), "spawn_subagent requires an 'agent' argument");
    assert_eq!(refused("{\"agent\": 1}", 1), "spawn_subagent requires an 'agent' argument");
    assert_eq!(
        refused("{\"agent\": \"coder\"}", 1),
        "spawn_subagent requires an 'input' argument"
    );
    assert_eq!(
        refused("{\"agent\": \"x\", \"input\": \"y\"}", 0),
        "Agent 'x' is not in the allowlist for spawning subagents"
    );
    assert_eq!(
        refused("{\"agent\": \"coder\", \"input\": \"y\"}", 0),
        "Maximum subagent spawn depth reached"
    );
}

#[test]
fn result_of_a_subagent() {
    let (output, trace) =
        finish_spawn("coder".to_string(), "done".to_string(), json(r#"[{"role": "user"}]"#));
    assert_eq!(output, json("\"done\""));
    assert_eq!(trace, json(r#"{"agent": "coder", "messages": [{"role": "user"}]}"#));
    assert_eq!(trace.to_string(), r#"{"agent":"coder","messages":[{"role":"user"}]}"#);
}

#[test]
fn recorded_trace_of_a_subagent_is_shown() {
    let messages = json(
        r#"[{"role": "system", "content": "s"}, {"role": "user", "content": "task"},
            {"role": "assistant", "content": "done"}]"#,
    );
    let (_, trace) = finish_spawn("coder".to_string(), "done".to_string(), messages);
    assert_eq!(
        format_subagent_trace(Some(&trace), "done", &|t: &str| t.to_string()),
        "<subagent agent=\"coder\">\ntask\n\ndone\n</subagent>"
    );
}

#[test]
fn display_of_a_subagent() {
    assert_eq!(spawn_display(false, true), SpawnDisplay::Nothing);
    assert_eq!(spawn_display(true, true), SpawnDisplay::Marks);
    assert_eq!(spawn_display(true, false), SpawnDisplay::Spinner);
}

// ---- The loop of a completion ----

fn turns(max: Option<usize>, rounds_with_calls: usize) -> usize {
    let mut state = CompletionLoop::new(max);
    let input = Input::from_str("x", Role::default());
    loop {
        let done = state.turns >= rounds_with_calls;
        if state.step(&input, "out", &None, done).is_some() {
            return state.turns;
        }
    }
}

#[test]
fn loop_ends_with_the_last_round_or_at_the_limit() {
    assert_eq!(turns(None, 0), 1);
    assert_eq!(turns(None, 4), 5);
    assert_eq!(turns(Some(3), 10), 3);
    assert_eq!(turns(Some(3), 1), 2);
    assert_eq!(turns(Some(0), 10), 1);
}

#[test]
fn outcome_holds_every_message() {
    let mut input = Input::from_str("x", Role::default());
    input.pending_messages = vec![Message::new(
        MessageRole::Assistant,
        MessageContent::Text("calling".to_string()),
    )];
    let mut state = CompletionLoop::new(None);
    assert!(state.step(&input, "more", &None, false).is_none());
    let outcome = state.step(&input, "bye", &Some("why".to_string()), true).unwrap();
    assert_eq!(outcome.output, "bye");
    assert_eq!(outcome.reasoning_content.as_deref(), Some("why"));
    assert_eq!(outcome.messages.len(), 2);
    assert_eq!(outcome.messages[1].role, MessageRole::Assistant);
    assert_eq!(outcome.messages[1].content.to_text(), "bye");
    assert_eq!(outcome.messages[1].reasoning_content.as_deref(), Some("why"));
}

#[test]
fn replies_in_one_piece() {
    assert!(comes_in_one_piece(false, false));
    assert!(comes_in_one_piece(true, true));
    assert!(!comes_in_one_piece(true, false));
}
