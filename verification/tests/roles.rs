use aichat_core::activation::{EnvOverrides, RagPlan, VariableInitMode};
use aichat_core::agent::{complete_agent_variables, list_agents, AgentEntry, AgentVariable};
use aichat_core::agent::AgentVariables;
use aichat_core::error::Error;
use aichat_core::function::{FunctionDeclaration, Functions, JsonSchema};
use aichat_core::input::Input;
use aichat_core::message::{Message, MessageContent, MessageContentPart, MessageRole};
use aichat_core::model::{Model, Rag, Real};
use aichat_core::prompt::parse_structure_prompt;
use aichat_core::role::{Role, RoleKind, RoleLike, INPUT_PLACEHOLDER};
use aichat_core::settings::RoleSettings;
use aichat_core::table::Table;
use serde_json::Value;

fn same(s: &str) -> String {
    s.to_string()
}

fn upper(s: &str) -> String {
    s.to_uppercase().replace('-', "_")
}

fn count(_: &Model, messages: &Vec<Message>) -> usize {
    messages.len()
}

fn role(name: &str, prompt: &str) -> Role {
    Role::new(name, prompt, &same)
}

fn model(id: &str) -> Model {
    Model { id: id.to_string(), ..Model::default() }
}

fn text_of(m: &Message) -> &str {
    match &m.content {
        MessageContent::Text(t) => t,
        MessageContent::Array(_) => panic!("not a plain text"),
    }
}

fn declaration(name: &str, description: &str, agent: bool) -> FunctionDeclaration {
    FunctionDeclaration {
        name: name.to_string(),
        description: description.to_string(),
        parameters: JsonSchema::default(),
        agent,
    }
}

fn no_overrides() -> EnvOverrides {
    EnvOverrides {
        model_id: None,
        temperature: None,
        top_p: None,
        use_tools: None,
        use_agents: None,
        max_spawn_depth: None,
        max_subagent_turns: None,
        variables: None,
    }
}

fn variable(name: &str, default: Option<&str>) -> AgentVariable {
    AgentVariable {
        name: name.to_string(),
        description: format!("The {name}"),
        default: default.map(|v| v.to_string()),
        value: String::new(),
    }
}

fn variables(entries: &[(&str, &str)]) -> AgentVariables {
    entries.iter().map(|(k, v)| (k.to_string(), v.to_string())).collect()
}

fn listed(v: &AgentVariables) -> Vec<(String, String)> {
    v.iter().map(|(k, v)| (k.clone(), v.clone())).collect()
}

// ---- Prompts ----

#[test]
fn dangling_input_none_for_plain_prompts() {
    assert_eq!(role("t", "").dangling_input(&same), None);
    assert_eq!(
        role("t", &format!("Echo: {INPUT_PLACEHOLDER}")).dangling_input(&same),
        None
    );
    assert_eq!(role("t", "You are a helpful assistant.").dangling_input(&same), None);
    assert_eq!(
        role("t", "System.\n### INPUT:\nIn.\n### OUTPUT:\nOut.\n").dangling_input(&same),
        None
    );
    assert_eq!(role("t", "System.\n### INPUT:\n   \n").dangling_input(&same), None);
}

#[test]
fn dangling_input_some_for_a_genuine_trailing_section() {
    assert_eq!(
        role("t", "System.\n### INPUT:\nGenerated scene.\n").dangling_input(&same),
        Some("Generated scene.".to_string())
    );
}

#[test]
fn test_parse_structure_prompt1() {
    let prompt = r#"
System message
### INPUT:
Input 1
### OUTPUT:
Output 1
"#;
    assert_eq!(
        parse_structure_prompt(prompt),
        ("System message", vec![("Input 1", "Output 1")], None)
    );
}

#[test]
fn test_parse_structure_prompt2() {
    let prompt = r#"
### INPUT:
Input 1
### OUTPUT:
Output 1
"#;
    assert_eq!(
        parse_structure_prompt(prompt),
        ("", vec![("Input 1", "Output 1")], None)
    );
}

#[test]
fn test_parse_structure_prompt3() {
    let prompt = r#"
System message
### INPUT:
Input 1
"#;
    assert_eq!(
        parse_structure_prompt(prompt),
        ("System message", vec![], Some("Input 1"))
    );
}

#[test]
fn test_parse_structure_prompt4() {
    let prompt = r#"
System message
### INPUT:
Input 1
### OUTPUT:
Output 1
### INPUT:
Input 2
"#;
    assert_eq!(
        parse_structure_prompt(prompt),
        (
            "System message",
            vec![("Input 1", "Output 1")],
            Some("Input 2")
        )
    );
}

#[test]
fn test_parse_structure_prompt_no_markers_at_all() {
    let prompt = "Just a plain system prompt, no structure.";
    assert_eq!(parse_structure_prompt(prompt), (prompt, vec![], None));
}

#[test]
fn prompt_without_an_input_marker_is_left_whole() {
    assert_eq!(parse_structure_prompt(""), ("", vec![], None));
    assert_eq!(parse_structure_prompt("a ### OUTPUT: b"), ("a ### OUTPUT: b", vec![], None));
}

#[test]
fn prompt_that_ends_in_an_input_marker_ends_in_an_empty_input() {
    assert_eq!(parse_structure_prompt("S\n### INPUT:"), ("S", vec![], Some("")));
    assert_eq!(
        parse_structure_prompt("S\n### INPUT:\nx\n### OUTPUT:\ny\n### INPUT:"),
        ("S", vec![("x", "y")], Some(""))
    );
    let pending = role("test", "S\n### INPUT:");
    assert_eq!(pending.dangling_input(&same), None);
    let messages = pending.build_messages(&Input::from_str("", pending.clone()), &same);
    let shown: Vec<(MessageRole, &str)> = messages.iter().map(|m| (m.role, text_of(m))).collect();
    assert_eq!(shown, vec![(MessageRole::System, "S"), (MessageRole::User, "")]);
}

#[test]
fn prompt_that_ends_in_an_output_marker_has_no_dangling_input() {
    let prompt = "S\n### INPUT:\nx\n### OUTPUT:";
    assert_eq!(parse_structure_prompt(prompt), ("S", vec![("x", "")], None));
    assert_eq!(role("test", prompt).dangling_input(&same), None);
}

#[test]
fn build_messages_uses_dangling_input_as_final_turn_when_input_is_empty() {
    let role = role("test", "System text.\n### INPUT:\nGenerated opening scene.\n");
    let input = Input::from_str("", role.clone());
    let messages = role.build_messages(&input, &same);
    assert_eq!(messages.len(), 2);
    assert_eq!(messages[0].role, MessageRole::System);
    assert_eq!(messages[1].role, MessageRole::User);
    assert!(
        matches!(&messages[1].content, MessageContent::Text(t) if t == "Generated opening scene.")
    );
}

#[test]
fn build_messages_keeps_both_turns_when_dangling_input_and_real_input_coexist() {
    let role = role("test", "### INPUT:\nScene.\n");
    let input = Input::from_str("hello", role.clone());
    let messages = role.build_messages(&input, &same);
    assert_eq!(messages.len(), 2);
    assert!(messages.iter().all(|m| m.role == MessageRole::User));
    assert!(matches!(&messages[0].content, MessageContent::Text(t) if t == "Scene."));
    assert!(matches!(&messages[1].content, MessageContent::Text(t) if t == "hello"));
}

#[test]
fn build_messages_with_few_shot_cases() {
    let role = role("test", "Sys\n### INPUT:\na\n### OUTPUT:\nb\n### INPUT:\nc\n### OUTPUT:\nd");
    let messages = role.build_messages(&Input::from_str("e", role.clone()), &same);
    let shown: Vec<(MessageRole, &str)> = messages.iter().map(|m| (m.role, text_of(m))).collect();
    assert_eq!(
        shown,
        vec![
            (MessageRole::System, "Sys"),
            (MessageRole::User, "a"),
            (MessageRole::Assistant, "b"),
            (MessageRole::User, "c"),
            (MessageRole::Assistant, "d"),
            (MessageRole::User, "e"),
        ]
    );
}

#[test]
fn build_messages_without_a_prompt_and_with_a_reply_to_continue() {
    let role = role("test", "");
    let mut input = Input::from_str("hi", role.clone());
    input.continue_output = Some("Hel".to_string());
    let messages = role.build_messages(&input, &same);
    assert_eq!(messages.len(), 2);
    assert_eq!((messages[0].role, text_of(&messages[0])), (MessageRole::User, "hi"));
    assert_eq!((messages[1].role, text_of(&messages[1])), (MessageRole::Assistant, "Hel"));
}

#[test]
fn build_messages_puts_the_input_into_the_prompt() {
    let role = role("test", "Echo __INPUT__ and __INPUT__!");
    let messages = role.build_messages(&Input::from_str("x", role.clone()), &same);
    assert_eq!(messages.len(), 1);
    assert_eq!(text_of(&messages[0]), "Echo x and x!");

    let mut input = Input::from_str("", role.clone());
    input.content = MessageContent::Array(vec![]);
    let messages = role.build_messages(&input, &same);
    match &messages[0].content {
        MessageContent::Array(list) => {
            assert_eq!(list.len(), 1);
            assert!(matches!(&list[0], MessageContentPart::Text { text } if text == "Echo  and !"));
        }
        MessageContent::Text(_) => panic!("not a list"),
    }
}

#[test]
fn prompt_kinds() {
    assert!(role("t", "").is_empty_prompt(&same));
    assert!(!role("t", "a").is_empty_prompt(&same));
    assert!(role("t", "a __INPUT__").is_embedded_prompt(&same));
    assert!(!role("t", "a __INPUT").is_embedded_prompt(&same));
}

#[test]
fn echo_messages_for_each_kind_of_prompt() {
    let empty = role("t", "");
    assert_eq!(empty.echo_messages(&Input::from_str("x", empty.clone()), &same), "x");
    let embedded = role("t", "<__INPUT__>");
    assert_eq!(embedded.echo_messages(&Input::from_str("x", embedded.clone()), &same), "<x>");
    let plain = role("t", "Say");
    assert_eq!(plain.echo_messages(&Input::from_str("x", plain.clone()), &same), "Say\n\nx");
}

#[test]
fn surroundings_are_put_into_a_new_role() {
    let role = Role::new("t", "on {{__os__}}", &|s: &str| s.replace("{{__os__}}", "linux"));
    assert_eq!(role.prompt(), "on linux");
    assert_eq!(role.name(), "t");
    assert_eq!(role.kind, RoleKind::Role);
}

// ---- Agents ----

fn agent(prompt: &str) -> Role {
    let mut role = Role::default();
    role.kind = RoleKind::Agent;
    role.name = "my-agent".to_string();
    role.prompt = prompt.to_string();
    role
}

#[test]
fn instructions_of_an_agent_hold_its_variables() {
    let mut role = agent("Speak {{lang}} to {{who}}. {{other}} {{__os__}}");
    role.set_shared_variables(variables(&[("lang", "French"), ("who", "{{lang}} people")]));
    let text = role.effective_prompt(&|s: &str| s.replace("{{__os__}}", "linux"));
    assert_eq!(text, "Speak French to {{lang}} people. {{other}} linux");

    role.set_session_variables(variables(&[("other", "x")]));
    assert_eq!(
        role.interpolated_instructions(&same),
        "Speak {{lang}} to {{who}}. x {{__os__}}"
    );
    role.exit_session();
    assert_eq!(
        role.interpolated_instructions(&same),
        "Speak French to {{lang}} people. {{other}} {{__os__}}"
    );
}

fn no_script(_: &str, _: &Value, _: &Table<String>) -> Result<Option<Value>, Error> {
    Ok(None)
}

fn no_output(_: &str, _: &Vec<String>, _: &Table<String>) -> Result<Option<String>, Error> {
    Ok(None)
}

#[test]
fn dynamic_instructions_of_session_come_first() {
    let mut role = agent("prompt");
    role.dynamic_instructions = true;
    assert_eq!(role.interpolated_instructions(&same), "prompt");
    let script = |name: &str, args: &Value, _: &Table<String>| {
        Ok(Some(Value::String(format!("{name} {args}"))))
    };
    let mut shared = |force: bool, input: Option<&str>| {
        role.update_shared_dynamic_instructions(force, input, true, &upper, &script, &no_output)
            .unwrap();
        role.interpolated_instructions(&same)
    };
    assert_eq!(shared(false, Some("a")), "my-agent {\"input\":\"a\"}");
    assert_eq!(shared(false, Some("b")), "my-agent {\"input\":\"a\"}");
    assert_eq!(shared(true, None), "my-agent {\"input\":null}");

    let nothing =
        role.update_session_dynamic_instructions(None, true, &upper, &no_script, &no_output);
    assert_eq!(nothing, Err(Error::NoInstructions));
    assert_eq!(role.interpolated_instructions(&same), "my-agent {\"input\":null}");
    let value = Some("mine".to_string());
    assert!(role
        .update_session_dynamic_instructions(value, true, &upper, &no_script, &no_output)
        .is_ok());
    assert_eq!(role.interpolated_instructions(&same), "mine");
    let program = |_: &str, args: &Vec<String>, _: &Table<String>| Ok(Some(args.join(" ")));
    assert!(role
        .update_session_dynamic_instructions(None, false, &upper, &script, &program)
        .is_ok());
    assert_eq!(role.interpolated_instructions(&same), "_instructions {\"input\":null}");
    role.exit_session();
    assert_eq!(role.interpolated_instructions(&same), "my-agent {\"input\":null}");
}

#[test]
fn static_instructions_are_never_run() {
    let mut role = agent("prompt");
    assert!(role
        .update_shared_dynamic_instructions(true, None, true, &upper, &no_script, &no_output)
        .is_ok());
    assert!(role
        .update_session_dynamic_instructions(None, true, &upper, &no_script, &no_output)
        .is_ok());
    assert_eq!(role.interpolated_instructions(&same), "prompt");
}

#[test]
fn run_instructions_fn_falls_back_to_the_program() {
    let mut role = agent("");
    role.set_shared_variables(variables(&[("a-b", "1")]));
    let script = |_: &str, _: &Value, _: &Table<String>| Ok(None);
    let program = |name: &str, args: &Vec<String>, envs: &Table<String>| {
        assert_eq!(name, "my-agent");
        assert_eq!(args, &vec!["_instructions".to_string(), "{\"input\":null}".to_string()]);
        assert_eq!(envs.get("LLM_AGENT_VAR_A_B"), Some(&"1".to_string()));
        Ok(Some("by program".to_string()))
    };
    assert_eq!(
        role.run_instructions_fn(None, true, &upper, &script, &program),
        Ok("by program".to_string())
    );
    let nothing = |_: &str, _: &Vec<String>, _: &Table<String>| Ok(None);
    assert_eq!(
        role.run_instructions_fn(None, true, &upper, &script, &nothing),
        Err(Error::NoInstructions)
    );
    assert_eq!(Error::NoInstructions.message(), "No return value from '_instructions' function");
}

#[test]
fn later_variable_of_the_same_environment_name_counts() {
    let mut role = agent("");
    role.set_shared_variables(variables(&[("x-y", "1"), ("x_y", "2")]));
    let envs = role.variable_envs(&upper);
    assert_eq!(envs.len(), 1);
    assert_eq!(envs.get("LLM_AGENT_VAR_X_Y"), Some(&"2".to_string()));
}

#[test]
fn list_of_functions_replaces_its_mark() {
    let mut role = agent("Tools:\n{{__tools__}}\n{{__tools__}}");
    role.functions = Functions::init(
        vec![declaration("a", "First.\nMore.", true), declaration("b", "Second.", false)],
        vec![],
    );
    role.replace_tools_placeholder();
    assert_eq!(role.prompt(), "Tools:\n1. a: First.\n2. b: Second.\n1. a: First.\n2. b: Second.");
    role.prompt = "none".to_string();
    role.replace_tools_placeholder();
    assert_eq!(role.prompt(), "none");
}

#[test]
fn banner_of_an_agent() {
    let mut role = agent("");
    role.version = "1.2".to_string();
    role.description = "Does things.".to_string();
    assert_eq!(role.banner(), "# my-agent 1.2\nDoes things.");
    role.conversation_starters = vec!["Hi".to_string(), "Help".to_string()];
    assert_eq!(
        role.banner(),
        "# my-agent 1.2\nDoes things.\n\n## Conversation Starters\n- Hi\n- Help"
    );
}

// ---- Variables ----

fn never(_: &AgentVariable, _: bool) -> Result<String, Error> {
    panic!("nobody is to be asked")
}

#[test]
fn given_values_come_before_defaults() {
    let declared = vec![variable("a", Some("da")), variable("b", Some("db"))];
    let given = variables(&[("b", "gb"), ("c", "gc")]);
    for mode in [
        VariableInitMode::FailOnMissing,
        VariableInitMode::DefaultEmpty,
        VariableInitMode::Interactive,
    ] {
        let out = Role::init_agent_variables(&declared, &given, mode, &never).unwrap();
        assert_eq!(
            listed(&out),
            vec![("a".to_string(), "da".to_string()), ("b".to_string(), "gb".to_string())]
        );
    }
}

#[test]
fn missing_variables_are_all_listed() {
    let declared = vec![variable("a", None), variable("b", Some("db")), variable("c", None)];
    let err = Role::init_agent_variables(
        &declared,
        &variables(&[]),
        VariableInitMode::FailOnMissing,
        &never,
    )
    .unwrap_err();
    assert_eq!(
        err.message(),
        "The following agent variables are required:\n  - a: The a\n  - c: The c"
    );
}

#[test]
fn missing_variables_are_empty_by_default() {
    let declared = vec![variable("a", None), variable("b", Some("db"))];
    let out = Role::init_agent_variables(
        &declared,
        &variables(&[]),
        VariableInitMode::DefaultEmpty,
        &never,
    )
    .unwrap();
    assert_eq!(
        listed(&out),
        vec![("a".to_string(), String::new()), ("b".to_string(), "db".to_string())]
    );
}

#[test]
fn missing_variables_are_asked_for() {
    let declared = vec![variable("a", None), variable("b", Some("db")), variable("c", None)];
    let ask = |v: &AgentVariable, first: bool| Ok(format!("{}-{first}", v.name));
    let out = Role::init_agent_variables(
        &declared,
        &variables(&[]),
        VariableInitMode::Interactive,
        &ask,
    )
    .unwrap();
    let values: Vec<&str> = out.values().map(|v| v.as_str()).collect();
    assert_eq!(values, vec!["a-true", "db", "c-false"]);

    let refuse = |_: &AgentVariable, _: bool| Err(Error::Outside { words: "canceled".to_string() });
    assert_eq!(
        Role::init_agent_variables(
            &declared,
            &variables(&[]),
            VariableInitMode::Interactive,
            &refuse
        ),
        Err(Error::Outside { words: "canceled".to_string() })
    );
}

#[test]
fn no_declared_variables_leave_none() {
    let out = Role::init_agent_variables(
        &vec![],
        &variables(&[("a", "1")]),
        VariableInitMode::FailOnMissing,
        &never,
    )
    .unwrap();
    assert!(out.is_empty());
}

#[test]
fn blank_answers_are_refused() {
    use_validate("  \t", Some("This field is required"));
    use_validate("", Some("This field is required"));
    use_validate(" x ", None);
}

fn use_validate(input: &str, wanted: Option<&str>) {
    assert_eq!(
        aichat_core::activation::validate_variable(input).as_deref(),
        wanted
    );
}

#[test]
fn agents_are_listed_in_order() {
    let entry = |name: Option<&str>, has_index: bool| AgentEntry {
        name: name.map(|v| v.to_string()),
        has_index,
    };
    let entries = vec![
        entry(Some("todo"), true),
        entry(Some("notes"), false),
        entry(None, true),
        entry(Some("Coder"), true),
        entry(Some("agent"), true),
    ];
    assert_eq!(list_agents(&entries), vec!["Coder", "agent", "todo"]);
    assert!(list_agents(&vec![]).is_empty());
}

#[test]
fn variables_are_offered_for_completion() {
    let offered = complete_agent_variables(&vec![variable("a", Some("x")), variable("b", None)]);
    assert_eq!(
        offered,
        vec![
            ("a=".to_string(), Some("The a [default: x]".to_string())),
            ("b=".to_string(), Some("The b".to_string())),
        ]
    );
}

// ---- Loading ----

#[test]
fn role_is_loaded_under_the_name_of_its_file() {
    let mut parsed = role("other", "p {{x}}");
    parsed.kind = RoleKind::Agent;
    let loaded = Role::load_role("mine", parsed, &|s: &str| s.replace("{{x}}", "y"));
    assert_eq!(loaded.kind, RoleKind::Role);
    assert_eq!(loaded.name(), "mine");
    assert_eq!(loaded.prompt(), "p y");
}

#[test]
fn unknown_builtin_role_is_refused() {
    let err = Role::builtin("nope", None, &same).unwrap_err();
    assert_eq!(err.message(), "Unknown role `nope`");
    let found = Role::builtin("%code%", Some(role("", "Only code.")), &same).unwrap();
    assert_eq!((found.name(), found.prompt()), ("%code%", "Only code."));
}

#[test]
fn builtin_roles_are_the_yaml_files() {
    let files = vec!["%code%.yaml".to_string(), "readme.md".to_string(), ".yaml".to_string()];
    assert_eq!(Role::list_builtin_role_names(&files), vec!["%code%", ""]);
}

#[test]
fn environment_overrides_settings() {
    let mut role = agent("");
    role.settings.use_tools = Some("fs".to_string());
    role.settings.max_spawn_depth = Some(3);
    role.settings.use_agents = Some("all".to_string());
    let mut env = no_overrides();
    env.use_tools = Some(None);
    env.model_id = Some(Some("openai:gpt".to_string()));
    env.max_subagent_turns = Some(Some(7));
    env.variables = Some(r#"{"b": "2", "a": "1"}"#.to_string());
    role.load_envs(&env);
    assert_eq!(role.use_tools(), None);
    assert_eq!(role.model_id(), Some("openai:gpt"));
    assert_eq!(role.max_subagent_turns(), Some(7));
    assert_eq!(role.max_spawn_depth(), Some(3));
    assert_eq!(role.use_agents(), Some("all".to_string()));
    assert_eq!(
        listed(role.shared_variables()),
        vec![("b".to_string(), "2".to_string()), ("a".to_string(), "1".to_string())]
    );
    env.variables = Some("[1]".to_string());
    role.load_envs(&env);
    assert_eq!(role.shared_variables().len(), 2);
    assert_eq!(role.env_name("model", &upper), "MY_AGENT_MODEL");
}

#[test]
fn agent_without_a_model_takes_the_current_one() {
    let mut defaults = RoleSettings::default();
    defaults.temperature = Some(Real { bits: 1.5f64.to_bits(), text: "1.5".to_string() });
    defaults.top_p = Some(Real { bits: 0.5f64.to_bits(), text: "0.5".to_string() });
    let mut definition = agent("{{__tools__}}");
    definition.kind = RoleKind::Role;
    definition.settings.top_p = Some(Real { bits: 1.0f64.to_bits(), text: "1".to_string() });
    let functions = Functions::init(vec![declaration("f", "Does f.", true)], vec![]);
    let retrieve = |_: &str| Err(Error::Outside { words: "no model".to_string() });
    let loaded = Role::load_agent(
        "todo",
        Some(definition.clone()),
        functions.clone(),
        &no_overrides(),
        &defaults,
        &model("current"),
        &retrieve,
    )
    .unwrap();
    assert_eq!(loaded.kind, RoleKind::Agent);
    assert_eq!(loaded.name(), "todo");
    assert_eq!(loaded.prompt(), "1. f: Does f.");
    assert_eq!(loaded.model().id(), "current");
    assert_eq!(loaded.temperature().unwrap().text, "1.5");
    assert_eq!(loaded.top_p().unwrap().text, "1");

    let mut env = no_overrides();
    env.model_id = Some(Some("x:y".to_string()));
    let err = Role::load_agent(
        "todo",
        Some(definition.clone()),
        functions.clone(),
        &env,
        &defaults,
        &model("current"),
        &retrieve,
    )
    .unwrap_err();
    assert_eq!(err.message(), "no model");
    let found = Role::load_agent(
        "todo",
        Some(definition),
        functions.clone(),
        &env,
        &defaults,
        &model("current"),
        &|id: &str| Ok(model(id)),
    )
    .unwrap();
    assert_eq!(found.model().id(), "x:y");
    assert!(found.temperature().is_none());

    let err = Role::load_agent(
        "ghost",
        None,
        functions,
        &env,
        &defaults,
        &model("current"),
        &retrieve,
    )
    .unwrap_err();
    assert_eq!(err.message(), "Unknown agent `ghost`");
}

#[test]
fn plan_for_the_documents_of_an_agent() {
    let mut role = agent("");
    assert_eq!(role.rag_plan(true, true, false, false), RagPlan::Load);
    assert_eq!(role.rag_plan(false, false, true, true), RagPlan::Skip);
    role.documents = vec!["a.md".to_string()];
    assert_eq!(role.rag_plan(false, true, true, true), RagPlan::Build);
    assert_eq!(role.rag_plan(false, true, false, true), RagPlan::Skip);
    assert_eq!(role.rag_plan(false, false, true, true), RagPlan::Build);
    assert_eq!(role.rag_plan(false, false, false, true), RagPlan::Ask);
    assert_eq!(role.rag_plan(false, false, false, false), RagPlan::Skip);
}

#[test]
fn documents_outside_the_directory_are_refused() {
    let mut role = agent("");
    role.documents = vec!["https://a".to_string(), "b.md".to_string()];
    let is_url = |s: &str| s.starts_with("https://");
    let join = |s: &str| {
        if s.contains("..") {
            None
        } else {
            Some(format!("/agents/x/{s}"))
        }
    };
    assert_eq!(
        role.document_paths(&is_url, &join),
        Ok(vec!["https://a".to_string(), "/agents/x/b.md".to_string()])
    );
    role.documents.push("../c".to_string());
    let err = role.document_paths(&is_url, &join).unwrap_err();
    assert_eq!(err.message(), "Invalid document path: '../c'");
}

// ---- Settings ----

#[test]
fn settings_are_laid_over_each_other() {
    let mut below = RoleSettings::default();
    below.use_tools = Some("a".to_string());
    below.max_spawn_depth = Some(1);
    let mut top = RoleSettings::default();
    top.use_tools = Some("b".to_string());
    top.use_agents = Some("c".to_string());
    below.merge_from(&top);
    assert_eq!(below.use_tools.as_deref(), Some("b"));
    assert_eq!(below.use_agents.as_deref(), Some("c"));
    assert_eq!(below.max_spawn_depth, Some(1));
    let before = format!("{below:?}");
    below.merge_from(&top);
    assert_eq!(format!("{below:?}"), before);
    below.merge_from(&RoleSettings::default());
    assert_eq!(format!("{below:?}"), before);
}

#[test]
fn model_id_is_noted_where_there_was_a_model() {
    let mut role = role("t", "");
    role.set_model(model("first"), &count);
    assert_eq!(role.model_id(), None);
    role.set_model(model("second"), &count);
    assert_eq!(role.model_id(), Some("second"));
    assert_eq!(role.model().id(), "second");
}

#[test]
fn role_takes_over_settings_of_another() {
    let mut other = role("o", "");
    other.set_model(model("m"), &count);
    other.set_use_tools(Some("all".to_string()));
    other.set_max_spawn_depth(Some(2));
    other.set_rag(Some(Rag { handle: 4 }));
    let mut mine = role("t", "p");
    mine.set_use_agents(Some("x".to_string()));
    mine.set_max_spawn_depth(Some(9));
    mine.sync(&other);
    assert_eq!(mine.model().id(), "m");
    assert_eq!(mine.use_tools(), Some("all".to_string()));
    assert_eq!(mine.use_agents(), Some("x".to_string()));
    assert_eq!(mine.max_spawn_depth(), Some(2));
    assert_eq!(RoleLike::rag(&mine), None);
    assert_eq!(mine.prompt(), "p");
}

#[test]
fn agent_becomes_a_role_with_its_instructions() {
    let mut role = agent("Speak {{lang}}");
    role.set_shared_variables(variables(&[("lang", "French")]));
    role.set_rag(Some(Rag { handle: 1 }));
    let made = role.to_role(&same);
    assert_eq!(made.kind, RoleKind::Role);
    assert_eq!(made.prompt(), "Speak French");
    assert_eq!(made.name(), "my-agent");
    assert_eq!(RoleLike::rag(&made), Some(Rag { handle: 1 }));
}

#[test]
fn names_of_roles() {
    assert!(role("a#b", "").has_args());
    assert!(!role("ab", "").has_args());
    assert!(role("", "").is_derived());
    let mut renamed = role("a", "");
    renamed.rename("b");
    assert_eq!(renamed.name(), "b");
    assert!(!renamed.is_derived());
}
