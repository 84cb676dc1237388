use aichat_core::agent::AgentVariables;
use aichat_core::error::Error;
use aichat_core::function::ToolCall;
use aichat_core::input::Input;
use aichat_core::keeping::{
    has_timestamp, session_file, validate_session_name, ExitAction, ExitEvent, ExportValue,
};
use aichat_core::message::{patch_messages, Message, MessageContent, MessageRole};
use aichat_core::model::{Model, Rag, Real};
use aichat_core::role::{Role, RoleKind, RoleLike};
use aichat_core::session::{AutoName, Session, TEMP_SESSION_NAME};
use serde_json::Value;

fn same(s: &str) -> String {
    s.to_string()
}

fn count(model: &Model, messages: &Vec<Message>) -> usize {
    model.id.len() * 100 + messages.len()
}

fn model(id: &str) -> Model {
    Model { id: id.to_string(), max_input_tokens: Some(1000), ..Model::default() }
}

fn number(x: f64) -> Real {
    Real { bits: x.to_bits(), text: x.to_string() }
}

fn role(prompt: &str) -> Role {
    let mut role = Role::new("guide", prompt, &same);
    role.set_model(model("m"), &count);
    role
}

fn session(name: &str, prompt: &str) -> Session {
    Session::new(role(prompt), None, name, &count)
}

fn say(s: &mut Session, prompt: &str, input: &str, output: &str) {
    let input = Input::from_str(input, role(prompt));
    s.add_message(&input, output, None, &same, &count).unwrap();
}

fn shown(messages: &[Message]) -> Vec<(MessageRole, String)> {
    messages.iter().map(|m| (m.role, m.content.to_text())).collect()
}

fn pair(role: MessageRole, t: &str) -> (MessageRole, String) {
    (role, t.to_string())
}

#[test]
fn new_session_takes_over_a_role() {
    let mut r = role("p");
    r.set_temperature(Some(number(0.5)));
    r.set_use_tools(Some("fs".to_string()));
    r.set_rag(Some(Rag { handle: 2 }));
    let s = Session::new(r, Some(true), "work", &count);
    assert_eq!(s.name(), "work");
    assert_eq!(s.role_name(), Some("guide"));
    assert_eq!(s.save_session(), Some(true));
    assert_eq!(s.model_id, "m");
    assert_eq!(s.temperature().unwrap().text, "0.5");
    assert_eq!(s.use_tools(), Some("fs".to_string()));
    assert_eq!(RoleLike::rag(&s), Some(Rag { handle: 2 }));
    assert_eq!(s.role_prompt, "p");
    assert!(!s.dirty());
    assert!(s.is_empty());
    assert_eq!(s.tokens(), 100);
    let unnamed = Session::new(Role::new("", "p", &same), None, "x", &count);
    assert_eq!(unnamed.role_name(), None);
}

#[test]
fn exchanges_are_kept() {
    let mut s = session("work", "Sys");
    say(&mut s, "Sys", "hi", "hello");
    say(&mut s, "Sys", "more", "sure");
    assert_eq!(
        shown(s.messages()),
        vec![
            pair(MessageRole::System, "Sys"),
            pair(MessageRole::User, "hi"),
            pair(MessageRole::Assistant, "hello"),
            pair(MessageRole::User, "more"),
            pair(MessageRole::Assistant, "sure"),
        ]
    );
    assert!(s.dirty());
    assert_eq!(s.tokens(), 105);
    assert_eq!(s.user_messages_len(), 2);
    assert!(s.has_user_messages());
    assert!(!session("x", "").has_user_messages());
}

#[test]
fn messages_of_calls_and_attachments_are_kept() {
    let mut s = session("work", "");
    let mut input = Input::from_str("hi", role(""));
    input.pending_messages =
        vec![Message::new_tool_result(None, "4".to_string(), None)];
    input.data_urls.insert("h1".to_string(), "a.png".to_string());
    s.add_message(&input, "out", Some("why".to_string()), &same, &count).unwrap();
    assert_eq!(
        shown(s.messages()),
        vec![
            pair(MessageRole::User, "hi"),
            pair(MessageRole::Tool, "4"),
            pair(MessageRole::Assistant, "out"),
        ]
    );
    assert_eq!(s.messages()[2].reasoning_content.as_deref(), Some("why"));
    assert_eq!(s.data_urls.get("h1"), Some(&"a.png".to_string()));
    input.data_urls.insert("h1".to_string(), "b.png".to_string());
    s.add_message(&input, "out", None, &same, &count).unwrap();
    assert_eq!(s.data_urls.get("h1"), Some(&"b.png".to_string()));
}

#[test]
fn reply_is_continued_or_replaced() {
    let mut s = session("work", "");
    say(&mut s, "", "hi", "Hel");
    let mut input = Input::from_str("", role(""));
    input.continue_output = Some("Hel".to_string());
    s.add_message(&input, "lo", Some("r".to_string()), &same, &count).unwrap();
    assert_eq!(s.messages()[1].content.to_text(), "Hello");
    s.add_message(&input, "!", None, &same, &count).unwrap();
    assert_eq!(s.messages()[1].content.to_text(), "Hello!");
    assert_eq!(s.messages()[1].reasoning_content.as_deref(), Some("r"));
    let mut again = Input::from_str("", role(""));
    again.regenerate = true;
    s.add_message(&again, "Hey", None, &same, &count).unwrap();
    assert_eq!(s.messages()[1].content.to_text(), "Hey");
    assert_eq!(s.messages()[1].reasoning_content, None);
    assert_eq!(s.messages().len(), 2);
    let mut empty = session("e", "");
    empty.add_message(&again, "x", None, &same, &count).unwrap();
    assert!(empty.is_empty() && empty.dirty());
}

#[test]
fn last_message_for_the_model_is_the_users() {
    let mut s = session("work", "Sys\n### INPUT:\nscene");
    let input = Input::from_str("", role("Sys\n### INPUT:\nscene"));
    assert_eq!(
        shown(&s.build_messages(&input, &same)),
        vec![pair(MessageRole::System, "Sys"), pair(MessageRole::User, "scene")]
    );
    say(&mut s, "", "hi", "hello");
    let built = s.build_messages(&Input::from_str("", role("")), &same);
    assert_eq!(shown(&built).last(), Some(&pair(MessageRole::User, "")));
    s.messages.pop();
    let built = s.build_messages(&Input::from_str("", role("")), &same);
    assert_eq!(shown(&built), vec![pair(MessageRole::User, "hi")]);
    let built = s.build_messages(&Input::from_str("new", role("")), &same);
    assert_eq!(
        shown(&built),
        vec![pair(MessageRole::User, "hi"), pair(MessageRole::User, "new")]
    );
}

#[test]
fn messages_for_a_reply_given_anew_end_with_the_user() {
    let mut s = session("work", "");
    say(&mut s, "", "hi", "hello");
    s.messages.push(Message::new_tool_result(None, "4".to_string(), None));
    let mut input = Input::from_str("", role(""));
    input.regenerate = true;
    assert_eq!(shown(&s.build_messages(&input, &same)), vec![pair(MessageRole::User, "hi")]);
    s.messages.remove(0);
    assert!(s.build_messages(&input, &same).is_empty());
    input.continue_output = Some("x".to_string());
    assert_eq!(s.build_messages(&input, &same).len(), 2);
}

#[test]
fn details_stand_beside_the_messages_that_they_belong_to() {
    let mut s = session("work", "Sys");
    let mut input = Input::from_str("hi", role("Sys"));
    input.pending_messages = vec![
        Message::new_assistant_tool_calls(
            String::new(),
            vec![ToolCall::new("f".to_string(), Value::Null, Some("1".to_string()))],
            Some("because".to_string()),
        ),
        Message::new_tool_result(Some("1".to_string()), "4".to_string(), Some(Value::from(4))),
    ];
    s.add_message(&input, "out", Some("why".to_string()), &same, &count).unwrap();
    input.regenerate = true;
    s.add_message(&input, "again", Some("so".to_string()), &same, &count).unwrap();
    let mut messages = s.build_messages(&Input::from_str("next", role("")), &same);
    let fussy = Model {
        system_prompt_prefix: Some("pre".to_string()),
        no_system_message: true,
        ..Model::default()
    };
    patch_messages(&mut messages, &fussy);
    assert_eq!(messages.len(), 5);
    for m in &messages {
        if m.tool_calls.is_some() || m.reasoning_content.is_some() {
            assert_eq!(m.role, MessageRole::Assistant);
        }
        if m.tool_call_id.is_some() || m.trace.is_some() {
            assert_eq!(m.role, MessageRole::Tool);
        }
    }
}

#[test]
fn compression_keeps_what_was_said() {
    let mut s = session("work", "Sys");
    say(&mut s, "Sys", "hi", "hello");
    s.compress("Summary".to_string(), &count);
    assert_eq!(shown(s.messages()), vec![pair(MessageRole::System, "Sys\n\nSummary")]);
    assert_eq!(s.compressed_messages.len(), 3);
    assert_eq!(s.tokens(), 101);
    let built = s.build_messages(&Input::from_str("next", role("")), &same);
    assert_eq!(
        shown(&built),
        vec![
            pair(MessageRole::System, "Sys\n\nSummary"),
            pair(MessageRole::User, "hi"),
            pair(MessageRole::Assistant, "hello"),
            pair(MessageRole::User, "next"),
        ]
    );
    s.compress("Again".to_string(), &count);
    assert_eq!(shown(s.messages()), vec![pair(MessageRole::System, "Sys\n\nSummary\n\nAgain")]);
    assert_eq!(s.compressed_messages.len(), 4);

    let mut plain = session("work", "");
    say(&mut plain, "", "hi", "hello");
    plain.compress("Summary".to_string(), &count);
    assert_eq!(shown(plain.messages()), vec![pair(MessageRole::System, "Summary")]);
}

#[test]
fn need_for_compression() {
    let mut s = session("work", "");
    s.tokens = 50;
    assert!(s.need_compress(49));
    assert!(!s.need_compress(50));
    assert!(!s.need_compress(0));
    s.set_compress_threshold(Some(10));
    assert!(s.dirty());
    assert!(s.need_compress(1000));
    s.set_compressing(true);
    assert!(s.compressing());
    assert!(!s.need_compress(1000));
    s.set_compressing(false);
    s.set_compress_threshold(Some(0));
    assert!(!s.need_compress(1));
}

#[test]
fn cleared_session_is_empty() {
    let mut s = session("work", "Sys");
    assert!(s.guard_empty().is_ok());
    say(&mut s, "Sys", "hi", "hello");
    assert_eq!(s.guard_empty(), Err(Error::SessionNotEmpty));
    assert_eq!(
        s.guard_empty().unwrap_err().message(),
        "Cannot perform this operation because the session has messages, please `.empty session` first."
    );
    s.compress("x".to_string(), &count);
    s.clear_messages(&count);
    assert!(s.is_empty());
    assert!(s.guard_empty().is_ok());
    assert_eq!(s.tokens(), 100);
    assert_eq!(s.role_prompt, "Sys");
}

#[test]
fn changes_make_a_session_dirty_only_when_they_are_changes() {
    let mut s = session("work", "");
    s.set_save_session(None);
    s.set_temperature(None);
    s.set_use_tools(None);
    s.set_use_agents(None);
    s.set_max_spawn_depth(None);
    s.set_max_subagent_turns(None);
    s.set_compress_threshold(None);
    s.set_model(model("m"), &count);
    assert!(!s.dirty());
    s.set_save_session(Some(false));
    assert!(s.dirty());
    s.dirty = false;
    s.set_temperature(Some(number(0.0)));
    assert!(s.dirty());
    s.dirty = false;
    s.set_temperature(Some(number(-0.0)));
    assert!(!s.dirty());
    s.set_top_p(Some(number(f64::NAN)));
    s.dirty = false;
    s.set_top_p(Some(number(f64::NAN)));
    assert!(s.dirty());
    s.dirty = false;
    s.set_model(model("other"), &count);
    assert!(s.dirty());
    assert_eq!((s.model_id.as_str(), s.tokens()), ("other", 500));
    s.dirty = false;
    s.set_use_agents(Some("x".to_string()));
    assert!(s.dirty());
    s.dirty = false;
    s.set_max_spawn_depth(Some(1));
    assert!(s.dirty());
    s.dirty = false;
    s.set_max_subagent_turns(Some(1));
    assert!(s.dirty());
    s.dirty = false;
    s.set_rag(None);
    assert!(s.dirty());
}

#[test]
fn session_as_a_role() {
    let mut s = session("work", "p {{x}}");
    s.set_use_tools(Some("fs".to_string()));
    s.rag = Some(Rag { handle: 3 });
    let role = s.to_role(&|t: &str| t.replace("{{x}}", "y"));
    assert_eq!(role.name(), "guide");
    assert_eq!(role.prompt(), "p y");
    assert_eq!(role.model().id(), "m");
    assert_eq!(role.use_tools(), Some("fs".to_string()));
    assert_eq!(RoleLike::rag(&role), Some(Rag { handle: 3 }));
    s.clear_role();
    let role = s.to_role(&same);
    assert_eq!((role.name(), role.prompt()), ("", ""));
    assert_eq!(RoleLike::rag(&role), None);
}

#[test]
fn session_takes_over_an_agent() {
    let mut agent = Role::default();
    agent.kind = RoleKind::Agent;
    agent.prompt = "Speak {{lang}}".to_string();
    let mut variables = AgentVariables::new();
    variables.insert("lang".to_string(), "French".to_string());
    agent.set_shared_variables(variables);
    let mut s = session("work", "p");
    s.sync_agent(&agent, &same);
    assert_eq!(s.role_name(), None);
    assert_eq!(s.role_prompt, "Speak French");
    assert_eq!(s.agent_instructions(), "Speak French");
    assert_eq!(s.agent_variables().get("lang"), Some(&"French".to_string()));
}

// ---- Names ----

#[test]
fn names_that_are_made() {
    let named = AutoName::new("n".to_string());
    assert!(!named.need());
    let mut open = AutoName::new_from_chat_history("h".to_string());
    assert!(open.need());
    open.naming = true;
    assert!(!open.need());
    let mut s = session("work", "");
    assert!(!s.need_autoname());
    s.set_autonaming(true);
    assert!(s.autoname.is_none());
    s.set_autoname("What's up, Zoë 7?");
    assert_eq!(s.autoname(), Some("What-s-up--Zoë-7-"));
    assert_eq!(s.chat_history_for_autonaming(), None);
}

#[test]
fn first_exchange_of_an_unnamed_session_asks_for_a_name() {
    let mut s = Session::new(role(""), Some(true), TEMP_SESSION_NAME, &count);
    say(&mut s, "", "hi", "hello");
    assert!(s.need_autoname());
    assert_eq!(
        s.chat_history_for_autonaming().as_deref(),
        Some("USER: hi\nASSISTANT: hello\n")
    );
    s.set_autonaming(true);
    assert!(!s.need_autoname());
    let mut named = Session::new(role(""), Some(true), "work", &count);
    say(&mut named, "", "hi", "hello");
    assert!(!named.need_autoname());
    let mut unsaved = Session::new(role(""), None, TEMP_SESSION_NAME, &count);
    say(&mut unsaved, "", "hi", "hello");
    assert!(!unsaved.need_autoname());
}

#[test]
fn names_for_sessions() {
    assert_eq!(validate_session_name("  ").as_deref(), Some("This name is required"));
    assert_eq!(validate_session_name(" temp ").as_deref(), Some("This name is reserved"));
    assert_eq!(validate_session_name("temp2"), None);
    assert_eq!(session_file("a"), "a.yaml");
}

// ---- Leaving and saving ----

fn leave(s: &Session, is_repl: bool) -> String {
    format!("{:?}", s.exit_at(is_repl, ExitEvent::Leave, "20240102T030405"))
}

#[test]
fn leaving_a_session() {
    let mut s = session("work", "");
    assert_eq!(leave(&s, true), "Finish");
    s.dirty = true;
    assert_eq!(leave(&s, true), "Confirm");
    assert_eq!(leave(&s, false), "Finish");
    s.save_session = Some(false);
    assert_eq!(leave(&s, true), "Finish");
    s.set_save_session_this_time();
    assert_eq!(leave(&s, false), "Save { unnamed: false, name: \"work\" }");
    s.name = TEMP_SESSION_NAME.to_string();
    assert_eq!(leave(&s, false), "Save { unnamed: true, name: \"20240102T030405\" }");
    s.set_autoname("a b");
    assert_eq!(leave(&s, false), "Save { unnamed: true, name: \"20240102T030405-a-b\" }");
    assert_eq!(
        format!("{:?}", s.exit_at(true, ExitEvent::Confirmed(false), "")),
        "Finish"
    );
    assert_eq!(
        format!("{:?}", s.exit_at(true, ExitEvent::Confirmed(true), "")),
        "AskName"
    );
    assert_eq!(
        format!("{:?}", s.exit_at(true, ExitEvent::Named("n".to_string()), "")),
        "Save { unnamed: false, name: \"n\" }"
    );
    s.name = "work".to_string();
    assert_eq!(
        format!("{:?}", s.exit_at(true, ExitEvent::Confirmed(true), "")),
        "Save { unnamed: false, name: \"work\" }"
    );
}

#[test]
fn unnamed_session_is_saved_under_the_time() {
    let mut s = Session::new(role(""), Some(true), TEMP_SESSION_NAME, &count);
    s.dirty = true;
    match s.exit(false, ExitEvent::Leave) {
        ExitAction::Save { unnamed, name } => {
            assert!(unnamed);
            assert_eq!(name.len(), 15);
            assert_eq!(&name[8..9], "T");
            assert!(name.chars().filter(|c| c.is_ascii_digit()).count() == 14);
            assert!(has_timestamp(&format!("{name}-x")));
        }
        _ => panic!("not saved"),
    }
}

#[test]
fn saving_a_session() {
    let mut s = session("work", "");
    s.dirty = true;
    s.begin_save("/s/new.yaml");
    assert_eq!(s.path.as_deref(), Some("/s/new.yaml"));
    assert!(s.dirty());
    s.finish_save("new");
    assert_eq!(s.name(), "new");
    assert!(!s.dirty());
    assert_eq!(leave(&s, true), "Finish");
}

#[test]
fn loading_a_session() {
    let parsed = session("whatever", "");
    let s = Session::load(
        parsed.clone(),
        "work",
        "/s/work.yaml",
        model("big"),
        Some("fresh".to_string()),
        &count,
    )
    .unwrap();
    assert_eq!((s.name(), s.path.as_deref()), ("work", Some("/s/work.yaml")));
    assert_eq!(s.role_prompt, "fresh");
    assert_eq!(s.tokens(), 300);
    let mut without_role = parsed.clone();
    without_role.clear_role();
    let s = Session::load(
        without_role,
        "work",
        "/s/work.yaml",
        model("big"),
        Some("fresh".to_string()),
        &count,
    )
    .unwrap();
    assert_eq!(s.role_prompt, "");
}

#[test]
fn loading_a_session_that_had_no_name() {
    let parsed = session("whatever", "");
    let load = |name: &str| {
        Session::load(parsed.clone(), name, "/s/x.yaml", model("m"), None, &count)
    };
    let s = load("_/20240102T030405-my-topic").unwrap();
    assert_eq!((s.name(), s.path.as_deref()), (TEMP_SESSION_NAME, None));
    assert_eq!(s.autoname(), Some("my-topic"));
    let s = load("_/20240102T030405").unwrap();
    assert_eq!(s.autoname(), None);
    let s = load("_/notes").unwrap();
    assert_eq!((s.name(), s.autoname()), (TEMP_SESSION_NAME, None));
    let s = load("_/x20240102T030405-y").unwrap();
    assert_eq!(s.autoname(), Some("-y"));
    assert!(load("_/€20240102T03040€20240102T030405-").is_some());
    assert!(load("_/aaaaaaaaaaaaaa€20240102T030405-").is_none());
    assert!(has_timestamp("20240102T030405-"));
    assert!(!has_timestamp("20240102 030405-"));
    assert!(has_timestamp("Zoë 20240102T030405-x"));
    assert!(!has_timestamp("20240102T03040-"));
    assert!(!has_timestamp("20240102T030405"));
}

#[test]
fn made_name_comes_back_with_the_session() {
    let mut s = Session::new(role(""), Some(true), TEMP_SESSION_NAME, &count);
    s.dirty = true;
    s.set_autoname("my topic");
    match s.exit(false, ExitEvent::Leave) {
        ExitAction::Save { unnamed: true, name } => {
            let again = Session::load(
                s.clone(),
                &format!("_/{name}"),
                "/s/_/x.yaml",
                model("m"),
                None,
                &count,
            )
            .unwrap();
            assert_eq!((again.name(), again.autoname()), (TEMP_SESSION_NAME, Some("my-topic")));
        }
        _ => panic!("not saved"),
    }
}

#[test]
fn session_answers_as_the_role_that_it_took_over() {
    let mut r = role("p");
    r.set_temperature(Some(number(0.25)));
    r.set_max_spawn_depth(Some(2));
    r.set_rag(Some(Rag { handle: 9 }));
    let mut s = session("work", "other");
    s.set_role(r, &count);
    let again = s.to_role(&same);
    assert_eq!((again.name(), again.prompt()), ("guide", "p"));
    assert_eq!(again.model().id(), "m");
    assert_eq!(again.rag(), Some(Rag { handle: 9 }));
    assert_eq!(again.temperature().unwrap().text, "0.25");
    assert_eq!(again.max_spawn_depth(), Some(2));
    assert_eq!(again.model_id(), None);
}

// ---- Display ----

#[test]
fn information_about_a_session() {
    let mut s = session("work", "");
    s.set_temperature(Some(number(0.5)));
    s.set_save_session(Some(true));
    let fields: Vec<String> = s
        .export()
        .iter()
        .map(|(name, v)| match v {
            ExportValue::OptionalText(t) => format!("{name}={t:?}"),
            ExportValue::Text(t) => format!("{name}={t}"),
            ExportValue::Real(x) => format!("{name}={}", x.text),
            ExportValue::Flag(b) => format!("{name}={b}"),
            ExportValue::Count(n) => format!("{name}={n}"),
            ExportValue::Share => format!("{name}=%"),
            ExportValue::Messages => format!("{name}=.."),
        })
        .collect();
    assert_eq!(
        fields,
        vec![
            "path=None",
            "model=m",
            "temperature=0.5",
            "save_session=true",
            "total_tokens=100",
            "max_input_tokens=1000",
            "total/max=%",
            "messages=..",
        ]
    );
}

#[test]
fn session_on_display() {
    let mut s = session("work", "Sys");
    s.path = Some("/s/work.yaml".to_string());
    s.set_autoname("topic");
    s.set_temperature(Some(number(0.5)));
    s.set_use_tools(Some("fs".to_string()));
    s.set_save_session(Some(false));
    s.set_compress_threshold(Some(4000));
    say(&mut s, "Sys", "hi", "hello");
    s.messages[2].reasoning_content = Some("hm".to_string());
    s.messages.push(Message::new_assistant_tool_calls(
        String::new(),
        vec![
            ToolCall::new("add".to_string(), Value::from(1), None),
            ToolCall::new("web".to_string(), Value::from("x"), None),
        ],
        None,
    ));
    s.messages.push(Message::new_tool_result(
        None,
        "done".to_string(),
        Some(serde_json::from_str(r#"{"agent": "a", "messages": []}"#).unwrap()),
    ));
    let info = Some(("todo".to_string(), vec!["add".to_string()]));
    let markdown = |t: &str| format!("*{t}*");
    let dim = |t: &str| format!("~{t}~");
    let out = s.render(&info, true, true, &same, &same, &markdown, &dim);
    let wanted = [
        "path                /s/work.yaml",
        "autoname            topic",
        "model               m",
        "temperature         0.5",
        "use_tools           fs",
        "save_session        false",
        "compress_threshold  4000",
        "max_input_tokens    1000",
        "",
        "*Sys*",
        ">> hi",
        "*<think>\nhm\n</think>\n*",
        "*hello*",
        "",
        "~Call todo-add 1~",
        "~Call web \"x\"~",
        "",
        "~<subagent agent=\"a\">~\n\n~</subagent>~",
    ];
    assert_eq!(out, wanted.join("\n"));
    let plain = s.render(&None, false, false, &same, &same, &markdown, &dim);
    assert!(plain.contains("~Call add 1~"));
    assert!(!plain.contains("<think>"));
    assert!(plain.ends_with("\ndone"));
    let empty = session("work", "");
    assert_eq!(
        empty.render(&None, true, true, &same, &same, &markdown, &dim),
        "model               m\nmax_input_tokens    1000\n"
    );
}

#[test]
fn long_texts_are_shown_as_typed() {
    let mut s = session("work", "");
    say(&mut s, "", "a\nb", "c");
    let multiline = |t: &str| format!(":::\n{t}\n:::");
    let out = s.render(&None, false, false, &same, &multiline, &same, &same);
    assert!(out.contains(">> :::\na\nb\n:::"));
    let m = MessageContent::Text("x".to_string());
    assert_eq!(m.render_input(&same, &None, &multiline), ":::\nx\n:::");
}
