use aichat_core::function::ToolCall;
use aichat_core::message::{
    extract_system_message, patch_messages, ImageUrl, Message, MessageContent, MessageContentPart,
    MessageRole,
};
use aichat_core::model::Model;
use aichat_core::render::{
    format_reasoning, format_subagent_trace, stream_display, subagent_open, StreamDisplay,
};
use serde_json::Value;

fn json(text: &str) -> Value {
    serde_json::from_str(text).unwrap()
}

fn text(t: &str) -> MessageContent {
    MessageContent::Text(t.to_string())
}

fn part(t: &str) -> MessageContentPart {
    MessageContentPart::Text { text: t.to_string() }
}

fn image(url: &str) -> MessageContentPart {
    MessageContentPart::ImageUrl { image_url: ImageUrl { url: url.to_string() } }
}

fn parts(c: &MessageContent) -> Vec<String> {
    match c {
        MessageContent::Text(t) => vec![format!("={t}")],
        MessageContent::Array(list) => list
            .iter()
            .map(|p| match p {
                MessageContentPart::Text { text } => text.clone(),
                MessageContentPart::ImageUrl { image_url } => format!("@{}", image_url.url),
            })
            .collect(),
    }
}

fn model(prefix: Option<&str>, no_system_message: bool) -> Model {
    Model {
        system_prompt_prefix: prefix.map(|v| v.to_string()),
        no_system_message,
        ..Model::default()
    }
}

#[test]
fn roles_are_told_apart() {
    assert!(MessageRole::System.is_system() && !MessageRole::User.is_system());
    assert!(MessageRole::User.is_user() && !MessageRole::Tool.is_user());
    assert!(MessageRole::Assistant.is_assistant() && !MessageRole::System.is_assistant());
    assert!(MessageRole::Tool.is_tool() && !MessageRole::Assistant.is_tool());
    assert_eq!(MessageRole::default(), MessageRole::User);
}

#[test]
fn default_message_is_an_empty_one_of_the_user() {
    let m = Message::default();
    assert_eq!(m.role, MessageRole::User);
    assert_eq!(parts(&m.content), vec!["="]);
    assert!(m.tool_calls.is_none() && m.tool_call_id.is_none());
    assert!(m.trace.is_none() && m.reasoning_content.is_none());
}

#[test]
fn messages_of_a_round_of_calls() {
    let call = ToolCall::new("f".to_string(), json("{}"), Some("1".to_string()));
    let m = Message::new_assistant_tool_calls(
        "Let me see".to_string(),
        vec![call],
        Some("why".to_string()),
    );
    assert_eq!(m.role, MessageRole::Assistant);
    assert_eq!(m.tool_calls.as_ref().unwrap().len(), 1);
    assert_eq!(m.reasoning_content.as_deref(), Some("why"));
    let none = Message::new_assistant_tool_calls(String::new(), vec![], None);
    assert!(none.tool_calls.is_none());

    let r = Message::new_tool_result(Some("1".to_string()), "4".to_string(), Some(json("[1]")));
    assert_eq!(r.role, MessageRole::Tool);
    assert_eq!(r.tool_call_id.as_deref(), Some("1"));
    assert_eq!(r.trace, Some(json("[1]")));
    assert_eq!(parts(&r.content), vec!["=4"]);
}

#[test]
fn system_text_goes_before_the_pieces() {
    let mut m = Message::new(MessageRole::User, text("u"));
    m.merge_system(text("s"));
    assert_eq!(parts(&m.content), vec!["s", "u"]);
    let mut m = Message::new(MessageRole::User, MessageContent::Array(vec![image("i"), part("u")]));
    m.merge_system(text("s"));
    assert_eq!(parts(&m.content), vec!["s", "@i", "u"]);
    let mut m = Message::new(MessageRole::User, text("u"));
    m.merge_system(MessageContent::Array(vec![part("a"), part("b")]));
    assert_eq!(parts(&m.content), vec!["a", "b", "u"]);
    let mut m = Message::new(MessageRole::User, MessageContent::Array(vec![part("u")]));
    m.merge_system(MessageContent::Array(vec![part("a")]));
    assert_eq!(parts(&m.content), vec!["a", "u"]);
}

#[test]
fn patching_for_a_model() {
    let conversation = || {
        vec![
            Message::new(MessageRole::System, text("sys")),
            Message::new(MessageRole::User, text("hi")),
        ]
    };
    let mut messages = conversation();
    patch_messages(&mut messages, &model(None, false));
    assert_eq!(messages.len(), 2);

    patch_messages(&mut messages, &model(Some("pre"), false));
    assert_eq!(parts(&messages[0].content), vec!["pre", "sys"]);

    let mut messages = vec![Message::new(MessageRole::User, text("hi"))];
    patch_messages(&mut messages, &model(Some("pre"), false));
    assert_eq!(messages.len(), 2);
    assert_eq!(messages[0].role, MessageRole::System);
    assert_eq!(parts(&messages[0].content), vec!["=pre"]);

    let mut messages = conversation();
    patch_messages(&mut messages, &model(Some("pre"), true));
    assert_eq!(messages.len(), 1);
    assert_eq!(messages[0].role, MessageRole::User);
    assert_eq!(parts(&messages[0].content), vec!["pre", "sys", "hi"]);

    let mut alone = vec![Message::new(MessageRole::System, text("sys"))];
    patch_messages(&mut alone, &model(None, true));
    assert!(alone.is_empty());

    let mut nothing = vec![];
    patch_messages(&mut nothing, &model(Some("pre"), true));
    assert!(nothing.is_empty());
}

#[test]
fn system_message_is_taken_out() {
    let mut messages = vec![
        Message::new(MessageRole::System, MessageContent::Array(vec![part("a"), part("b")])),
        Message::new(MessageRole::User, text("hi")),
    ];
    assert_eq!(extract_system_message(&mut messages).as_deref(), Some("a\n\nb"));
    assert_eq!(messages.len(), 1);
    assert_eq!(extract_system_message(&mut messages), None);
    assert_eq!(messages.len(), 1);
}

#[test]
fn content_as_text() {
    assert_eq!(text("a").to_text(), "a");
    let list = MessageContent::Array(vec![part("a"), image("u"), part(""), part("b")]);
    assert_eq!(list.to_text(), "a\n\n\n\nb");
    assert_eq!(MessageContent::Array(vec![image("u")]).to_text(), "");
}

#[test]
fn content_as_it_is_typed() {
    let resolve = |url: &str| url.replace("data:", "file:");
    let multiline = |t: &str| format!("[{t}]");
    assert_eq!(text("a").render_input(&resolve, &None, &multiline), "[a]");
    let list = MessageContent::Array(vec![
        part("look"),
        image("data:1"),
        part("at"),
        image("data:2"),
    ]);
    assert_eq!(
        list.render_input(&resolve, &None, &multiline),
        ".file file:1 file:2 -- [ look at]"
    );
    let images = MessageContent::Array(vec![image("data:1")]);
    assert_eq!(images.render_input(&resolve, &None, &multiline), ".file file:1");
    assert_eq!(MessageContent::Array(vec![]).render_input(&resolve, &None, &multiline), ".file ");
}

#[test]
fn prompt_is_merged_into_the_first_piece() {
    let wrap = |t: &str| format!("<{t}>");
    let mut c = text("a");
    c.merge_prompt(&wrap);
    assert_eq!(parts(&c), vec!["=<a>"]);
    let mut c = MessageContent::Array(vec![part("a"), part("b")]);
    c.merge_prompt(&wrap);
    assert_eq!(parts(&c), vec!["<a>", "b"]);
    let mut c = MessageContent::Array(vec![image("u"), part("b")]);
    c.merge_prompt(&wrap);
    assert_eq!(parts(&c), vec!["@u", "b"]);
    let mut c = MessageContent::Array(vec![]);
    c.merge_prompt(&wrap);
    assert_eq!(parts(&c), vec!["<>"]);
}

#[test]
fn reasoning_is_marked() {
    assert_eq!(format_reasoning(""), "");
    assert_eq!(format_reasoning("because"), "<think>\nbecause\n</think>\n");
}

#[test]
fn trace_of_a_subagent() {
    let dim = |t: &str| format!("~{t}~");
    assert_eq!(format_subagent_trace(None, "answer", &dim), "answer");
    let trace = json(
        r#"{"agent": "coder", "messages": [
            {"role": "system", "content": "secret"},
            {"role": "user", "content": "task"},
            {"role": "assistant", "content": ""},
            {"role": "tool", "content": [1]},
            {"role": "assistant", "content": "done"}]}"#,
    );
    assert_eq!(
        format_subagent_trace(Some(&trace), "answer", &dim),
        "~<subagent agent=\"coder\">~\ntask\n\ndone\n~</subagent>~"
    );
    assert_eq!(
        format_subagent_trace(Some(&json("[]")), "answer", &dim),
        "~<subagent agent=\"?\">~\nanswer\n~</subagent>~"
    );
    assert_eq!(
        format_subagent_trace(Some(&json(r#"{"messages": "x"}"#)), "answer", &dim),
        "~<subagent agent=\"?\">~\nanswer\n~</subagent>~"
    );
    assert_eq!(subagent_open("a"), "<subagent agent=\"a\">");
}

#[test]
fn display_of_a_stream() {
    assert_eq!(stream_display(0, false, true, true), StreamDisplay::Markdown);
    assert_eq!(stream_display(0, false, true, false), StreamDisplay::Raw);
    assert_eq!(stream_display(0, false, false, true), StreamDisplay::Raw);
    assert_eq!(stream_display(1, false, true, true), StreamDisplay::Drain);
    assert_eq!(stream_display(2, true, true, true), StreamDisplay::Markdown);
}
