//! Texts for display.

use serde_json::Value;
use vstd::prelude::*;

use crate::closure;
use crate::json;
use crate::json::JsonModel;
use crate::text;

verus! {

/// Reasoning, marked as such for display.
pub open spec fn reasoning_text(t: Seq<char>) -> Seq<char> {
    if t.len() == 0 {
        seq![]
    } else {
        "<think>\n"@ + t + "\n</think>\n"@
    }
}

/// Marks reasoning for display.
pub fn format_reasoning(text: &str) -> (r: String)
    ensures
        r@ == reasoning_text(text@),
{
    if text.is_empty() {
        let r = String::new();
        proof {
            assert(r@ =~= seq![]);
        }
        return r;
    }
    let mut out = "<think>\n".to_owned();
    out.append(text);
    out.append("\n</think>\n");
    out
}

/// Only where there is no reasoning is nothing shown.
pub proof fn reasoning_text_is_empty_only_without_reasoning(t: Seq<char>)
    ensures
        reasoning_text(t).len() == 0 <==> t.len() == 0,
{
    reveal_strlit("<think>\n");
}

/// The line that opens what a subagent said.
pub open spec fn subagent_mark(agent: Seq<char>) -> Seq<char> {
    "<subagent agent=\""@ + agent + "\">"@
}

/// The line that opens what a subagent said.
pub fn subagent_open(agent: &str) -> (r: String)
    ensures
        r@ == subagent_mark(agent@),
{
    let mut out = "<subagent agent=\"".to_owned();
    out.append(agent);
    out.append("\">");
    out
}

/// The text of a message in a trace, unless it is the system's or empty.
pub open spec fn traced_text(m: JsonModel) -> Option<Seq<char>> {
    if json::text_field(m, "role"@) == Some("system"@) {
        None
    } else {
        match json::text_field(m, "content"@) {
            Some(t) => if t.len() == 0 {
                None
            } else {
                Some(t)
            },
            None => None,
        }
    }
}

/// The texts of the messages in a trace.
pub open spec fn traced_texts(messages: Seq<JsonModel>) -> Seq<Seq<char>>
    decreases messages.len(),
{
    if messages.len() == 0 {
        seq![]
    } else {
        let before = traced_texts(messages.drop_last());
        match traced_text(messages.last()) {
            Some(t) => before.push(t),
            None => before,
        }
    }
}

/// The name of the agent in a trace.
pub open spec fn traced_agent(trace: JsonModel) -> Seq<char> {
    match json::text_field(trace, "agent"@) {
        Some(t) => t,
        None => "?"@,
    }
}

/// What the agent in a trace said.
pub open spec fn traced_body(trace: JsonModel, fallback: Seq<char>) -> Seq<char> {
    match json::field(trace, "messages"@) {
        Some(JsonModel::Array(messages)) => text::joined(traced_texts(messages), "\n\n"@),
        _ => fallback,
    }
}

/// `out` shows what a subagent did, between two lines that `dim` shows; without a
/// trace it is the subagent's result.
pub open spec fn shows_trace<F: Fn(&str) -> String>(
    trace: Option<JsonModel>,
    fallback: Seq<char>,
    dim: F,
    out: Seq<char>,
) -> bool {
    match trace {
        None => out == fallback,
        Some(trace) => framed(traced_agent(trace), traced_body(trace, fallback), dim, out),
    }
}

/// `out` is what an agent said, between two lines that `dim` shows.
pub open spec fn framed<F: Fn(&str) -> String>(
    agent: Seq<char>,
    body: Seq<char>,
    dim: F,
    out: Seq<char>,
) -> bool {
    exists|open: Seq<char>, close: Seq<char>|
        {
            &&& #[trigger] closure::gives(dim, subagent_mark(agent), open)
            &&& #[trigger] closure::gives(dim, "</subagent>"@, close)
            &&& out == open + "\n"@ + body + "\n"@ + close
        }
}

/// The text of a message in a trace, unless it is the system's or empty.
fn message_text(m: &Value) -> (r: Option<String>)
    ensures
        text::optional(r) == traced_text(json::json_of(*m)),
{
    if let Some(role) = json::get_text(m, "role") {
        if text::same_text(role.as_str(), "system") {
            return None;
        }
    }
    match json::get_text(m, "content") {
        Some(t) => if t.as_str().is_empty() {
            None
        } else {
            Some(t.clone())
        },
        None => None,
    }
}

/// What the agent in a trace said.
pub fn trace_body(trace: &Value, fallback: &str) -> (r: String)
    ensures
        r@ == traced_body(json::json_of(*trace), fallback@),
{
    let messages = match json::get(trace, "messages") {
        Some(v) => v,
        None => {
            return fallback.to_owned();
        },
    };
    let list = match json::as_array(messages) {
        Some(list) => list,
        None => {
            return fallback.to_owned();
        },
    };
    let ghost all = json::values_of(list@);
    let mut texts: Vec<String> = Vec::new();
    let mut i: usize = 0;
    proof {
        assert(all.take(0) =~= seq![]);
        assert(text::texts(texts@) =~= seq![]);
    }
    while i < list.len()
        invariant
            i <= list@.len(),
            all == json::values_of(list@),
            text::texts(texts@) == traced_texts(all.take(i as int)),
        decreases list@.len() - i,
    {
        proof {
            assert(all.take(i + 1).drop_last() =~= all.take(i as int));
            assert(all.take(i + 1).last() == json::json_of(list@[i as int]));
        }
        if let Some(t) = message_text(&list[i]) {
            proof {
                text::texts_push(texts@, t);
            }
            texts.push(t);
        }
        i += 1;
    }
    proof {
        assert(all.take(i as int) =~= all);
    }
    text::join(&texts, "\n\n")
}

/// Shows what a subagent did, from the trace of its messages: the text of each,
/// between two lines that `dim` shows. `fallback` is its result.
pub fn format_subagent_trace<F: Fn(&str) -> String>(
    trace: Option<&Value>,
    fallback: &str,
    dim: &F,
) -> (r: String)
    requires
        closure::takes_all(*dim),
    ensures
        shows_trace(
            match trace {
                Some(v) => Some(json::json_of(*v)),
                None => None,
            },
            fallback@,
            *dim,
            r@,
        ),
{
    let trace = match trace {
        Some(v) => v,
        None => {
            return fallback.to_owned();
        },
    };
    let agent = match json::get_text(trace, "agent") {
        Some(t) => t.clone(),
        None => "?".to_owned(),
    };
    let body = trace_body(trace, fallback);
    let mark = subagent_open(agent.as_str());
    let open = closure::apply(dim, mark.as_str());
    let close = closure::apply(dim, "</subagent>");
    let mut out = open.clone();
    out.append("\n");
    out.append(body.as_str());
    out.append("\n");
    out.append(close.as_str());
    proof {
        let model = json::json_of(*trace);
        assert(closure::gives(*dim, subagent_mark(traced_agent(model)), open@));
        assert(framed(traced_agent(model), traced_body(model, fallback@), *dim, out@));
    }
    out
}

/// How the stream of a completion is shown.
#[derive(Debug, Clone, Copy, PartialEq, Eq, Structural)]
pub enum StreamDisplay {
    /// Not at all.
    Drain,
    /// As formatted text.
    Markdown,
    /// As it comes.
    Raw,
}

/// How the stream of a completion is shown: that of a subagent not at all when
/// subagents are not shown; else formatted, where the terminal can.
pub open spec fn stream_shown(
    agent_depth: usize,
    show_subagent: bool,
    terminal: bool,
    highlight: bool,
) -> StreamDisplay {
    if agent_depth > 0 && !show_subagent {
        StreamDisplay::Drain
    } else if terminal && highlight {
        StreamDisplay::Markdown
    } else {
        StreamDisplay::Raw
    }
}

/// How the stream of a completion is shown.
pub fn stream_display(
    agent_depth: usize,
    show_subagent: bool,
    terminal: bool,
    highlight: bool,
) -> (r: StreamDisplay)
    ensures
        r == stream_shown(agent_depth, show_subagent, terminal, highlight),
{
    if agent_depth > 0 && !show_subagent {
        StreamDisplay::Drain
    } else if terminal && highlight {
        StreamDisplay::Markdown
    } else {
        StreamDisplay::Raw
    }
}

/// The stream of a completion that no subagent runs is always shown.
pub proof fn own_stream_is_shown(show_subagent: bool, terminal: bool, highlight: bool)
    ensures
        !(stream_shown(0, show_subagent, terminal, highlight) is Drain),
{
}

/// Reasoning is shown between two marks, each in a line of its own; nothing is shown
/// where there is none.
pub proof fn reasoning_stands_between_marks(t: Seq<char>)
    ensures
        t.len() == 0 ==> reasoning_text(t).len() == 0,
        t.len() > 0 ==> reasoning_text(t) == "<think>\n"@ + t + "\n</think>\n"@,
{
}

/// A message of a subagent that is shown: one with a text that is not the system's.
pub open spec fn is_shown(m: JsonModel) -> bool {
    &&& json::text_field(m, "role"@) != Some("system"@)
    &&& json::text_field(m, "content"@) matches Some(t) && t.len() > 0
}

/// What is shown of a subagent's messages is the text of each that has one and is
/// not the system's, in their order.
pub proof fn traces_show_every_text(messages: Seq<JsonModel>)
    ensures
        traced_texts(messages) == messages.filter(|m: JsonModel| is_shown(m)).map_values(
            |m: JsonModel| json::text_field(m, "content"@)->0,
        ),
    decreases messages.len(),
{
    reveal(Seq::filter);
    if messages.len() > 0 {
        traces_show_every_text(messages.drop_last());
    }
    assert(traced_texts(messages) =~= messages.filter(|m: JsonModel| is_shown(m)).map_values(
        |m: JsonModel| json::text_field(m, "content"@)->0,
    ));
}

/// The trace of a subagent is shown between marks that name the agent: its texts
/// with an empty line between two, or, where it holds no messages, the result. A
/// result without a trace is shown as it is.
pub proof fn traces_are_framed<F: Fn(&str) -> String>(
    trace: JsonModel,
    fallback: Seq<char>,
    dim: F,
    out: Seq<char>,
) -> (marks: (Seq<char>, Seq<char>))
    requires
        shows_trace(Some(trace), fallback, dim, out),
    ensures
        ({
            let agent = if json::text_field(trace, "agent"@) is Some {
                json::text_field(trace, "agent"@)->0
            } else {
                "?"@
            };
            let messages = json::field(trace, "messages"@);
            let body = if messages is Some && messages->0 is Array {
                text::joined(
                    messages->0->Array_0.filter(|m: JsonModel| is_shown(m)).map_values(
                        |m: JsonModel| json::text_field(m, "content"@)->0,
                    ),
                    seq!['\n', '\n'],
                )
            } else {
                fallback
            };
            &&& closure::gives(dim, "<subagent agent=\""@ + agent + "\">"@, marks.0)
            &&& closure::gives(dim, "</subagent>"@, marks.1)
            &&& out == marks.0 + seq!['\n'] + body + seq!['\n'] + marks.1
        }),
        shows_trace(None, fallback, dim, fallback),
{
    reveal_strlit("\n");
    reveal_strlit("\n\n");
    assert("\n"@ =~= seq!['\n']);
    assert("\n\n"@ =~= seq!['\n', '\n']);
    if let Some(JsonModel::Array(messages)) = json::field(trace, "messages"@) {
        traces_show_every_text(messages);
    }
    let (open, close) = choose|open: Seq<char>, close: Seq<char>|
        {
            &&& #[trigger] closure::gives(dim, subagent_mark(traced_agent(trace)), open)
            &&& #[trigger] closure::gives(dim, "</subagent>"@, close)
            &&& out == open + "\n"@ + traced_body(trace, fallback) + "\n"@ + close
        };
    (open, close)
}

/// A stream is dropped exactly where it is a subagent's and these are not shown; one
/// that is not dropped is laid out where it goes to a terminal that is to highlight.
pub proof fn streams_are_shown_or_dropped(
    agent_depth: usize,
    show_subagent: bool,
    terminal: bool,
    highlight: bool,
)
    ensures
        stream_shown(agent_depth, show_subagent, terminal, highlight) is Drain <==> agent_depth > 0
            && !show_subagent,
        stream_shown(agent_depth, show_subagent, terminal, highlight) is Markdown <==> (agent_depth
            == 0 || show_subagent) && terminal && highlight,
{
}

} // verus!
