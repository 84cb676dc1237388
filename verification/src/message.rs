//! Chat messages.

use serde_json::Value;
use vstd::prelude::*;

use crate::closure;
use crate::function::{ToolCall, ToolCallModel};
use crate::json;
use crate::json::JsonModel;
use crate::model::{Model, ModelModel};
use crate::text;

verus! {

/// Who speaks.
#[derive(Debug, Copy, PartialEq, Eq, Structural)]
pub enum MessageRole {
    System,
    Assistant,
    User,
    Tool,
}

impl Clone for MessageRole {
    fn clone(&self) -> (r: Self)
        ensures
            r == *self,
    {
        *self
    }
}

impl Default for MessageRole {
    fn default() -> (r: Self)
        ensures
            r == MessageRole::User,
    {
        MessageRole::User
    }
}

impl MessageRole {
    pub fn is_system(&self) -> (r: bool)
        ensures
            r == (*self is System),
    {
        matches!(self, MessageRole::System)
    }

    pub fn is_user(&self) -> (r: bool)
        ensures
            r == (*self is User),
    {
        matches!(self, MessageRole::User)
    }

    pub fn is_assistant(&self) -> (r: bool)
        ensures
            r == (*self is Assistant),
    {
        matches!(self, MessageRole::Assistant)
    }

    pub fn is_tool(&self) -> (r: bool)
        ensures
            r == (*self is Tool),
    {
        matches!(self, MessageRole::Tool)
    }
}

/// Where an image is found.
#[derive(Debug)]
pub struct ImageUrl {
    pub url: String,
}

/// A piece of a message.
#[derive(Debug)]
pub enum MessageContentPart {
    Text { text: String },
    ImageUrl { image_url: ImageUrl },
}

/// What a message says.
#[derive(Debug)]
pub enum MessageContent {
    Text(String),
    Array(Vec<MessageContentPart>),
}

/// What a piece of a message says.
pub enum PartModel {
    Text(Seq<char>),
    ImageUrl(Seq<char>),
}

/// What a message says.
pub enum ContentModel {
    Text(Seq<char>),
    Array(Seq<PartModel>),
}

impl View for MessageContentPart {
    type V = PartModel;

    open spec fn view(&self) -> PartModel {
        match self {
            MessageContentPart::Text { text } => PartModel::Text(text@),
            MessageContentPart::ImageUrl { image_url } => PartModel::ImageUrl(image_url.url@),
        }
    }
}

/// What each of several pieces says.
pub open spec fn parts_of(parts: Seq<MessageContentPart>) -> Seq<PartModel> {
    Seq::new(parts.len(), |i: int| parts[i]@)
}

impl View for MessageContent {
    type V = ContentModel;

    open spec fn view(&self) -> ContentModel {
        match self {
            MessageContent::Text(text) => ContentModel::Text(text@),
            MessageContent::Array(list) => ContentModel::Array(parts_of(list@)),
        }
    }
}

impl Clone for MessageContentPart {
    fn clone(&self) -> (r: Self)
        ensures
            r == *self,
    {
        match self {
            MessageContentPart::Text { text } => MessageContentPart::Text { text: text.clone() },
            MessageContentPart::ImageUrl { image_url } => MessageContentPart::ImageUrl {
                image_url: ImageUrl { url: image_url.url.clone() },
            },
        }
    }
}

impl Clone for MessageContent {
    fn clone(&self) -> (r: Self)
        ensures
            r@ == self@,
    {
        match self {
            MessageContent::Text(text) => MessageContent::Text(text.clone()),
            MessageContent::Array(list) => {
                let copy = list.clone();
                proof {
                    assert(copy@ =~= list@);
                }
                MessageContent::Array(copy)
            },
        }
    }
}

impl Default for MessageContent {
    fn default() -> (r: Self)
        ensures
            r@ == ContentModel::Text(seq![]),
    {
        let r = MessageContent::Text(String::new());
        proof {
            assert(Seq::<char>::empty() =~= seq![]);
        }
        r
    }
}


/// The pieces of a content: a text is one piece.
pub open spec fn content_parts(c: ContentModel) -> Seq<PartModel> {
    match c {
        ContentModel::Text(t) => seq![PartModel::Text(t)],
        ContentModel::Array(list) => list,
    }
}

/// The texts among some pieces, in order.
pub open spec fn part_texts(parts: Seq<PartModel>) -> Seq<Seq<char>>
    decreases parts.len(),
{
    if parts.len() == 0 {
        seq![]
    } else {
        let before = part_texts(parts.drop_last());
        match parts.last() {
            PartModel::Text(t) => before.push(t),
            PartModel::ImageUrl(_) => before,
        }
    }
}

/// The addresses of the images among some pieces, in order.
pub open spec fn part_urls(parts: Seq<PartModel>) -> Seq<Seq<char>>
    decreases parts.len(),
{
    if parts.len() == 0 {
        seq![]
    } else {
        let before = part_urls(parts.drop_last());
        match parts.last() {
            PartModel::Text(_) => before,
            PartModel::ImageUrl(u) => before.push(u),
        }
    }
}

/// The texts, each with a space before it.
pub open spec fn spaced(parts: Seq<Seq<char>>) -> Seq<char>
    decreases parts.len(),
{
    if parts.len() == 0 {
        seq![]
    } else {
        spaced(parts.drop_last()) + " "@ + parts.last()
    }
}

/// A content as text: the texts of its pieces, with a blank line between them.
pub open spec fn content_text(c: ContentModel) -> Seq<char> {
    match c {
        ContentModel::Text(t) => t,
        ContentModel::Array(list) => text::joined(part_texts(list), "\n\n"@),
    }
}

/// `out` shows a content the way that it would be typed: a text as `multiline`
/// lays it out; else a `.file` command with the images as `resolve` shows them
/// and, behind ` -- `, the texts.
pub open spec fn typed_input<F: Fn(&str) -> String, G: Fn(&str) -> String>(
    c: ContentModel,
    resolve: F,
    multiline: G,
    out: Seq<char>,
) -> bool {
    match c {
        ContentModel::Text(t) => closure::gives(multiline, t, out),
        ContentModel::Array(list) => typed_files(list, resolve, multiline, out),
    }
}

/// `out` is the `.file` command for some pieces.
pub open spec fn typed_files<F: Fn(&str) -> String, G: Fn(&str) -> String>(
    list: Seq<PartModel>,
    resolve: F,
    multiline: G,
    out: Seq<char>,
) -> bool {
    exists|files: Seq<Seq<char>>, tail: Seq<char>| #[trigger]
        typed_parts(list, resolve, multiline, files, tail) && out == ".file "@ + text::joined(
            files,
            " "@,
        ) + tail
}

/// `files` are the images among some pieces as `resolve` shows them, and `tail` is
/// what follows them in a `.file` command.
pub open spec fn typed_parts<F: Fn(&str) -> String, G: Fn(&str) -> String>(
    list: Seq<PartModel>,
    resolve: F,
    multiline: G,
    files: Seq<Seq<char>>,
    tail: Seq<char>,
) -> bool {
    &&& resolved(part_urls(list), resolve, files)
    &&& typed_tail(spaced(part_texts(list)), multiline, tail)
}

/// `files` are the addresses as `resolve` shows them.
pub open spec fn resolved<F: Fn(&str) -> String>(
    urls: Seq<Seq<char>>,
    resolve: F,
    files: Seq<Seq<char>>,
) -> bool {
    &&& files.len() == urls.len()
    &&& forall|i: int| 0 <= i < urls.len() ==> closure::gives(resolve, urls[i], #[trigger] files[i])
}

/// `tail` is what follows the files of a `.file` command.
pub open spec fn typed_tail<G: Fn(&str) -> String>(
    words: Seq<char>,
    multiline: G,
    tail: Seq<char>,
) -> bool {
    if words.len() == 0 {
        tail.len() == 0
    } else {
        exists|shown: Seq<char>|
            #[trigger] closure::gives(multiline, words, shown) && tail == " -- "@ + shown
    }
}

/// `after` is `before` with a prompt merged into it by `replace`: into its text,
/// or into its first piece when that is a text; one without pieces gets one.
pub open spec fn prompt_merged<F: Fn(&str) -> String>(
    before: ContentModel,
    replace: F,
    after: ContentModel,
) -> bool {
    match before {
        ContentModel::Text(t) => after matches ContentModel::Text(new) && closure::gives(
            replace,
            t,
            new,
        ),
        ContentModel::Array(list) => if list.len() == 0 {
            &&& after matches ContentModel::Array(new)
            &&& new.len() == 1
            &&& new[0] matches PartModel::Text(t)
            &&& closure::gives(replace, seq![], t)
        } else {
            match list[0] {
                PartModel::Text(t) => {
                    &&& after matches ContentModel::Array(new)
                    &&& new.len() == list.len()
                    &&& new[0] matches PartModel::Text(u)
                    &&& closure::gives(replace, t, u)
                    &&& forall|i: int| 0 < i < list.len() ==> #[trigger] new[i] == list[i]
                },
                PartModel::ImageUrl(_) => after == before,
            }
        },
    }
}

impl MessageContent {
    /// Shows the content the way that it would be typed.
    pub fn render_input<F: Fn(&str) -> String, G: Fn(&str) -> String>(
        &self,
        resolve_url_fn: &F,
        _agent_info: &Option<(String, Vec<String>)>,
        multiline_text: &G,
    ) -> (r: String)
        requires
            closure::takes_all(*resolve_url_fn),
            closure::takes_all(*multiline_text),
        ensures
            typed_input(self@, *resolve_url_fn, *multiline_text, r@),
    {
        match self {
            MessageContent::Text(t) => closure::apply(multiline_text, t.as_str()),
            MessageContent::Array(list) => {
                let mut words = String::new();
                let mut files: Vec<String> = Vec::new();
                let mut i: usize = 0;
                let ghost parts = parts_of(list@);
                proof {
                    assert(parts.take(0) =~= seq![]);
                    assert(part_texts(parts.take(0)) =~= seq![]);
                    assert(words@ =~= seq![]);
                    assert(text::texts(files@) =~= seq![]);
                }
                while i < list.len()
                    invariant
                        i <= list@.len(),
                        parts == parts_of(list@),
                        closure::takes_all(*resolve_url_fn),
                        words@ == spaced(part_texts(parts.take(i as int))),
                        resolved(
                            part_urls(parts.take(i as int)),
                            *resolve_url_fn,
                            text::texts(files@),
                        ),
                    decreases list@.len() - i,
                {
                    proof {
                        assert(parts.take(i + 1).drop_last() =~= parts.take(i as int));
                        assert(parts.take(i + 1).last() == list@[i as int]@);
                    }
                    match &list[i] {
                        MessageContentPart::Text { text } => {
                            let ghost before = part_texts(parts.take(i as int));
                            proof {
                                assert(before.push(text@).drop_last() =~= before);
                            }
                            words.append(" ");
                            words.append(text.as_str());
                        },
                        MessageContentPart::ImageUrl { image_url } => {
                            let file = closure::apply(resolve_url_fn, image_url.url.as_str());
                            proof {
                                text::texts_push(files@, file);
                            }
                            files.push(file);
                        },
                    }
                    i += 1;
                }
                proof {
                    assert(parts.take(i as int) =~= parts);
                }
                let mut tail = String::new();
                if !words.as_str().is_empty() {
                    let shown = closure::apply(multiline_text, words.as_str());
                    tail.append(" -- ");
                    tail.append(shown.as_str());
                    proof {
                        assert(tail@ =~= " -- "@ + shown@);
                    }
                }
                let mut out = ".file ".to_owned();
                let listed = text::join(&files, " ");
                out.append(listed.as_str());
                out.append(tail.as_str());
                proof {
                    assert(typed_parts(
                        parts,
                        *resolve_url_fn,
                        *multiline_text,
                        text::texts(files@),
                        tail@,
                    ));
                    assert(out@ =~= ".file "@ + text::joined(text::texts(files@), " "@) + tail@);
                    assert(typed_files(parts, *resolve_url_fn, *multiline_text, out@));
                }
                out
            },
        }
    }

    /// Merges a prompt into the content.
    pub fn merge_prompt<F: Fn(&str) -> String>(&mut self, replace_fn: &F)
        requires
            closure::takes_all(*replace_fn),
        ensures
            prompt_merged(old(self)@, *replace_fn, final(self)@),
    {
        match self {
            MessageContent::Text(text) => {
                let new = closure::apply(replace_fn, text.as_str());
                *text = new;
            },
            MessageContent::Array(list) => {
                if list.is_empty() {
                    let new = closure::apply(replace_fn, "");
                    proof {
                        reveal_strlit("");
                        assert(""@ =~= Seq::<char>::empty());
                    }
                    list.push(MessageContentPart::Text { text: new });
                } else {
                    let ghost before = parts_of(list@);
                    let new = match &list[0] {
                        MessageContentPart::Text { text } => Some(
                            closure::apply(replace_fn, text.as_str()),
                        ),
                        MessageContentPart::ImageUrl { .. } => None,
                    };
                    if let Some(text) = new {
                        list[0] = MessageContentPart::Text { text };
                        proof {
                            assert forall|i: int| 0 < i < before.len() implies #[trigger] parts_of(
                                list@,
                            )[i] == before[i] by {}
                        }
                    }
                }
            },
        }
    }

    /// The content as text.
    pub fn to_text(&self) -> (r: String)
        ensures
            r@ == content_text(self@),
    {
        match self {
            MessageContent::Text(t) => t.clone(),
            MessageContent::Array(list) => {
                let mut parts: Vec<String> = Vec::new();
                let mut i: usize = 0;
                let ghost all = parts_of(list@);
                proof {
                    assert(all.take(0) =~= seq![]);
                    assert(text::texts(parts@) =~= seq![]);
                }
                while i < list.len()
                    invariant
                        i <= list@.len(),
                        all == parts_of(list@),
                        text::texts(parts@) == part_texts(all.take(i as int)),
                    decreases list@.len() - i,
                {
                    proof {
                        assert(all.take(i + 1).drop_last() =~= all.take(i as int));
                        assert(all.take(i + 1).last() == list@[i as int]@);
                    }
                    if let MessageContentPart::Text { text } = &list[i] {
                        proof {
                            text::texts_push(parts@, *text);
                        }
                        parts.push(text.clone());
                    }
                    i += 1;
                }
                proof {
                    assert(all.take(i as int) =~= all);
                }
                text::join(&parts, "\n\n")
            },
        }
    }
}

/// A chat message.
#[derive(Debug)]
pub struct Message {
    pub role: MessageRole,
    pub content: MessageContent,
    /// Present only on an assistant's message that calls functions.
    pub tool_calls: Option<Vec<ToolCall>>,
    /// Present only on a function's message: which call it answers.
    pub tool_call_id: Option<String>,
    /// Present only on a function's message: detail that is logged and shown,
    /// but never sent back to the model.
    pub trace: Option<Value>,
    /// Present only on an assistant's message: its reasoning, kept out of the
    /// content.
    pub reasoning_content: Option<String>,
}

/// What a chat message says.
pub struct MessageModel {
    pub role: MessageRole,
    pub content: ContentModel,
    pub tool_calls: Option<Seq<ToolCallModel>>,
    pub tool_call_id: Option<Seq<char>>,
    pub trace: Option<JsonModel>,
    pub reasoning_content: Option<Seq<char>>,
}

/// What each of several calls says.
pub open spec fn calls_of(calls: Seq<ToolCall>) -> Seq<ToolCallModel> {
    Seq::new(calls.len(), |i: int| calls[i]@)
}

impl View for Message {
    type V = MessageModel;

    open spec fn view(&self) -> MessageModel {
        MessageModel {
            role: self.role,
            content: self.content@,
            tool_calls: match self.tool_calls {
                Some(calls) => Some(calls_of(calls@)),
                None => None,
            },
            tool_call_id: text::optional(self.tool_call_id),
            trace: match self.trace {
                Some(v) => Some(json::json_of(v)),
                None => None,
            },
            reasoning_content: text::optional(self.reasoning_content),
        }
    }
}

/// What each of several messages says.
pub open spec fn messages_of(messages: Seq<Message>) -> Seq<MessageModel> {
    Seq::new(messages.len(), |i: int| messages[i]@)
}

/// A message with nothing beside its content.
pub open spec fn plain(role: MessageRole, content: ContentModel) -> MessageModel {
    MessageModel {
        role,
        content,
        tool_calls: None,
        tool_call_id: None,
        trace: None,
        reasoning_content: None,
    }
}

/// A message with a text and nothing beside it.
pub open spec fn says(role: MessageRole, t: Seq<char>) -> MessageModel {
    plain(role, ContentModel::Text(t))
}

/// What stands beside the content of a message stands where it belongs: calls of
/// functions and reasoning are the assistant's, and what pairs a result with its
/// call, or tells how it came about, is a result's.
pub open spec fn in_place(m: MessageModel) -> bool {
    &&& m.tool_calls is Some || m.reasoning_content is Some ==> m.role is Assistant
    &&& m.tool_call_id is Some || m.trace is Some ==> m.role is Tool
}

/// What stands beside the contents of messages stands where it belongs.
pub open spec fn all_in_place(v: Seq<MessageModel>) -> bool {
    forall|i: int| 0 <= i < v.len() ==> in_place(#[trigger] v[i])
}

impl Clone for Message {
    fn clone(&self) -> (r: Self)
        ensures
            r@ == self@,
    {
        let tool_calls = match &self.tool_calls {
            Some(calls) => {
                let copy = calls.clone();
                proof {
                    assert(copy@ =~= calls@);
                }
                Some(copy)
            },
            None => None,
        };
        Message {
            role: self.role,
            content: self.content.clone(),
            tool_calls,
            tool_call_id: self.tool_call_id.clone(),
            trace: self.trace.clone(),
            reasoning_content: self.reasoning_content.clone(),
        }
    }
}

impl Default for Message {
    fn default() -> (r: Self)
        ensures
            r@ == says(MessageRole::User, seq![]),
    {
        Message::new(MessageRole::default(), MessageContent::default())
    }
}

/// A copy of some messages.
pub fn clone_messages(messages: &Vec<Message>) -> (r: Vec<Message>)
    ensures
        messages_of(r@) == messages_of(messages@),
{
    let mut out: Vec<Message> = Vec::new();
    push_messages(&mut out, messages, 0);
    proof {
        assert(messages_of(out@) =~= messages_of(messages@));
    }
    out
}

/// Appends copies of the messages from an index on.
pub fn push_messages(out: &mut Vec<Message>, messages: &Vec<Message>, from: usize)
    requires
        from <= messages@.len(),
    ensures
        messages_of(final(out)@) == messages_of(old(out)@) + messages_of(messages@).skip(
            from as int,
        ),
{
    let mut i: usize = from;
    let ghost start = messages_of(out@);
    proof {
        assert(start + messages_of(messages@).subrange(from as int, from as int) =~= start);
    }
    while i < messages.len()
        invariant
            from <= i <= messages@.len(),
            messages_of(out@) == start + messages_of(messages@).subrange(from as int, i as int),
        decreases messages@.len() - i,
    {
        let copy = messages[i].clone();
        let ghost before = out@;
        out.push(copy);
        proof {
            assert(messages_of(out@) =~= messages_of(before).push(copy@));
            assert(messages_of(messages@).subrange(from as int, i + 1) =~= messages_of(
                messages@,
            ).subrange(from as int, i as int).push(messages@[i as int]@));
            assert((start + messages_of(messages@).subrange(from as int, i as int)).push(copy@)
                =~= start + messages_of(messages@).subrange(from as int, i + 1));
        }
        i += 1;
    }
    proof {
        assert(messages_of(messages@).subrange(from as int, i as int) =~= messages_of(
            messages@,
        ).skip(from as int));
    }
}

impl Message {
    pub fn new(role: MessageRole, content: MessageContent) -> (r: Self)
        ensures
            r@ == plain(role, content@),
            in_place(r@),
    {
        Message {
            role,
            content,
            tool_calls: None,
            tool_call_id: None,
            trace: None,
            reasoning_content: None,
        }
    }

    /// A message with a text.
    pub fn text(role: MessageRole, t: String) -> (r: Self)
        ensures
            r@ == says(role, t@),
    {
        Message::new(role, MessageContent::Text(t))
    }

    /// The assistant's message for one round of function calls.
    pub fn new_assistant_tool_calls(
        text: String,
        tool_calls: Vec<ToolCall>,
        reasoning_content: Option<String>,
    ) -> (r: Self)
        ensures
            r@ == (MessageModel {
                tool_calls: if tool_calls@.len() == 0 {
                    None
                } else {
                    Some(calls_of(tool_calls@))
                },
                reasoning_content: text::optional(reasoning_content),
                ..says(MessageRole::Assistant, text@)
            }),
            in_place(r@),
    {
        Message {
            role: MessageRole::Assistant,
            content: MessageContent::Text(text),
            tool_calls: if tool_calls.is_empty() {
                None
            } else {
                Some(tool_calls)
            },
            tool_call_id: None,
            trace: None,
            reasoning_content,
        }
    }

    /// The message with what a function gave back, as the answer to a call.
    pub fn new_tool_result(call_id: Option<String>, content: String, trace: Option<Value>) -> (r:
        Self)
        ensures
            r@ == (MessageModel {
                tool_call_id: text::optional(call_id),
                trace: match trace {
                    Some(v) => Some(json::json_of(v)),
                    None => None,
                },
                ..says(MessageRole::Tool, content@)
            }),
            in_place(r@),
    {
        Message {
            role: MessageRole::Tool,
            content: MessageContent::Text(content),
            tool_calls: None,
            tool_call_id: call_id,
            trace,
            reasoning_content: None,
        }
    }

    /// Puts the pieces of a system message before the message's own.
    pub fn merge_system(&mut self, system: MessageContent)
        ensures
            final(self)@ == with_system(old(self)@, system@),
    {
        let mut list = match system {
            MessageContent::Text(text) => {
                let mut one: Vec<MessageContentPart> = Vec::new();
                one.push(MessageContentPart::Text { text });
                one
            },
            MessageContent::Array(list) => list,
        };
        let ghost first = parts_of(list@);
        proof {
            assert(first =~= content_parts(system@));
        }
        match &self.content {
            MessageContent::Text(text) => {
                list.push(MessageContentPart::Text { text: text.clone() });
                proof {
                    assert(parts_of(list@) =~= first + content_parts(self.content@));
                }
            },
            MessageContent::Array(own) => {
                let mut i: usize = 0;
                while i < own.len()
                    invariant
                        i <= own@.len(),
                        parts_of(list@) == first + parts_of(own@).take(i as int),
                    decreases own@.len() - i,
                {
                    let ghost before = list@;
                    list.push(own[i].clone());
                    proof {
                        assert(parts_of(list@) =~= parts_of(before).push(own@[i as int]@));
                        assert(parts_of(own@).take(i + 1) =~= parts_of(own@).take(i as int).push(
                            own@[i as int]@,
                        ));
                    }
                    i += 1;
                }
                proof {
                    assert(parts_of(own@).take(i as int) =~= parts_of(own@));
                }
            },
        }
        self.content = MessageContent::Array(list);
    }
}

/// A message with the pieces of a system message before its own.
pub open spec fn with_system(m: MessageModel, system: ContentModel) -> MessageModel {
    MessageModel {
        content: ContentModel::Array(content_parts(system) + content_parts(m.content)),
        ..m
    }
}

/// The first message has the role of the system.
pub open spec fn starts_with_system(messages: Seq<MessageModel>) -> bool {
    messages.len() > 0 && messages[0].role is System
}

/// The messages with a text before the system message, which is put there where
/// none is.
pub open spec fn prefixed(messages: Seq<MessageModel>, prefix: Seq<char>) -> Seq<MessageModel> {
    if starts_with_system(messages) {
        messages.update(0, with_system(messages[0], ContentModel::Text(prefix)))
    } else {
        seq![says(MessageRole::System, prefix)] + messages
    }
}

/// The messages with the system message merged into the one after it.
pub open spec fn without_system(messages: Seq<MessageModel>) -> Seq<MessageModel> {
    if !starts_with_system(messages) {
        messages
    } else if messages.len() == 1 {
        seq![]
    } else {
        messages.skip(1).update(0, with_system(messages[1], messages[0].content))
    }
}

/// The messages in the form that a model takes.
pub open spec fn patched(messages: Seq<MessageModel>, model: ModelModel) -> Seq<MessageModel> {
    if messages.len() == 0 {
        messages
    } else {
        let all = match model.system_prompt_prefix {
            Some(prefix) => prefixed(messages, prefix),
            None => messages,
        };
        if model.no_system_message {
            without_system(all)
        } else {
            all
        }
    }
}

/// Brings messages into the form that a model takes.
pub fn patch_messages(messages: &mut Vec<Message>, model: &Model)
    ensures
        messages_of(final(messages)@) == patched(messages_of(old(messages)@), model@),
{
    if messages.is_empty() {
        return;
    }
    let ghost start = messages_of(messages@);
    if let Some(prefix) = &model.system_prompt_prefix {
        if messages[0].role.is_system() {
            let mut first = messages[0].clone();
            first.merge_system(MessageContent::Text(prefix.clone()));
            messages[0] = first;
        } else {
            messages.insert(0, Message::text(MessageRole::System, prefix.clone()));
        }
        proof {
            assert(messages_of(messages@) =~= prefixed(start, prefix@));
        }
    }
    let ghost all = messages_of(messages@);
    if model.no_system_message && messages[0].role.is_system() {
        let system_message = messages.remove(0);
        if !messages.is_empty() {
            let mut first = messages[0].clone();
            first.merge_system(system_message.content);
            messages[0] = first;
        }
        proof {
            assert(messages_of(messages@) =~= without_system(all));
        }
    }
}

/// Takes the system message out, if the first message is one, as text.
pub fn extract_system_message(messages: &mut Vec<Message>) -> (r: Option<String>)
    requires
        old(messages)@.len() > 0,
    ensures
        starts_with_system(messages_of(old(messages)@)) ==> {
            &&& r matches Some(t)
            &&& t@ == content_text(old(messages)@[0]@.content)
            &&& messages_of(final(messages)@) == messages_of(old(messages)@).skip(1)
        },
        !starts_with_system(messages_of(old(messages)@)) ==> r is None && final(messages)@ == old(
            messages,
        )@,
{
    if messages[0].role.is_system() {
        let ghost start = messages_of(messages@);
        let system_message = messages.remove(0);
        proof {
            assert(messages_of(messages@) =~= start.skip(1));
        }
        return Some(system_message.content.to_text());
    }
    None
}

/// A model that takes no system messages gets none in front, where no second one
/// stands behind the first.
pub proof fn patched_for_a_model_without_system_messages(
    messages: Seq<MessageModel>,
    model: ModelModel,
)
    requires
        model.no_system_message,
        starts_with_system(messages) && messages.len() > 1 ==> !(messages[1].role is System),
    ensures
        !starts_with_system(patched(messages, model)),
{
}

/// Patching puts the prefix first: with a prefix and system messages, the first
/// message is the system's, and its text starts with the prefix.
pub proof fn patched_starts_with_the_prefix(messages: Seq<MessageModel>, model: ModelModel)
    requires
        messages.len() > 0,
        !model.no_system_message,
        model.system_prompt_prefix is Some,
    ensures
        starts_with_system(patched(messages, model)),
        content_parts(patched(messages, model)[0].content)[0] == PartModel::Text(
            model.system_prompt_prefix->0,
        ),
{
}

/// Patching moves nothing to a message where it does not belong.
pub proof fn patching_keeps_messages_in_place(messages: Seq<MessageModel>, model: ModelModel)
    requires
        all_in_place(messages),
    ensures
        all_in_place(patched(messages, model)),
{
    if messages.len() > 0 {
        let all = match model.system_prompt_prefix {
            Some(prefix) => prefixed(messages, prefix),
            None => messages,
        };
        assert forall|i: int| 0 <= i < all.len() implies in_place(#[trigger] all[i]) by {
            if !starts_with_system(messages) && model.system_prompt_prefix is Some && i > 0 {
                assert(all[i] == messages[i - 1]);
            } else if i < messages.len() {
                assert(in_place(messages[i]));
            }
        }
        let without = without_system(all);
        assert forall|i: int| 0 <= i < without.len() implies in_place(#[trigger] without[i]) by {
            if starts_with_system(all) {
                assert(in_place(all[i + 1]));
            } else {
                assert(in_place(all[i]));
            }
        }
    }
}

// ---- What messages say ----

/// A plain message has its role and its content, and nothing stands beside them.
pub proof fn plain_messages_hold_only_their_content(role: MessageRole, t: Seq<char>, c: ContentModel)
    ensures
        ({
            let m = plain(role, c);
            m.role == role && m.content == c && m.tool_calls is None && m.tool_call_id is None
                && m.trace is None && m.reasoning_content is None
        }),
        says(role, t).role == role,
        says(role, t).content == ContentModel::Text(t),
        says(role, t).tool_calls is None,
        says(role, t).tool_call_id is None,
        says(role, t).trace is None,
        says(role, t).reasoning_content is None,
{
}

/// The texts of a content are those of its pieces that are texts, and its images
/// those of the others, each in their order.
pub proof fn pieces_are_told_apart(list: Seq<PartModel>)
    ensures
        part_texts(list) == list.filter(|p: PartModel| p is Text).map_values(
            |p: PartModel| p->Text_0,
        ),
        part_urls(list) == list.filter(|p: PartModel| p is ImageUrl).map_values(
            |p: PartModel| p->ImageUrl_0,
        ),
    decreases list.len(),
{
    reveal(Seq::filter);
    if list.len() > 0 {
        pieces_are_told_apart(list.drop_last());
    }
    assert(part_texts(list) =~= list.filter(|p: PartModel| p is Text).map_values(
        |p: PartModel| p->Text_0,
    ));
    assert(part_urls(list) =~= list.filter(|p: PartModel| p is ImageUrl).map_values(
        |p: PartModel| p->ImageUrl_0,
    ));
}

/// A text is its own text, and the text of several pieces is all of their texts, in
/// their order, with an empty line between two.
pub proof fn contents_read_as_their_texts(c: ContentModel, list: Seq<PartModel>)
    ensures
        c is Text ==> content_text(c) == c->Text_0,
        content_text(ContentModel::Array(list)) == text::joined(
            list.filter(|p: PartModel| p is Text).map_values(|p: PartModel| p->Text_0),
            seq!['\n', '\n'],
        ),
{
    pieces_are_told_apart(list);
    reveal_strlit("\n\n");
    assert("\n\n"@ =~= seq!['\n', '\n']);
}

/// Each of several words stands behind a space.
pub proof fn words_stand_behind_spaces(parts: Seq<Seq<char>>)
    ensures
        parts.len() == 0 ==> spaced(parts).len() == 0,
        parts.len() > 0 ==> spaced(parts) == seq![' '] + text::joined(parts, seq![' ']),
    decreases parts.len(),
{
    reveal_strlit(" ");
    assert(" "@ =~= seq![' ']);
    if parts.len() > 0 {
        let before = parts.drop_last();
        words_stand_behind_spaces(before);
        if before.len() == 0 {
            assert(spaced(before) + " "@ + parts.last() =~= seq![' '] + parts[0]);
        } else {
            assert(seq![' '] + text::joined(before, seq![' ']) + seq![' '] + parts.last() =~= seq![
                ' ',
            ] + (text::joined(before, seq![' ']) + seq![' '] + parts.last()));
        }
    }
}

/// A content with images is shown as a command with each image, as `resolve` shows
/// it, and behind two hyphens the texts, as `multiline` lays them out; without a
/// text there are no hyphens.
pub proof fn images_are_shown_as_files<F: Fn(&str) -> String, G: Fn(&str) -> String>(
    list: Seq<PartModel>,
    resolve: F,
    multiline: G,
    out: Seq<char>,
) -> (files: Seq<Seq<char>>)
    requires
        typed_input(ContentModel::Array(list), resolve, multiline, out),
    ensures
        ({
            let urls = list.filter(|p: PartModel| p is ImageUrl);
            let texts = list.filter(|p: PartModel| p is Text).map_values(|p: PartModel| p->Text_0);
            let command = ".file "@ + text::joined(files, seq![' ']);
            &&& files.len() == urls.len()
            &&& forall|i: int|
                0 <= i < files.len() ==> closure::gives(
                    resolve,
                    urls[i]->ImageUrl_0,
                    #[trigger] files[i],
                )
            &&& texts.len() == 0 ==> out == command
            &&& texts.len() > 0 ==> exists|shown: Seq<char>|
                #[trigger] closure::gives(
                    multiline,
                    seq![' '] + text::joined(texts, seq![' ']),
                    shown,
                ) && out == command + " -- "@ + shown
        }),
{
    let (files, tail) = choose|files: Seq<Seq<char>>, tail: Seq<char>| #[trigger]
        typed_parts(list, resolve, multiline, files, tail) && out == ".file "@ + text::joined(
            files,
            " "@,
        ) + tail;
    pieces_are_told_apart(list);
    let urls = list.filter(|p: PartModel| p is ImageUrl);
    let texts = part_texts(list);
    reveal_strlit(" ");
    assert(" "@ =~= seq![' ']);
    words_stand_behind_spaces(texts);
    let command = ".file "@ + text::joined(files, seq![' ']);
    assert forall|i: int| 0 <= i < files.len() implies closure::gives(
        resolve,
        urls[i]->ImageUrl_0,
        #[trigger] files[i],
    ) by {
        assert(part_urls(list)[i] == urls[i]->ImageUrl_0);
    }
    if texts.len() == 0 {
        assert(command + tail =~= command);
    } else {
        let words = spaced(texts);
        assert(words.len() > 0);
        let shown = choose|shown: Seq<char>|
            #[trigger] closure::gives(multiline, words, shown) && tail == " -- "@ + shown;
        assert(command + (" -- "@ + shown) =~= command + " -- "@ + shown);
    }
    files
}

/// The pieces of a content.
pub open spec fn pieces_in(c: ContentModel) -> Seq<PartModel> {
    if c is Text {
        seq![PartModel::Text(c->Text_0)]
    } else {
        c->Array_0
    }
}

/// A model that takes system messages and has no text of its own for them is sent
/// the messages as they are.
pub proof fn unpatched_messages_stay(messages: Seq<MessageModel>, model: ModelModel)
    requires
        !model.no_system_message,
        model.system_prompt_prefix is None,
    ensures
        patched(messages, model) == messages,
{
}

/// The text that a model has for system messages stands before what the system
/// message says; where there is no system message it is one. All other messages
/// stay as they are.
pub proof fn prefix_stands_before_the_system_text(
    messages: Seq<MessageModel>,
    model: ModelModel,
    prefix: Seq<char>,
)
    requires
        messages.len() > 0,
        !model.no_system_message,
        model.system_prompt_prefix == Some(prefix),
    ensures
        !(messages[0].role is System) ==> patched(messages, model) == seq![
            says(MessageRole::System, prefix),
        ] + messages,
        messages[0].role is System ==> {
            let out = patched(messages, model);
            &&& out.len() == messages.len()
            &&& out.skip(1) == messages.skip(1)
            &&& pieces_in(out[0].content) == seq![PartModel::Text(prefix)] + pieces_in(
                messages[0].content,
            )
            &&& out[0] == (MessageModel { content: out[0].content, ..messages[0] })
        },
{
    if messages[0].role is System {
        assert(patched(messages, model).skip(1) =~= messages.skip(1));
    }
}

/// For a model that takes no system message, what the system message says, behind
/// the text that the model has for it, stands before what the message after it
/// says. No piece is lost, and all other messages stay as they are.
pub proof fn system_text_moves_to_the_next_message(messages: Seq<MessageModel>, model: ModelModel)
    requires
        model.no_system_message,
        messages.len() > 0,
    ensures
        ({
            let out = patched(messages, model);
            let prefix = if model.system_prompt_prefix is Some {
                seq![PartModel::Text(model.system_prompt_prefix->0)]
            } else {
                seq![]
            };
            if messages[0].role is System {
                if messages.len() == 1 {
                    out.len() == 0
                } else {
                    &&& out.len() == messages.len() - 1
                    &&& out.skip(1) == messages.skip(2)
                    &&& pieces_in(out[0].content) == prefix + pieces_in(messages[0].content)
                        + pieces_in(messages[1].content)
                    &&& out[0] == (MessageModel { content: out[0].content, ..messages[1] })
                }
            } else if model.system_prompt_prefix is None {
                out == messages
            } else {
                &&& out.len() == messages.len()
                &&& out.skip(1) == messages.skip(1)
                &&& pieces_in(out[0].content) == prefix + pieces_in(messages[0].content)
                &&& out[0] == (MessageModel { content: out[0].content, ..messages[0] })
            }
        }),
{
    let out = patched(messages, model);
    let prefix = if model.system_prompt_prefix is Some {
        seq![PartModel::Text(model.system_prompt_prefix->0)]
    } else {
        seq![]
    };
    if messages[0].role is System {
        if messages.len() > 1 {
            assert(out.skip(1) =~= messages.skip(2));
            assert(pieces_in(out[0].content) =~= prefix + pieces_in(messages[0].content)
                + pieces_in(messages[1].content));
        }
    } else if model.system_prompt_prefix is Some {
        assert(out.skip(1) =~= messages.skip(1));
        assert(pieces_in(out[0].content) =~= prefix + pieces_in(messages[0].content));
    }
}

/// A system text that is merged into a message stands before what the message says;
/// no piece is lost, and nothing beside the content changes.
pub proof fn merged_system_text_comes_first(m: MessageModel, system: ContentModel)
    ensures
        pieces_in(with_system(m, system).content) == pieces_in(system) + pieces_in(m.content),
        with_system(m, system) == (MessageModel {
            content: with_system(m, system).content,
            ..m
        }),
{
    assert(pieces_in(with_system(m, system).content) =~= pieces_in(system) + pieces_in(m.content));
}

/// A prompt is merged into the text that a content begins with, and into nothing
/// else; a content without any piece becomes the prompt alone.
pub proof fn prompt_is_merged_into_the_first_text<F: Fn(&str) -> String>(
    before: ContentModel,
    replace: F,
    after: ContentModel,
)
    requires
        prompt_merged(before, replace, after),
    ensures
        before is Text ==> after is Text && closure::gives(
            replace,
            before->Text_0,
            after->Text_0,
        ),
        before is Array ==> after is Array,
        before is Array && before->Array_0.len() == 0 ==> after->Array_0.len() == 1
            && after->Array_0[0] is Text && closure::gives(
            replace,
            seq![],
            after->Array_0[0]->Text_0,
        ),
        before is Array && before->Array_0.len() > 0 ==> after->Array_0.skip(1)
            == before->Array_0.skip(1),
        before is Array && before->Array_0.len() > 0 && before->Array_0[0] is ImageUrl ==> after
            == before,
        before is Array && before->Array_0.len() > 0 && before->Array_0[0] is Text
            ==> after->Array_0[0] is Text && closure::gives(
            replace,
            before->Array_0[0]->Text_0,
            after->Array_0[0]->Text_0,
        ),
{
    if before is Array && before->Array_0.len() > 0 {
        assert(after->Array_0.skip(1) =~= before->Array_0.skip(1));
    }
}

} // verus!
