//! What a user hands in for a completion.

use vstd::prelude::*;

use crate::message;
use crate::message::{ContentModel, Message, MessageContent, MessageModel};
use crate::role::{Role, RoleModel};
use crate::table;
use crate::table::Table;
use crate::text;

verus! {

/// What a user hands in.
#[derive(Debug)]
pub struct Input {
    /// The text as it was typed.
    pub raw: String,
    /// The text for display.
    pub rendered: String,
    /// What goes into the message.
    pub content: MessageContent,
    /// There is neither text nor anything attached.
    pub empty: bool,
    /// A partial reply that is to be continued.
    pub continue_output: Option<String>,
    /// The last reply is to be given anew.
    pub regenerate: bool,
    /// The data of the attachments, and where each came from.
    pub data_urls: Table<String>,
    /// The messages of the function calls so far.
    pub pending_messages: Vec<Message>,
    /// The role that answers.
    pub role: Role,
    /// The reply is shown as it comes.
    pub stream: bool,
}

/// What a user hands in.
pub struct InputModel {
    pub raw: Seq<char>,
    pub rendered: Seq<char>,
    pub content: ContentModel,
    pub empty: bool,
    pub continue_output: Option<Seq<char>>,
    pub regenerate: bool,
    pub data_urls: Seq<(Seq<char>, Seq<char>)>,
    pub pending_messages: Seq<MessageModel>,
    pub role: RoleModel,
    pub stream: bool,
}

impl View for Input {
    type V = InputModel;

    open spec fn view(&self) -> InputModel {
        InputModel {
            raw: self.raw@,
            rendered: self.rendered@,
            content: self.content@,
            empty: self.empty,
            continue_output: text::optional(self.continue_output),
            regenerate: self.regenerate,
            data_urls: table::texts_under(self.data_urls@),
            pending_messages: message::messages_of(self.pending_messages@),
            role: self.role@,
            stream: self.stream,
        }
    }
}

/// A text, handed in to a role.
pub open spec fn plain_input(t: Seq<char>, role: RoleModel) -> InputModel {
    InputModel {
        raw: t,
        rendered: t,
        content: ContentModel::Text(t),
        empty: t.len() == 0,
        continue_output: None,
        regenerate: false,
        data_urls: seq![],
        pending_messages: seq![],
        role,
        stream: false,
    }
}

impl Input {
    /// A text, handed in to a role.
    pub fn from_str(text: &str, role: Role) -> (r: Self)
        ensures
            r@ == plain_input(text@, role@),
    {
        let r = Input {
            raw: text.to_owned(),
            rendered: text.to_owned(),
            content: MessageContent::Text(text.to_owned()),
            empty: text.is_empty(),
            continue_output: None,
            regenerate: false,
            data_urls: Table::new(),
            pending_messages: Vec::new(),
            role,
            stream: false,
        };
        proof {
            assert(r@.data_urls =~= seq![]);
            assert(r@.pending_messages =~= seq![]);
        }
        r
    }

    pub fn raw(&self) -> (r: &str)
        ensures
            r@ == self@.raw,
    {
        self.raw.as_str()
    }

    pub fn render(&self) -> (r: &str)
        ensures
            r@ == self@.rendered,
    {
        self.rendered.as_str()
    }

    pub fn message_content(&self) -> (r: MessageContent)
        ensures
            r@ == self@.content,
    {
        self.content.clone()
    }

    pub fn is_empty(&self) -> (r: bool)
        ensures
            r == self@.empty,
    {
        self.empty
    }

    pub fn continue_output(&self) -> (r: Option<&str>)
        ensures
            match r {
                Some(t) => self@.continue_output == Some(t@),
                None => self@.continue_output is None,
            },
    {
        match &self.continue_output {
            Some(t) => Some(t.as_str()),
            None => None,
        }
    }

    pub fn regenerate(&self) -> (r: bool)
        ensures
            r == self@.regenerate,
    {
        self.regenerate
    }

    pub fn stream(&self) -> (r: bool)
        ensures
            r == self@.stream,
    {
        self.stream
    }

    pub fn role(&self) -> (r: &Role)
        ensures
            r@ == self@.role,
    {
        &self.role
    }
}

/// An input that is made of a text is that text, raw, shown and sent, for its role;
/// nothing goes with it.
pub proof fn text_is_the_input(t: Seq<char>, role: RoleModel)
    ensures
        ({
            let i = plain_input(t, role);
            &&& i.raw == t && i.rendered == t && i.content == ContentModel::Text(t)
            &&& i.empty <==> t.len() == 0
            &&& i.role == role
            &&& i.continue_output is None && !i.regenerate && !i.stream
            &&& i.data_urls.len() == 0 && i.pending_messages.len() == 0
        }),
{
}

} // verus!
