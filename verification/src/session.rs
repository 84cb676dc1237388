//! Sessions: conversations that are kept.

use vstd::prelude::*;

use crate::agent;
use crate::agent::AgentVariables;
use crate::closure;
use crate::error::{Error, ErrorModel};
use crate::input::{Input, InputModel};
use crate::message;
use crate::message::{ContentModel, Message, MessageContent, MessageModel, MessageRole};
use crate::model;
use crate::model::{Model, ModelModel, Rag, Real};
use crate::prompt;
use crate::role;
use crate::role::{Role, RoleLike, RoleModel};
use crate::settings;
use crate::settings::{RoleSettings, SettingsModel};
use crate::table;
use crate::table::Table;
use crate::text;

verus! {

/// The name of a session that was not given one.
pub const TEMP_SESSION_NAME: &'static str = "temp";

/// How a session gets a name by itself.
#[derive(Debug)]
pub struct AutoName {
    /// A name is being made.
    pub naming: bool,
    /// What the name is to be made from.
    pub chat_history: Option<String>,
    pub name: Option<String>,
}

/// How a session gets a name by itself.
pub struct AutoNameModel {
    pub naming: bool,
    pub chat_history: Option<Seq<char>>,
    pub name: Option<Seq<char>>,
}

impl View for AutoName {
    type V = AutoNameModel;

    open spec fn view(&self) -> AutoNameModel {
        AutoNameModel {
            naming: self.naming,
            chat_history: text::optional(self.chat_history),
            name: text::optional(self.name),
        }
    }
}

impl Clone for AutoName {
    fn clone(&self) -> (r: Self)
        ensures
            r == *self,
    {
        AutoName {
            naming: self.naming,
            chat_history: self.chat_history.clone(),
            name: self.name.clone(),
        }
    }
}

/// A session that has a name.
pub open spec fn autonamed(name: Seq<char>) -> AutoNameModel {
    AutoNameModel { naming: false, chat_history: None, name: Some(name) }
}

/// A session that is to get a name.
pub open spec fn to_be_named(chat_history: Seq<char>) -> AutoNameModel {
    AutoNameModel { naming: false, chat_history: Some(chat_history), name: None }
}

impl AutoName {
    pub fn new(name: String) -> (r: Self)
        ensures
            r@ == autonamed(name@),
    {
        AutoName { naming: false, chat_history: None, name: Some(name) }
    }

    pub fn new_from_chat_history(chat_history: String) -> (r: Self)
        ensures
            r@ == to_be_named(chat_history@),
    {
        AutoName { naming: false, chat_history: Some(chat_history), name: None }
    }

    /// Whether a name is still to be made.
    pub fn need(&self) -> (r: bool)
        ensures
            r == needs_name(self@),
    {
        !self.naming && self.chat_history.is_some() && self.name.is_none()
    }
}

/// A name is still to be made.
pub open spec fn needs_name(a: AutoNameModel) -> bool {
    !a.naming && a.chat_history is Some && a.name is None
}

/// A conversation that is kept.
#[derive(Debug)]
pub struct Session {
    pub model_id: String,
    pub settings: RoleSettings,
    pub save_session: Option<bool>,
    pub compress_threshold: Option<usize>,
    pub role_name: Option<String>,
    pub agent_variables: AgentVariables,
    pub agent_instructions: String,
    /// The messages that a summary stands for.
    pub compressed_messages: Vec<Message>,
    pub messages: Vec<Message>,
    pub data_urls: Table<String>,
    pub model: Model,
    pub rag: Option<Rag>,
    pub role_prompt: String,
    pub name: String,
    pub path: Option<String>,
    /// There is something that was not saved.
    pub dirty: bool,
    pub save_session_this_time: bool,
    pub compressing: bool,
    pub autoname: Option<AutoName>,
    pub tokens: usize,
}

/// A conversation that is kept.
pub struct SessionModel {
    pub model_id: Seq<char>,
    pub settings: SettingsModel,
    pub save_session: Option<bool>,
    pub compress_threshold: Option<usize>,
    pub role_name: Option<Seq<char>>,
    pub agent_variables: Seq<(Seq<char>, Seq<char>)>,
    pub agent_instructions: Seq<char>,
    pub compressed_messages: Seq<MessageModel>,
    pub messages: Seq<MessageModel>,
    pub data_urls: Seq<(Seq<char>, Seq<char>)>,
    pub model: ModelModel,
    pub rag: Option<Rag>,
    pub role_prompt: Seq<char>,
    pub name: Seq<char>,
    pub path: Option<Seq<char>>,
    pub dirty: bool,
    pub save_session_this_time: bool,
    pub compressing: bool,
    pub autoname: Option<AutoNameModel>,
    pub tokens: usize,
}

impl View for Session {
    type V = SessionModel;

    open spec fn view(&self) -> SessionModel {
        SessionModel {
            model_id: self.model_id@,
            settings: self.settings@,
            save_session: self.save_session,
            compress_threshold: self.compress_threshold,
            role_name: text::optional(self.role_name),
            agent_variables: agent::variables_in(self.agent_variables),
            agent_instructions: self.agent_instructions@,
            compressed_messages: message::messages_of(self.compressed_messages@),
            messages: message::messages_of(self.messages@),
            data_urls: table::texts_under(self.data_urls@),
            model: self.model@,
            rag: self.rag,
            role_prompt: self.role_prompt@,
            name: self.name@,
            path: text::optional(self.path),
            dirty: self.dirty,
            save_session_this_time: self.save_session_this_time,
            compressing: self.compressing,
            autoname: match self.autoname {
                Some(a) => Some(a@),
                None => None,
            },
            tokens: self.tokens,
        }
    }
}

/// A session in which nothing was said.
pub open spec fn blank_session() -> SessionModel {
    SessionModel {
        model_id: seq![],
        settings: settings::open_settings(),
        save_session: None,
        compress_threshold: None,
        role_name: None,
        agent_variables: seq![],
        agent_instructions: seq![],
        compressed_messages: seq![],
        messages: seq![],
        data_urls: seq![],
        model: model::no_model(),
        rag: None,
        role_prompt: seq![],
        name: seq![],
        path: None,
        dirty: false,
        save_session_this_time: false,
        compressing: false,
        autoname: None,
        tokens: 0,
    }
}

impl Default for Session {
    fn default() -> (r: Self)
        ensures
            r@ == blank_session(),
    {
        let r = Session {
            model_id: String::new(),
            settings: RoleSettings::default(),
            save_session: None,
            compress_threshold: None,
            role_name: None,
            agent_variables: agent::no_variables(),
            agent_instructions: String::new(),
            compressed_messages: Vec::new(),
            messages: Vec::new(),
            data_urls: Table::new(),
            model: Model::default(),
            rag: None,
            role_prompt: String::new(),
            name: String::new(),
            path: None,
            dirty: false,
            save_session_this_time: false,
            compressing: false,
            autoname: None,
            tokens: 0,
        };
        proof {
            assert(Seq::<char>::empty() =~= seq![]);
            assert(r@.compressed_messages =~= seq![]);
            assert(r@.messages =~= seq![]);
            assert(r@.data_urls =~= seq![]);
        }
        r
    }
}

impl Clone for Session {
    fn clone(&self) -> (r: Self)
        ensures
            r@ == self@,
    {
        Session {
            model_id: self.model_id.clone(),
            settings: self.settings.clone(),
            save_session: self.save_session,
            compress_threshold: self.compress_threshold,
            role_name: self.role_name.clone(),
            agent_variables: agent::clone_variables(&self.agent_variables),
            agent_instructions: self.agent_instructions.clone(),
            compressed_messages: message::clone_messages(&self.compressed_messages),
            messages: message::clone_messages(&self.messages),
            data_urls: self.data_urls.copy(),
            model: self.model.clone(),
            rag: self.rag,
            role_prompt: self.role_prompt.clone(),
            name: self.name.clone(),
            path: self.path.clone(),
            dirty: self.dirty,
            save_session_this_time: self.save_session_this_time,
            compressing: self.compressing,
            autoname: self.autoname.clone(),
            tokens: self.tokens,
        }
    }
}

/// The tokens of a session are those that `count` counts in its messages.
pub open spec fn counted<C: Fn(&Model, &Vec<Message>) -> usize>(s: SessionModel, count: C) -> bool {
    closure::counts(count, s.model, s.messages, s.tokens)
}

/// `new` is `wanted`, with the tokens counted anew.
pub open spec fn recounted<C: Fn(&Model, &Vec<Message>) -> usize>(
    new: SessionModel,
    wanted: SessionModel,
    count: C,
) -> bool {
    new == (SessionModel { tokens: new.tokens, ..wanted }) && counted(new, count)
}

/// The text, unless it is empty.
pub open spec fn if_any(t: Seq<char>) -> Option<Seq<char>> {
    if t.len() == 0 {
        None
    } else {
        Some(t)
    }
}

/// The text, unless it is empty.
fn convert_option_string(t: &str) -> (r: Option<String>)
    ensures
        text::optional(r) == if_any(t@),
{
    if t.is_empty() {
        None
    } else {
        Some(t.to_owned())
    }
}

/// A session with the model, the settings and the prompt of a role.
pub open spec fn with_role(s: SessionModel, role: RoleModel) -> SessionModel {
    SessionModel {
        model_id: role.model.id,
        settings: SettingsModel { model_id: s.settings.model_id, ..role.settings },
        model: role.model,
        rag: role.rag,
        role_name: if_any(role.name),
        role_prompt: role.prompt,
        dirty: true,
        ..s
    }
}

impl Session {
    /// A session with a role, in which nothing was said.
    pub fn new<C: Fn(&Model, &Vec<Message>) -> usize>(
        role: Role,
        save_session: Option<bool>,
        name: &str,
        count: &C,
    ) -> (r: Self)
        requires
            closure::counts_all(*count),
        ensures
            recounted(
                r@,
                SessionModel {
                    name: name@,
                    save_session,
                    dirty: false,
                    ..with_role(blank_session(), role@)
                },
                *count,
            ),
    {
        let mut session = Session::default();
        session.name = name.to_owned();
        session.save_session = save_session;
        session.set_role(role, count);
        session.dirty = false;
        session
    }

    /// Whether nothing was said.
    pub fn is_empty(&self) -> (r: bool)
        ensures
            r == nothing_said(self@),
    {
        self.messages.is_empty() && self.compressed_messages.is_empty()
    }

    pub fn name(&self) -> (r: &str)
        ensures
            r@ == self@.name,
    {
        self.name.as_str()
    }

    pub fn role_name(&self) -> (r: Option<&str>)
        ensures
            prompt::optional_text(r) == self@.role_name,
    {
        match &self.role_name {
            Some(name) => Some(name.as_str()),
            None => None,
        }
    }

    pub fn dirty(&self) -> (r: bool)
        ensures
            r == self@.dirty,
    {
        self.dirty
    }

    pub fn save_session(&self) -> (r: Option<bool>)
        ensures
            r == self@.save_session,
    {
        self.save_session
    }

    pub fn tokens(&self) -> (r: usize)
        ensures
            r == self@.tokens,
    {
        self.tokens
    }

    /// Counts the tokens of the messages.
    pub fn update_tokens<C: Fn(&Model, &Vec<Message>) -> usize>(&mut self, count: &C)
        requires
            closure::counts_all(*count),
        ensures
            recounted(final(self)@, old(self)@, *count),
    {
        self.tokens = closure::count_tokens(count, &self.model, &self.messages);
    }

    /// How many messages are the user's.
    pub fn user_messages_len(&self) -> (r: usize)
        ensures
            r == users_messages(self@.messages),
    {
        let ghost all = self@.messages;
        let mut n: usize = 0;
        let mut i: usize = 0;
        proof {
            assert(all.take(0) =~= seq![]);
        }
        while i < self.messages.len()
            invariant
                i <= self.messages@.len(),
                self.messages@.len() == self.messages.len(),
                all == message::messages_of(self.messages@),
                n <= i,
                n == users_messages(all.take(i as int)),
            decreases self.messages@.len() - i,
        {
            proof {
                assert(all.take(i + 1).drop_last() =~= all.take(i as int));
                assert(all.take(i + 1).last() == self.messages@[i as int]@);
            }
            if self.messages[i].role.is_user() {
                n += 1;
            }
            i += 1;
        }
        proof {
            assert(all.take(i as int) =~= all);
        }
        n
    }

    /// Whether a message is the user's.
    pub fn has_user_messages(&self) -> (r: bool)
        ensures
            r == exists|i: int|
                0 <= i < self@.messages.len() && (#[trigger] self@.messages[i]).role is User,
    {
        let mut i: usize = 0;
        while i < self.messages.len()
            invariant
                i <= self.messages@.len(),
                forall|k: int| 0 <= k < i ==> !((#[trigger] self@.messages[k]).role is User),
            decreases self.messages@.len() - i,
        {
            proof {
                assert(self@.messages[i as int] == self.messages@[i as int]@);
            }
            if self.messages[i].role.is_user() {
                return true;
            }
            i += 1;
        }
        false
    }

    /// Takes over the model, the settings and the prompt of a role.
    pub fn set_role<C: Fn(&Model, &Vec<Message>) -> usize>(&mut self, role: Role, count: &C)
        requires
            closure::counts_all(*count),
        ensures
            recounted(final(self)@, with_role(old(self)@, role@), *count),
    {
        self.model_id = role.model.id();
        self.settings.temperature = role.settings.temperature.clone();
        self.settings.top_p = role.settings.top_p.clone();
        self.settings.use_tools = role.settings.use_tools.clone();
        self.settings.use_agents = role.settings.use_agents.clone();
        self.settings.max_spawn_depth = role.settings.max_spawn_depth;
        self.settings.max_subagent_turns = role.settings.max_subagent_turns;
        self.model = role.model.clone();
        self.rag = role.rag;
        self.role_name = convert_option_string(role.name());
        self.role_prompt = role.prompt.clone();
        self.dirty = true;
        self.update_tokens(count);
    }

    /// Forgets the role.
    pub fn clear_role(&mut self)
        ensures
            final(self)@ == (SessionModel {
                role_name: None,
                role_prompt: seq![],
                rag: None,
                ..old(self)@
            }),
    {
        self.role_name = None;
        self.role_prompt = String::new();
        self.rag = None;
        proof {
            assert(self.role_prompt@ =~= seq![]);
        }
    }

    /// Takes over the instructions and the variables of an agent.
    pub fn sync_agent<F: Fn(&str) -> String>(&mut self, agent: &Role, interpolate: &F)
        requires
            closure::takes_all(*interpolate),
        ensures
            exists|p: Seq<char>| #[trigger]
                closure::gives(
                    *interpolate,
                    role::substituted(
                        role::instructions(agent@),
                        role::current_variables(agent@),
                    ),
                    p,
                ) && final(self)@ == (SessionModel {
                    role_name: None,
                    role_prompt: p,
                    agent_variables: role::current_variables(agent@),
                    agent_instructions: p,
                    rag: agent@.rag,
                    ..old(self)@
                }),
    {
        self.role_name = None;
        self.role_prompt = agent.interpolated_instructions(interpolate);
        self.agent_variables = agent::clone_variables(agent.variables());
        self.agent_instructions = self.role_prompt.clone();
        self.rag = agent.rag;
    }

    pub fn agent_variables(&self) -> (r: &AgentVariables)
        ensures
            agent::variables_in(*r) == self@.agent_variables,
    {
        &self.agent_variables
    }

    pub fn agent_instructions(&self) -> (r: &str)
        ensures
            r@ == self@.agent_instructions,
    {
        self.agent_instructions.as_str()
    }

    /// The messages that are kept, without those that a summary stands for.
    pub fn messages(&self) -> (r: &[Message])
        ensures
            message::messages_of(r@) == self@.messages,
    {
        self.messages.as_slice()
    }

    pub fn set_save_session(&mut self, value: Option<bool>)
        ensures
            final(self)@ == (SessionModel {
                save_session: value,
                dirty: old(self)@.dirty || old(self)@.save_session != value,
                ..old(self)@
            }),
    {
        let same = match (self.save_session, value) {
            (Some(a), Some(b)) => a == b,
            (None, None) => true,
            _ => false,
        };
        if !same {
            self.save_session = value;
            self.dirty = true;
        }
    }

    pub fn set_save_session_this_time(&mut self)
        ensures
            final(self)@ == (SessionModel { save_session_this_time: true, ..old(self)@ }),
    {
        self.save_session_this_time = true;
    }

    pub fn set_compress_threshold(&mut self, value: Option<usize>)
        ensures
            final(self)@ == (SessionModel {
                compress_threshold: value,
                dirty: old(self)@.dirty || old(self)@.compress_threshold != value,
                ..old(self)@
            }),
    {
        if !same_count(self.compress_threshold, value) {
            self.compress_threshold = value;
            self.dirty = true;
        }
    }

    /// Whether the messages are to be summed up: their tokens are over the
    /// threshold, which may be switched off by 0, and that is not going on.
    pub fn need_compress(&self, global_compress_threshold: usize) -> (r: bool)
        ensures
            r == to_be_compressed(self@, global_compress_threshold),
    {
        if self.compressing {
            return false;
        }
        let threshold: usize = match self.compress_threshold {
            Some(n) => n,
            None => global_compress_threshold,
        };
        if threshold < 1 {
            return false;
        }
        self.tokens > threshold
    }

    pub fn compressing(&self) -> (r: bool)
        ensures
            r == self@.compressing,
    {
        self.compressing
    }

    pub fn set_compressing(&mut self, compressing: bool)
        ensures
            final(self)@ == (SessionModel { compressing, ..old(self)@ }),
    {
        self.compressing = compressing;
    }

    /// Puts a summary in place of the messages, behind the words of the system
    /// message that came first.
    pub fn compress<C: Fn(&Model, &Vec<Message>) -> usize>(&mut self, prompt: String, count: &C)
        requires
            closure::counts_all(*count),
        ensures
            recounted(final(self)@, compressed(old(self)@, prompt@), *count),
    {
        let ghost before = self@;
        let mut summary = prompt;
        if !self.messages.is_empty() && self.messages[0].role.is_system() {
            let content = self.messages[0].content.to_text();
            if !content.as_str().is_empty() {
                let mut t = content;
                t.append("\n\n");
                t.append(summary.as_str());
                summary = t;
            }
        }
        proof {
            assert(summary@ == summary_text(before.messages, prompt@));
        }
        let ghost kept = self.compressed_messages@;
        let ghost moved = self.messages@;
        self.compressed_messages.append(&mut self.messages);
        proof {
            assert(message::messages_of(self.compressed_messages@) =~= message::messages_of(kept)
                + message::messages_of(moved));
        }
        self.messages = Vec::new();
        role::push_message(&mut self.messages, Message::text(MessageRole::System, summary));
        proof {
            assert(self@.messages =~= seq![message::says(MessageRole::System, summary@)]);
        }
        self.dirty = true;
        self.update_tokens(count);
    }
}

/// Nothing was said in a session.
pub open spec fn nothing_said(s: SessionModel) -> bool {
    s.messages.len() == 0 && s.compressed_messages.len() == 0
}

/// How many messages are the user's.
pub open spec fn users_messages(v: Seq<MessageModel>) -> nat
    decreases v.len(),
{
    if v.len() == 0 {
        0
    } else {
        users_messages(v.drop_last()) + if v.last().role is User {
            1nat
        } else {
            0nat
        }
    }
}

/// Whether two settings are the same.
fn same_count(a: Option<usize>, b: Option<usize>) -> (r: bool)
    ensures
        r == (a == b),
{
    match (a, b) {
        (Some(a), Some(b)) => a == b,
        (None, None) => true,
        _ => false,
    }
}

/// Whether two settings are the same.
fn same_words(a: &Option<String>, b: &Option<String>) -> (r: bool)
    ensures
        r == (text::optional(*a) == text::optional(*b)),
{
    match (a, b) {
        (Some(a), Some(b)) => text::same_text(a.as_str(), b.as_str()),
        (None, None) => true,
        _ => false,
    }
}

/// The messages of a session are to be summed up.
pub open spec fn to_be_compressed(s: SessionModel, global: usize) -> bool {
    let threshold = match s.compress_threshold {
        Some(n) => n,
        None => global,
    };
    !s.compressing && threshold >= 1 && s.tokens > threshold
}

/// A summary of messages, behind the words of the system message that came first.
pub open spec fn summary_text(messages: Seq<MessageModel>, prompt: Seq<char>) -> Seq<char> {
    if message::starts_with_system(messages) && message::content_text(messages[0].content).len()
        > 0 {
        message::content_text(messages[0].content) + "\n\n"@ + prompt
    } else {
        prompt
    }
}

/// A session with a summary in place of its messages.
pub open spec fn compressed(s: SessionModel, prompt: Seq<char>) -> SessionModel {
    SessionModel {
        compressed_messages: s.compressed_messages + s.messages,
        messages: seq![message::says(MessageRole::System, summary_text(s.messages, prompt))],
        dirty: true,
        ..s
    }
}

/// Summing up loses no message: those that were there stay, in order, in front of
/// the summary.
pub proof fn compression_keeps_every_message(s: SessionModel, prompt: Seq<char>)
    ensures
        compressed(s, prompt).compressed_messages == s.compressed_messages + s.messages,
        compressed(s, prompt).messages.len() == 1,
        !nothing_said(compressed(s, prompt)),
        message::all_in_place(s.messages) && message::all_in_place(s.compressed_messages)
            ==> message::all_in_place(compressed(s, prompt).messages) && message::all_in_place(
            compressed(s, prompt).compressed_messages,
        ),
{
}

/// Messages are never summed up while that is going on, nor when the threshold is
/// 0.
pub proof fn compression_is_not_needed_twice(s: SessionModel, global: usize)
    ensures
        s.compressing ==> !to_be_compressed(s, global),
        s.compress_threshold == Some(0usize) ==> !to_be_compressed(s, global),
        s.compress_threshold is None && global == 0 ==> !to_be_compressed(s, global),
{
}

// ---- Names ----

/// A name with `-` for every character that is neither a letter nor a number.
pub open spec fn name_chars(t: Seq<char>) -> Seq<char> {
    Seq::new(
        t.len(),
        |i: int|
            if text::is_alphanumeric(t[i]) {
                t[i]
            } else {
                '-'
            },
    )
}

/// A name that was made consists of letters, numbers and `-` alone.
pub proof fn made_names_are_plain(t: Seq<char>, i: int)
    requires
        0 <= i < t.len(),
    ensures
        name_chars(t).len() == t.len(),
        text::is_alphanumeric(name_chars(t)[i]) || name_chars(t)[i] == '-',
{
}

impl Session {
    /// Whether a name is still to be made.
    pub fn need_autoname(&self) -> (r: bool)
        ensures
            r == (self@.autoname matches Some(a) && needs_name(a)),
    {
        match &self.autoname {
            Some(a) => a.need(),
            None => false,
        }
    }

    pub fn set_autonaming(&mut self, naming: bool)
        ensures
            final(self)@ == (SessionModel {
                autoname: match old(self)@.autoname {
                    Some(a) => Some(AutoNameModel { naming, ..a }),
                    None => None,
                },
                ..old(self)@
            }),
    {
        match &self.autoname {
            Some(a) => {
                let mut changed = a.clone();
                changed.naming = naming;
                self.autoname = Some(changed);
            },
            None => {},
        }
    }

    pub fn chat_history_for_autonaming(&self) -> (r: Option<String>)
        ensures
            text::optional(r) == (match self@.autoname {
                Some(a) => a.chat_history,
                None => None,
            }),
    {
        match &self.autoname {
            Some(a) => a.chat_history.clone(),
            None => None,
        }
    }

    /// The name that was made.
    pub fn autoname(&self) -> (r: Option<&str>)
        ensures
            prompt::optional_text(r) == made_name(self@),
    {
        match &self.autoname {
            Some(a) => match &a.name {
                Some(name) => Some(name.as_str()),
                None => None,
            },
            None => None,
        }
    }

    /// Sets the name that was made.
    pub fn set_autoname(&mut self, value: &str)
        ensures
            final(self)@ == (SessionModel {
                autoname: Some(autonamed(name_chars(value@))),
                ..old(self)@
            }),
    {
        let chars = text::to_chars(value);
        let mut name = String::new();
        let mut i: usize = 0;
        while i < chars.len()
            invariant
                i <= chars@.len(),
                chars@ == value@,
                name@ == name_chars(value@).take(i as int),
            decreases chars@.len() - i,
        {
            let c = chars[i];
            let kept = if text::char_is_alphanumeric(c) {
                c
            } else {
                '-'
            };
            name.push(kept);
            proof {
                assert(name_chars(value@).take(i + 1) =~= name_chars(value@).take(i as int).push(
                    kept,
                ));
            }
            i += 1;
        }
        proof {
            assert(name_chars(value@).take(i as int) =~= name_chars(value@));
        }
        self.autoname = Some(AutoName::new(name));
    }
}

/// The name that was made for a session.
pub open spec fn made_name(s: SessionModel) -> Option<Seq<char>> {
    match s.autoname {
        Some(a) => a.name,
        None => None,
    }
}

// ---- Messages ----

/// A message with more text behind its own, and with new reasoning where there is
/// some.
pub open spec fn continued(
    m: MessageModel,
    output: Seq<char>,
    reasoning: Option<Seq<char>>,
) -> MessageModel {
    MessageModel {
        content: match m.content {
            ContentModel::Text(t) => ContentModel::Text(t + output),
            other => other,
        },
        reasoning_content: settings::over(reasoning, m.reasoning_content),
        ..m
    }
}

/// A message with another text and other reasoning.
pub open spec fn regenerated(
    m: MessageModel,
    output: Seq<char>,
    reasoning: Option<Seq<char>>,
) -> MessageModel {
    MessageModel {
        content: match m.content {
            ContentModel::Text(_) => ContentModel::Text(output),
            other => other,
        },
        reasoning_content: reasoning,
        ..m
    }
}

/// A reply.
pub open spec fn reply(output: Seq<char>, reasoning: Option<Seq<char>>) -> MessageModel {
    MessageModel { reasoning_content: reasoning, ..message::says(MessageRole::Assistant, output) }
}

/// What a name is made from: the first input and the reply to it.
pub open spec fn first_exchange(raw: Seq<char>, output: Seq<char>) -> Seq<char> {
    "USER: "@ + raw + "\nASSISTANT: "@ + output + "\n"@
}

/// A session with an input and the reply to it; `asked` are the messages of the
/// input.
pub open spec fn with_exchange(
    s: SessionModel,
    asked: Seq<MessageModel>,
    input: InputModel,
    output: Seq<char>,
    reasoning: Option<Seq<char>>,
) -> SessionModel {
    SessionModel {
        messages: (s.messages + asked + input.pending_messages).push(reply(output, reasoning)),
        data_urls: table::put_all(s.data_urls, input.data_urls),
        autoname: if s.messages.len() == 0 && s.name == TEMP_SESSION_NAME@ && s.save_session
            == Some(true) {
            Some(to_be_named(first_exchange(input.raw, output)))
        } else {
            s.autoname
        },
        dirty: true,
        ..s
    }
}

/// A session with its last message changed.
pub open spec fn with_last(s: SessionModel, m: MessageModel) -> SessionModel {
    SessionModel {
        messages: if s.messages.len() == 0 {
            s.messages
        } else {
            s.messages.update(s.messages.len() - 1, m)
        },
        dirty: true,
        ..s
    }
}

/// `new` is a session after a reply came, up to its tokens. The reply continues
/// the last message, replaces it, or follows the messages of the input; the first
/// ones are made by the role.
pub open spec fn replied<F: Fn(&str) -> String>(
    s: SessionModel,
    interpolate: F,
    input: InputModel,
    output: Seq<char>,
    reasoning: Option<Seq<char>>,
    new: SessionModel,
) -> bool {
    if input.continue_output is Some {
        new == with_last(s, continued(s.messages.last(), output, reasoning))
    } else if input.regenerate {
        new == with_last(s, regenerated(s.messages.last(), output, reasoning))
    } else if s.messages.len() == 0 {
        first_replied(s, interpolate, input, output, reasoning, new)
    } else {
        new == with_exchange(
            s,
            seq![message::plain(MessageRole::User, input.content)],
            input,
            output,
            reasoning,
        )
    }
}

/// `new` is a session after the first reply came, up to its tokens.
pub open spec fn first_replied<F: Fn(&str) -> String>(
    s: SessionModel,
    interpolate: F,
    input: InputModel,
    output: Seq<char>,
    reasoning: Option<Seq<char>>,
    new: SessionModel,
) -> bool {
    exists|asked: Seq<MessageModel>| #[trigger]
        role::builds(input.role, interpolate, input, asked) && new == with_exchange(
            s,
            asked,
            input,
            output,
            reasoning,
        )
}

impl Session {
    /// Changes the last message, if there is one.
    fn set_last(&mut self, m: Message)
        ensures
            final(self)@ == (SessionModel {
                dirty: old(self)@.dirty,
                ..with_last(old(self)@, m@)
            }),
    {
        let n: usize = self.messages.len();
        if n > 0 {
            let ghost before = self@.messages;
            self.messages[n - 1] = m;
            proof {
                assert(self@.messages =~= before.update(n - 1, m@));
            }
        }
    }

    /// Takes in a reply to an input.
    pub fn add_message<F: Fn(&str) -> String, C: Fn(&Model, &Vec<Message>) -> usize>(
        &mut self,
        input: &Input,
        output: &str,
        reasoning_content: Option<String>,
        interpolate: &F,
        count: &C,
    ) -> (r: Result<(), Error>)
        requires
            closure::takes_all(*interpolate),
            closure::counts_all(*count),
        ensures
            r is Ok,
            exists|new: SessionModel| #[trigger]
                replied(
                    old(self)@,
                    *interpolate,
                    input@,
                    output@,
                    text::optional(reasoning_content),
                    new,
                ) && recounted(final(self)@, new, *count),
    {
        let ghost before = self@;
        let ghost reasoning = text::optional(reasoning_content);
        if input.continue_output().is_some() {
            if !self.messages.is_empty() {
                let mut last = self.messages[self.messages.len() - 1].clone();
                if let MessageContent::Text(t) = &last.content {
                    let mut longer = t.clone();
                    longer.append(output);
                    last.content = MessageContent::Text(longer);
                }
                if reasoning_content.is_some() {
                    last.reasoning_content = reasoning_content;
                }
                proof {
                    assert(last@ == continued(before.messages.last(), output@, reasoning));
                }
                self.set_last(last);
            }
        } else if input.regenerate() {
            if !self.messages.is_empty() {
                let mut last = self.messages[self.messages.len() - 1].clone();
                if let MessageContent::Text(_) = &last.content {
                    last.content = MessageContent::Text(output.to_owned());
                }
                last.reasoning_content = reasoning_content;
                proof {
                    assert(last@ == regenerated(before.messages.last(), output@, reasoning));
                }
                self.set_last(last);
            }
        } else {
            let ghost asked: Seq<MessageModel>;
            if self.messages.is_empty() {
                let named = match self.save_session {
                    Some(b) => b,
                    None => false,
                };
                if text::same_text(self.name.as_str(), TEMP_SESSION_NAME) && named {
                    let mut history = "USER: ".to_owned();
                    history.append(input.raw());
                    history.append("\nASSISTANT: ");
                    history.append(output);
                    history.append("\n");
                    self.autoname = Some(AutoName::new_from_chat_history(history));
                }
                let built = input.role().build_messages(input, interpolate);
                proof {
                    asked = message::messages_of(built@);
                }
                message::push_messages(&mut self.messages, &built, 0);
                proof {
                    assert(asked.skip(0) =~= asked);
                }
            } else {
                let m = Message::new(MessageRole::User, input.message_content());
                proof {
                    asked = seq![m@];
                }
                role::push_message(&mut self.messages, m);
                proof {
                    assert(self@.messages =~= before.messages + asked);
                }
            }
            self.data_urls.extend(&input.data_urls);
            message::push_messages(&mut self.messages, &input.pending_messages, 0);
            proof {
                assert(input@.pending_messages.skip(0) =~= input@.pending_messages);
            }
            let mut m = Message::text(MessageRole::Assistant, output.to_owned());
            m.reasoning_content = reasoning_content;
            role::push_message(&mut self.messages, m);
            proof {
                let new = with_exchange(before, asked, input@, output@, reasoning);
                assert(self@ == (SessionModel { dirty: before.dirty, ..new }));
                if before.messages.len() == 0 {
                    assert(first_replied(before, *interpolate, input@, output@, reasoning, new));
                }
            }
        }
        self.dirty = true;
        let ghost new = self@;
        proof {
            assert(replied(before, *interpolate, input@, output@, reasoning, new));
        }
        self.update_tokens(count);
        Ok(())
    }

    /// Forgets everything that was said.
    pub fn clear_messages<C: Fn(&Model, &Vec<Message>) -> usize>(&mut self, count: &C)
        requires
            closure::counts_all(*count),
        ensures
            recounted(final(self)@, cleared(old(self)@), *count),
    {
        self.messages = Vec::new();
        self.compressed_messages = Vec::new();
        self.data_urls = Table::new();
        self.autoname = None;
        self.dirty = true;
        proof {
            assert(self@.messages =~= seq![]);
            assert(self@.compressed_messages =~= seq![]);
            assert(self@.data_urls =~= seq![]);
        }
        self.update_tokens(count);
    }

    /// Refuses when something was said.
    pub fn guard_empty(&self) -> (r: Result<(), Error>)
        ensures
            match r {
                Ok(_) => nothing_said(self@),
                Err(e) => !nothing_said(self@) && e@ == ErrorModel::SessionNotEmpty,
            },
    {
        if !self.is_empty() {
            return Err(Error::SessionNotEmpty);
        }
        Ok(())
    }
}

/// A session in which everything that was said is forgotten.
pub open spec fn cleared(s: SessionModel) -> SessionModel {
    SessionModel {
        messages: seq![],
        compressed_messages: seq![],
        data_urls: seq![],
        autoname: None,
        dirty: true,
        ..s
    }
}

/// After everything was forgotten, nothing was said: what asks for that is not
/// refused.
pub proof fn cleared_session_is_empty(s: SessionModel)
    ensures
        nothing_said(cleared(s)),
{
}

/// A reply that follows an input comes last, and every message from before stays.
pub proof fn exchange_keeps_the_messages(
    s: SessionModel,
    asked: Seq<MessageModel>,
    input: InputModel,
    output: Seq<char>,
    reasoning: Option<Seq<char>>,
    i: int,
)
    requires
        0 <= i < s.messages.len(),
    ensures
        with_exchange(s, asked, input, output, reasoning).messages[i] == s.messages[i],
        with_exchange(s, asked, input, output, reasoning).messages.last() == reply(
            output,
            reasoning,
        ),
{
}

/// The messages up to the last one of the user.
pub open spec fn up_to_user(v: Seq<MessageModel>) -> Seq<MessageModel>
    decreases v.len(),
{
    if v.len() == 0 || v.last().role is User {
        v
    } else {
        up_to_user(v.drop_last())
    }
}

/// The messages from the last one of the user on; none where the user said
/// nothing.
pub open spec fn from_user(v: Seq<MessageModel>) -> Seq<MessageModel> {
    let n = up_to_user(v).len();
    if n == 0 {
        seq![]
    } else {
        v.skip(n - 1)
    }
}

/// The messages of a session that an input is put behind: behind a summary, the
/// last exchange that it stands for comes again.
pub open spec fn history(s: SessionModel) -> Seq<MessageModel> {
    if s.messages.len() == 1 && s.compressed_messages.len() >= 2 {
        s.messages + from_user(s.compressed_messages)
    } else {
        s.messages
    }
}

/// The messages with an input behind them; an empty input is left out where the
/// user spoke last.
pub open spec fn with_input(v: Seq<MessageModel>, input: InputModel) -> Seq<MessageModel> {
    if !input.empty || v.len() == 0 || !(v.last().role is User) {
        v.push(message::plain(MessageRole::User, input.content))
    } else {
        v
    }
}

/// `out` are the messages that a session and an input make.
pub open spec fn session_builds<F: Fn(&str) -> String>(
    s: SessionModel,
    interpolate: F,
    input: InputModel,
    out: Seq<MessageModel>,
) -> bool {
    if input.continue_output is Some {
        out == s.messages
    } else if input.regenerate {
        out == up_to_user(s.messages)
    } else if s.messages.len() == 0 {
        role::builds(input.role, interpolate, input, out)
    } else {
        out == with_input(history(s), input)
    }
}

/// Cutting messages off behind the last one of the user leaves some from the
/// front, and the last of them is the user's.
pub proof fn up_to_user_is_a_prefix(v: Seq<MessageModel>)
    ensures
        up_to_user(v).len() <= v.len(),
        up_to_user(v) == v.take(up_to_user(v).len() as int),
        up_to_user(v).len() > 0 ==> up_to_user(v).last().role is User,
        forall|i: int|
            up_to_user(v).len() <= i < v.len() ==> !((#[trigger] v[i]).role is User),
    decreases v.len(),
{
    if v.len() == 0 || v.last().role is User {
        assert(v =~= v.take(v.len() as int));
    } else {
        let rest = v.drop_last();
        up_to_user_is_a_prefix(rest);
        let n = up_to_user(rest).len() as int;
        assert(rest.take(n) =~= v.take(n));
        assert forall|i: int| n <= i < v.len() implies !((#[trigger] v[i]).role is User) by {
            if i < rest.len() {
                assert(rest[i] == v[i]);
            }
        }
    }
}

/// The last message that goes to the model is the user's, except where a reply is
/// continued; a reply that is given anew follows the user's last message, if
/// there is one.
pub proof fn session_builds_end_with_the_user<F: Fn(&str) -> String>(
    s: SessionModel,
    interpolate: F,
    input: InputModel,
    out: Seq<MessageModel>,
)
    requires
        session_builds(s, interpolate, input, out),
        input.continue_output is None,
    ensures
        !input.regenerate ==> out.len() > 0,
        out.len() > 0 ==> out.last().role is User,
{
    if input.regenerate {
        up_to_user_is_a_prefix(s.messages);
    } else if s.messages.len() == 0 {
        let p = choose|p: Seq<char>| #[trigger]
            role::effective(input.role, interpolate, p) && out == role::built(p, input);
        role::built_ends_with_the_user(p, input);
    }
}

/// An empty input adds no turn where the user spoke last: the messages go to the
/// model as they are kept.
pub proof fn empty_input_adds_no_turn<F: Fn(&str) -> String>(
    s: SessionModel,
    interpolate: F,
    input: InputModel,
    out: Seq<MessageModel>,
)
    requires
        session_builds(s, interpolate, input, out),
        input.empty,
        input.continue_output is None,
        s.messages.len() > 0,
        history(s).last().role is User,
    ensures
        !input.regenerate ==> out == history(s),
        s.messages.len() > 1 || s.compressed_messages.len() < 2 ==> out == s.messages,
{
    if input.regenerate {
        up_to_user_is_a_prefix(s.messages);
    }
}

/// What goes to the model holds nothing where it does not belong, as long as what
/// the session keeps does not.
pub proof fn session_builds_messages_in_place<F: Fn(&str) -> String>(
    s: SessionModel,
    interpolate: F,
    input: InputModel,
    out: Seq<MessageModel>,
)
    requires
        session_builds(s, interpolate, input, out),
        message::all_in_place(s.messages),
        message::all_in_place(s.compressed_messages),
    ensures
        message::all_in_place(out),
{
    up_to_user_is_a_prefix(s.messages);
    up_to_user_is_a_prefix(s.compressed_messages);
    if input.continue_output is None && !input.regenerate {
        if s.messages.len() == 0 {
            let p = choose|p: Seq<char>| #[trigger]
                role::effective(input.role, interpolate, p) && out == role::built(p, input);
            role::built_messages_are_in_place(p, input);
        } else {
            let n = up_to_user(s.compressed_messages).len();
            let again = from_user(s.compressed_messages);
            assert forall|i: int| 0 <= i < again.len() implies message::in_place(
                #[trigger] again[i],
            ) by {
                assert(again[i] == s.compressed_messages[n - 1 + i]);
            }
            assert(message::all_in_place(history(s)));
        }
    }
}

/// A reply puts nothing beside a message where it does not belong, where one that
/// continues or replaces a message and brings reasoning does so with the assistant's.
pub proof fn replies_keep_messages_in_place<F: Fn(&str) -> String>(
    s: SessionModel,
    interpolate: F,
    input: InputModel,
    output: Seq<char>,
    reasoning: Option<Seq<char>>,
    new: SessionModel,
)
    requires
        replied(s, interpolate, input, output, reasoning, new),
        message::all_in_place(s.messages),
        message::all_in_place(input.pending_messages),
        (input.continue_output is Some || input.regenerate) && reasoning is Some
            && s.messages.len() > 0 ==> s.messages.last().role is Assistant,
    ensures
        message::all_in_place(new.messages),
{
    if input.continue_output is Some || input.regenerate {
        if s.messages.len() > 0 {
            assert(message::in_place(s.messages.last()));
        }
    } else {
        let asked = if s.messages.len() == 0 {
            let asked = choose|asked: Seq<MessageModel>| #[trigger]
                role::builds(input.role, interpolate, input, asked) && new == with_exchange(
                    s,
                    asked,
                    input,
                    output,
                    reasoning,
                );
            let p = choose|p: Seq<char>| #[trigger]
                role::effective(input.role, interpolate, p) && asked == role::built(p, input);
            role::built_messages_are_in_place(p, input);
            asked
        } else {
            seq![message::plain(MessageRole::User, input.content)]
        };
        assert(new == with_exchange(s, asked, input, output, reasoning));
        assert(message::all_in_place(asked));
    }
}

impl Session {
    /// The messages that the session and an input make.
    pub fn build_messages<F: Fn(&str) -> String>(&self, input: &Input, interpolate: &F) -> (r: Vec<
        Message,
    >)
        requires
            closure::takes_all(*interpolate),
        ensures
            session_builds(self@, *interpolate, input@, message::messages_of(r@)),
    {
        if input.continue_output().is_some() {
            return message::clone_messages(&self.messages);
        }
        if input.regenerate() {
            let mut messages = message::clone_messages(&self.messages);
            while !messages.is_empty() && !messages[messages.len() - 1].role.is_user()
                invariant
                    up_to_user(message::messages_of(messages@)) == up_to_user(self@.messages),
                ensures
                    messages@.len() == 0 || messages@.last().role is User,
                decreases messages@.len(),
            {
                let ghost before = message::messages_of(messages@);
                messages.pop();
                proof {
                    assert(message::messages_of(messages@) =~= before.drop_last());
                }
            }
            return messages;
        }
        if self.messages.is_empty() {
            return input.role().build_messages(input, interpolate);
        }
        let mut messages = message::clone_messages(&self.messages);
        if self.messages.len() == 1 && self.compressed_messages.len() >= 2 {
            let ghost all = self@.compressed_messages;
            let mut n: usize = self.compressed_messages.len();
            proof {
                assert(all.take(n as int) =~= all);
            }
            while n > 0 && !self.compressed_messages[n - 1].role.is_user()
                invariant
                    n <= self.compressed_messages@.len(),
                    all == message::messages_of(self.compressed_messages@),
                    up_to_user(all.take(n as int)) == up_to_user(all),
                decreases n,
            {
                proof {
                    assert(all.take(n as int).drop_last() =~= all.take(n - 1));
                }
                n -= 1;
            }
            proof {
                assert(up_to_user(all) == all.take(n as int));
            }
            if n > 0 {
                message::push_messages(&mut messages, &self.compressed_messages, n - 1);
            }
        }
        proof {
            assert(message::messages_of(messages@) =~= history(self@));
        }
        let ends_in_user = messages[messages.len() - 1].role.is_user();
        if !input.is_empty() || !ends_in_user {
            role::push_message(
                &mut messages,
                Message::new(MessageRole::User, input.message_content()),
            );
        }
        messages
    }
}

// ---- What sessions have in common with roles ----

/// The role that answers in a session; its prompt was made by `interpolate` from
/// the one that the session holds.
pub open spec fn role_in(s: SessionModel, p: Seq<char>) -> RoleModel {
    RoleModel {
        rag: s.rag,
        ..role::synced(
            role::plain_role(
                match s.role_name {
                    Some(name) => name,
                    None => seq![],
                },
                p,
            ),
            s.model,
            s.settings,
        )
    }
}

/// A session that took over a role answers as that role did: with its name, model and
/// document index, and with its settings, up to the name of a model among these.
pub proof fn session_answers_as_its_role(s: SessionModel, role: RoleModel, p: Seq<char>)
    ensures
        ({
            let again = role_in(with_role(s, role), p);
            &&& again.name == role.name
            &&& again.prompt == p
            &&& again.model == role.model
            &&& again.rag == role.rag
            &&& again.settings == (SettingsModel { model_id: None, ..role.settings })
        }),
{
    if role.name.len() == 0 {
        assert(role.name =~= seq![]);
    }
}

impl RoleLike for Session {
    open spec fn settings_of(&self) -> SettingsModel {
        self@.settings
    }

    open spec fn model_of(&self) -> ModelModel {
        self@.model
    }

    open spec fn rag_of(&self) -> Option<Rag> {
        self@.rag
    }

    fn to_role<F: Fn(&str) -> String>(&self, interpolate: &F) -> (r: Role)
        ensures
            exists|p: Seq<char>| #[trigger]
                closure::gives(*interpolate, self@.role_prompt, p) && r@ == role_in(self@, p),
    {
        let role_name = match &self.role_name {
            Some(name) => name.as_str(),
            None => "",
        };
        proof {
            reveal_strlit("");
            assert(""@ =~= seq![]);
        }
        let mut role = Role::new(role_name, self.role_prompt.as_str(), interpolate);
        let ghost p = role@.prompt;
        proof {
            assert(role@ == role::plain_role(role_name@, p));
            assert(closure::gives(*interpolate, self@.role_prompt, p));
        }
        role.take_over(self.model.clone(), self.settings.clone());
        role.rag = self.rag;
        role
    }

    fn model(&self) -> (r: &Model) {
        &self.model
    }

    fn temperature(&self) -> (r: Option<Real>) {
        self.settings.temperature.clone()
    }

    fn top_p(&self) -> (r: Option<Real>) {
        self.settings.top_p.clone()
    }

    fn use_tools(&self) -> (r: Option<String>) {
        self.settings.use_tools.clone()
    }

    fn use_agents(&self) -> (r: Option<String>) {
        self.settings.use_agents.clone()
    }

    fn max_spawn_depth(&self) -> (r: Option<usize>) {
        self.settings.max_spawn_depth
    }

    fn max_subagent_turns(&self) -> (r: Option<usize>) {
        self.settings.max_subagent_turns
    }

    fn rag(&self) -> (r: Option<Rag>) {
        self.rag
    }

    fn set_model<C: Fn(&Model, &Vec<Message>) -> usize>(&mut self, model: Model, count: &C)
        ensures
            if old(self)@.model.id == model@.id {
                final(self)@ == old(self)@
            } else {
                recounted(
                    final(self)@,
                    SessionModel {
                        model_id: model@.id,
                        model: model@,
                        dirty: true,
                        ..old(self)@
                    },
                    *count,
                )
            },
    {
        if !text::same_text(self.model.id.as_str(), model.id.as_str()) {
            self.model_id = model.id();
            self.model = model;
            self.dirty = true;
            self.update_tokens(count);
        }
    }

    fn set_temperature(&mut self, value: Option<Real>)
        ensures
            if model::same_setting(old(self)@.settings.temperature, model::real_of(value)) {
                final(self)@ == old(self)@
            } else {
                final(self)@ == (SessionModel {
                    settings: SettingsModel {
                        temperature: model::real_of(value),
                        ..old(self)@.settings
                    },
                    dirty: true,
                    ..old(self)@
                })
            },
    {
        if !model::settings_equal(&self.settings.temperature, &value) {
            self.settings.temperature = value;
            self.dirty = true;
        }
    }

    fn set_top_p(&mut self, value: Option<Real>)
        ensures
            if model::same_setting(old(self)@.settings.top_p, model::real_of(value)) {
                final(self)@ == old(self)@
            } else {
                final(self)@ == (SessionModel {
                    settings: SettingsModel { top_p: model::real_of(value), ..old(self)@.settings },
                    dirty: true,
                    ..old(self)@
                })
            },
    {
        if !model::settings_equal(&self.settings.top_p, &value) {
            self.settings.top_p = value;
            self.dirty = true;
        }
    }

    fn set_use_tools(&mut self, value: Option<String>)
        ensures
            final(self)@ == (SessionModel {
                settings: SettingsModel { use_tools: text::optional(value), ..old(self)@.settings },
                dirty: old(self)@.dirty || old(self)@.settings.use_tools != text::optional(value),
                ..old(self)@
            }),
    {
        if !same_words(&self.settings.use_tools, &value) {
            self.settings.use_tools = value;
            self.dirty = true;
        }
    }

    fn set_use_agents(&mut self, value: Option<String>)
        ensures
            final(self)@ == (SessionModel {
                settings: SettingsModel {
                    use_agents: text::optional(value),
                    ..old(self)@.settings
                },
                dirty: old(self)@.dirty || old(self)@.settings.use_agents != text::optional(value),
                ..old(self)@
            }),
    {
        if !same_words(&self.settings.use_agents, &value) {
            self.settings.use_agents = value;
            self.dirty = true;
        }
    }

    fn set_max_spawn_depth(&mut self, value: Option<usize>)
        ensures
            final(self)@ == (SessionModel {
                settings: SettingsModel { max_spawn_depth: value, ..old(self)@.settings },
                dirty: old(self)@.dirty || old(self)@.settings.max_spawn_depth != value,
                ..old(self)@
            }),
    {
        if !same_count(self.settings.max_spawn_depth, value) {
            self.settings.max_spawn_depth = value;
            self.dirty = true;
        }
    }

    fn set_max_subagent_turns(&mut self, value: Option<usize>)
        ensures
            final(self)@ == (SessionModel {
                settings: SettingsModel { max_subagent_turns: value, ..old(self)@.settings },
                dirty: old(self)@.dirty || old(self)@.settings.max_subagent_turns != value,
                ..old(self)@
            }),
    {
        if !same_count(self.settings.max_subagent_turns, value) {
            self.settings.max_subagent_turns = value;
            self.dirty = true;
        }
    }

    fn set_rag(&mut self, value: Option<Rag>)
        ensures
            final(self)@ == (SessionModel { rag: value, dirty: true, ..old(self)@ }),
    {
        self.rag = value;
        self.dirty = true;
    }
}

// ---- What a session sends and keeps ----

/// Where nothing is left of a conversation but a summary, what is sent is the
/// summary, then the end of the conversation that was summed up, then the input.
/// That end begins at `k` with a message of the user and holds no second one; it is
/// empty only where the user said nothing.
pub proof fn last_turn_is_sent_behind_the_summary<F: Fn(&str) -> String>(
    s: SessionModel,
    interpolate: F,
    input: InputModel,
    out: Seq<MessageModel>,
) -> (k: int)
    requires
        session_builds(s, interpolate, input, out),
        input.continue_output is None,
        !input.regenerate,
        s.messages.len() == 1,
        s.compressed_messages.len() >= 2,
    ensures
        0 <= k <= s.compressed_messages.len(),
        k < s.compressed_messages.len() ==> s.compressed_messages[k].role is User,
        forall|i: int|
            k < i < s.compressed_messages.len() ==> !((#[trigger] s.compressed_messages[i]).role is User),
        k == s.compressed_messages.len() ==> forall|i: int|
            0 <= i < s.compressed_messages.len() ==> !((#[trigger] s.compressed_messages[i]).role is User),
        ({
            let sent = s.messages + s.compressed_messages.skip(k);
            if input.empty && sent.last().role is User {
                out == sent
            } else {
                out == sent.push(message::plain(MessageRole::User, input.content))
            }
        }),
{
    let all = s.compressed_messages;
    up_to_user_is_a_prefix(all);
    let n = up_to_user(all).len() as int;
    if n == 0 {
        assert(all.skip(all.len() as int) =~= seq![]);
        all.len() as int
    } else {
        assert(up_to_user(all).last() == all[n - 1]);
        n - 1
    }
}

/// After compression what is sent is the summary, the end of the conversation from
/// the last message of the user on, and the input.
pub proof fn last_turn_is_sent_after_compression<F: Fn(&str) -> String>(
    s: SessionModel,
    prompt: Seq<char>,
    interpolate: F,
    input: InputModel,
    out: Seq<MessageModel>,
) -> (k: int)
    requires
        session_builds(compressed(s, prompt), interpolate, input, out),
        input.continue_output is None,
        !input.regenerate,
        !input.empty,
        s.compressed_messages.len() + s.messages.len() >= 2,
    ensures
        ({
            let said = s.compressed_messages + s.messages;
            &&& 0 <= k <= said.len()
            &&& out.len() == 1 + (said.len() - k) + 1
            &&& out[0].role is System
            &&& out.subrange(1, out.len() - 1) == said.skip(k)
            &&& out.last() == message::plain(MessageRole::User, input.content)
            &&& k < said.len() ==> said[k].role is User
            &&& forall|i: int| k < i < said.len() ==> !((#[trigger] said[i]).role is User)
            &&& k == said.len() ==> forall|i: int|
                0 <= i < said.len() ==> !((#[trigger] said[i]).role is User)
        }),
{
    let said = s.compressed_messages + s.messages;
    let k = last_turn_is_sent_behind_the_summary(compressed(s, prompt), interpolate, input, out);
    assert(out.subrange(1, out.len() - 1) =~= said.skip(k));
    k
}

/// In a conversation that was not summed up, what is sent is all of it and the
/// input; an empty input is left out where the user spoke last.
pub proof fn whole_conversation_is_sent<F: Fn(&str) -> String>(
    s: SessionModel,
    interpolate: F,
    input: InputModel,
    out: Seq<MessageModel>,
)
    requires
        session_builds(s, interpolate, input, out),
        input.continue_output is None,
        !input.regenerate,
        s.messages.len() > 1 || s.messages.len() == 1 && s.compressed_messages.len() < 2,
    ensures
        if input.empty && s.messages.last().role is User {
            out == s.messages
        } else {
            out == s.messages.push(message::plain(MessageRole::User, input.content))
        },
{
}

/// To have a reply made again, the conversation is sent up to the last message of
/// the user; to have one continued, all of it is sent. No input is added.
pub proof fn replies_are_asked_for_again<F: Fn(&str) -> String>(
    s: SessionModel,
    interpolate: F,
    input: InputModel,
    out: Seq<MessageModel>,
)
    requires
        session_builds(s, interpolate, input, out),
        input.continue_output is Some || input.regenerate,
    ensures
        input.continue_output is Some ==> out == s.messages,
        input.continue_output is None ==> {
            &&& out.is_prefix_of(s.messages)
            &&& out.len() > 0 ==> out.last().role is User
            &&& forall|i: int|
                out.len() <= i < s.messages.len() ==> !((#[trigger] s.messages[i]).role is User)
        },
{
    up_to_user_is_a_prefix(s.messages);
}

/// The first messages of a session are those of its role.
pub proof fn first_turn_is_that_of_the_role<F: Fn(&str) -> String>(
    s: SessionModel,
    interpolate: F,
    input: InputModel,
    out: Seq<MessageModel>,
)
    requires
        session_builds(s, interpolate, input, out),
        input.continue_output is None,
        !input.regenerate,
        s.messages.len() == 0,
    ensures
        role::builds(input.role, interpolate, input, out),
{
}

/// Compression puts the summary in the place of the conversation, behind the
/// system text where the conversation has one, and keeps all that was said, in
/// order, apart. Nothing else of the session changes.
pub proof fn summary_takes_the_place_of_the_conversation(s: SessionModel, prompt: Seq<char>)
    ensures
        ({
            let new = compressed(s, prompt);
            &&& new.messages.len() == 1
            &&& s.messages.len() == 0 || !(s.messages[0].role is System) ==> new.messages[0]
                == message::says(MessageRole::System, prompt)
            &&& s.messages.len() > 0 && s.messages[0].role is System && s.messages[0].content
                == ContentModel::Text(seq![]) ==> new.messages[0] == message::says(
                MessageRole::System,
                prompt,
            )
            &&& s.messages.len() > 0 && s.messages[0].role is System ==> (
            s.messages[0].content matches ContentModel::Text(t) ==> (t.len() > 0
                ==> new.messages[0] == message::says(
                MessageRole::System,
                t + seq!['\n', '\n'] + prompt,
            )))
            &&& new == (SessionModel {
                messages: new.messages,
                compressed_messages: s.compressed_messages + s.messages,
                dirty: true,
                ..s
            })
        }),
{
    reveal_strlit("\n\n");
    assert("\n\n"@ =~= seq!['\n', '\n']);
}

/// A session is to be compressed when it is over its own threshold, or else over
/// the one for all sessions; a threshold of zero means never.
pub proof fn sessions_over_the_threshold_are_compressed(s: SessionModel, global: usize)
    requires
        !s.compressing,
    ensures
        s.compress_threshold matches Some(n) ==> (to_be_compressed(s, global) <==> 0 < n
            < s.tokens),
        s.compress_threshold is None ==> (to_be_compressed(s, global) <==> 0 < global < s.tokens),
{
}

/// An exchange adds to the conversation what was asked, then what happened on the
/// way to the reply, then the reply, and changes none of what was there. The images
/// of the input are kept with those of before.
pub proof fn exchanges_are_added_at_the_end<F: Fn(&str) -> String>(
    s: SessionModel,
    interpolate: F,
    input: InputModel,
    output: Seq<char>,
    reasoning: Option<Seq<char>>,
    new: SessionModel,
) -> (asked: Seq<MessageModel>)
    requires
        replied(s, interpolate, input, output, reasoning, new),
        input.continue_output is None,
        !input.regenerate,
    ensures
        s.messages.len() == 0 ==> role::builds(input.role, interpolate, input, asked),
        s.messages.len() > 0 ==> asked == seq![message::plain(MessageRole::User, input.content)],
        new.messages.len() == s.messages.len() + asked.len() + input.pending_messages.len() + 1,
        new.messages.drop_last() == s.messages + asked + input.pending_messages,
        new.messages.last().role is Assistant,
        new.messages.last().content == ContentModel::Text(output),
        new.messages.last().reasoning_content == reasoning,
        new.messages.last().tool_calls is None,
        forall|i: int|
            0 <= i < input.data_urls.len() && (forall|j: int|
                i < j < input.data_urls.len() ==> (#[trigger] input.data_urls[j]).0
                    != input.data_urls[i].0) ==> table::lookup(
                new.data_urls,
                (#[trigger] input.data_urls[i]).0,
            ) == Some(input.data_urls[i].1),
        new.dirty,
        new == (SessionModel {
            messages: new.messages,
            data_urls: new.data_urls,
            autoname: new.autoname,
            dirty: true,
            ..s
        }),
        s.messages.len() > 0 || s.name != "temp"@ || s.save_session != Some(true) ==> new.autoname
            == s.autoname,
        s.messages.len() == 0 && s.name == "temp"@ && s.save_session == Some(true)
            ==> (new.autoname matches Some(a) && !a.naming && a.name is None && a.chat_history
            == Some("USER: "@ + input.raw + "\nASSISTANT: "@ + output + "\n"@)),
{
    let asked = if s.messages.len() == 0 {
        choose|asked: Seq<MessageModel>| #[trigger]
            role::builds(input.role, interpolate, input, asked) && new == with_exchange(
                s,
                asked,
                input,
                output,
                reasoning,
            )
    } else {
        seq![message::plain(MessageRole::User, input.content)]
    };
    let before = s.messages + asked + input.pending_messages;
    assert(new.messages.drop_last() =~= before);
    assert forall|i: int|
        0 <= i < input.data_urls.len() && (forall|j: int|
            i < j < input.data_urls.len() ==> (#[trigger] input.data_urls[j]).0
                != input.data_urls[i].0) implies table::lookup(
        new.data_urls,
        (#[trigger] input.data_urls[i]).0,
    ) == Some(input.data_urls[i].1) by {
        table::last_put_counts(s.data_urls, input.data_urls, i);
    }
    asked
}

/// A reply that goes on is written behind the last message, and one that was made
/// again in its place; no other message changes, and none is added.
pub proof fn last_reply_is_rewritten<F: Fn(&str) -> String>(
    s: SessionModel,
    interpolate: F,
    input: InputModel,
    output: Seq<char>,
    reasoning: Option<Seq<char>>,
    new: SessionModel,
    t: Seq<char>,
)
    requires
        replied(s, interpolate, input, output, reasoning, new),
        input.continue_output is Some || input.regenerate,
        s.messages.len() > 0,
        s.messages.last().content == ContentModel::Text(t),
    ensures
        new.messages.len() == s.messages.len(),
        new.messages.drop_last() == s.messages.drop_last(),
        new.messages.last().role == s.messages.last().role,
        input.continue_output is Some ==> new.messages.last().content == ContentModel::Text(
            t + output,
        ),
        input.continue_output is None ==> new.messages.last().content == ContentModel::Text(
            output,
        ),
        reasoning is Some ==> new.messages.last().reasoning_content == reasoning,
        reasoning is None && input.continue_output is Some
            ==> new.messages.last().reasoning_content == s.messages.last().reasoning_content,
        reasoning is None && input.continue_output is None
            ==> new.messages.last().reasoning_content is None,
        new == (SessionModel { messages: new.messages, dirty: true, ..s }),
{
    assert(new.messages.drop_last() =~= s.messages.drop_last());
}

/// The messages of the user are counted.
pub proof fn messages_of_the_user_are_counted(v: Seq<MessageModel>)
    ensures
        users_messages(v) == v.filter(|m: MessageModel| m.role is User).len(),
    decreases v.len(),
{
    reveal(Seq::filter);
    if v.len() > 0 {
        messages_of_the_user_are_counted(v.drop_last());
    }
}

/// A name that is made of a text keeps its letters and digits, each in its place,
/// and has a hyphen for every other character.
pub proof fn made_names_keep_letters_and_digits(t: Seq<char>, i: int)
    requires
        0 <= i < t.len(),
    ensures
        name_chars(t).len() == t.len(),
        text::is_alphanumeric(t[i]) ==> name_chars(t)[i] == t[i],
        !text::is_alphanumeric(t[i]) ==> name_chars(t)[i] == '-',
{
}

/// A session that is cleared forgets what was said and shown, and keeps what it is
/// set to.
pub proof fn cleared_sessions_keep_their_settings(s: SessionModel)
    ensures
        cleared(s).messages.len() == 0,
        cleared(s).compressed_messages.len() == 0,
        cleared(s).data_urls.len() == 0,
        cleared(s).autoname is None,
        cleared(s).dirty,
        cleared(s) == (SessionModel {
            messages: seq![],
            compressed_messages: seq![],
            data_urls: seq![],
            autoname: None,
            dirty: true,
            ..s
        }),
{
}

/// A session that is given a role answers with its model, its settings and its
/// documents, and keeps all that was said.
pub proof fn roles_are_given_to_sessions(s: SessionModel, role: RoleModel)
    ensures
        ({
            let new = with_role(s, role);
            &&& new.model == role.model
            &&& new.model_id == role.model.id
            &&& new.settings == (SettingsModel { model_id: s.settings.model_id, ..role.settings })
            &&& new.rag == role.rag
            &&& new.role_prompt == role.prompt
            &&& new.dirty
            &&& role.name.len() > 0 ==> new.role_name == Some(role.name)
            &&& role.name.len() == 0 ==> new.role_name is None
            &&& new.messages == s.messages
            &&& new.compressed_messages == s.compressed_messages
            &&& new.name == s.name
            &&& new.save_session == s.save_session
            &&& new.compress_threshold == s.compress_threshold
            &&& new.agent_variables == s.agent_variables
            &&& new.agent_instructions == s.agent_instructions
        }),
{
}

/// A change of a session leaves all but the count of its tokens as it was to become,
/// and that count is what counting its messages for its model gives.
pub proof fn tokens_are_counted_after_a_change<C: Fn(&Model, &Vec<Message>) -> usize>(
    new: SessionModel,
    wanted: SessionModel,
    count: C,
)
    requires
        recounted(new, wanted, count),
    ensures
        new.messages == wanted.messages,
        new.compressed_messages == wanted.compressed_messages,
        new.model == wanted.model,
        new.settings == wanted.settings,
        new.dirty == wanted.dirty,
        new.name == wanted.name,
        closure::counts(count, wanted.model, wanted.messages, new.tokens),
{
}

/// A name is made only where there is something to make it of and none was made, and
/// not while one is being made.
pub proof fn names_are_made_once(a: AutoNameModel, name: Seq<char>, history: Seq<char>)
    ensures
        needs_name(a) ==> a.chat_history is Some && a.name is None && !a.naming,
        needs_name(to_be_named(history)),
        to_be_named(history).chat_history == Some(history),
        !needs_name(AutoNameModel { naming: true, ..to_be_named(history) }),
        !needs_name(autonamed(name)),
        autonamed(name).name == Some(name),
        autonamed(name).chat_history is None,
        !needs_name(AutoNameModel { name: Some(name), ..a }),
{
}

/// A new session holds nothing, has nothing set and is not to be saved for a change.
pub proof fn new_sessions_hold_nothing()
    ensures
        ({
            let s = blank_session();
            &&& s.messages.len() == 0 && s.compressed_messages.len() == 0 && s.data_urls.len() == 0
            &&& s.save_session is None && s.compress_threshold is None && s.role_name is None
            &&& s.agent_variables.len() == 0 && s.agent_instructions.len() == 0
            &&& s.rag is None && s.path is None && s.autoname is None
            &&& !s.dirty && !s.save_session_this_time && !s.compressing
            &&& s.settings.temperature is None && s.settings.top_p is None
            &&& s.settings.use_tools is None && s.settings.use_agents is None
            &&& s.settings.max_spawn_depth is None && s.settings.max_subagent_turns is None
        }),
{
}

/// A session answers as a role of its name, its prompt, its model, its documents and
/// what is set in it.
pub proof fn sessions_answer_with_what_is_set(s: SessionModel, p: Seq<char>)
    ensures
        ({
            let r = role_in(s, p);
            &&& r.kind is Role
            &&& r.name == if s.role_name is Some {
                s.role_name->0
            } else {
                seq![]
            }
            &&& r.prompt == p
            &&& r.model == s.model
            &&& r.rag == s.rag
            &&& r.settings.temperature == s.settings.temperature
            &&& r.settings.top_p == s.settings.top_p
            &&& r.settings.use_tools == s.settings.use_tools
            &&& r.settings.use_agents == s.settings.use_agents
            &&& r.settings.max_spawn_depth == s.settings.max_spawn_depth
            &&& r.settings.max_subagent_turns == s.settings.max_subagent_turns
            &&& r.functions.len() == 0 && r.variables.len() == 0 && r.documents.len() == 0
        }),
{
}

/// Of a message that is more than a text, a reply that goes on or is made again
/// changes only the reasoning; where nothing was said there is nothing to change.
pub proof fn only_texts_are_rewritten<F: Fn(&str) -> String>(
    s: SessionModel,
    interpolate: F,
    input: InputModel,
    output: Seq<char>,
    reasoning: Option<Seq<char>>,
    new: SessionModel,
)
    requires
        replied(s, interpolate, input, output, reasoning, new),
        input.continue_output is Some || input.regenerate,
    ensures
        s.messages.len() == 0 ==> new.messages.len() == 0,
        s.messages.len() > 0 && s.messages.last().content is Array ==> new.messages.len()
            == s.messages.len() && new.messages.last().content == s.messages.last().content,
        s.messages.len() > 0 ==> new.messages.last() == (MessageModel {
            content: new.messages.last().content,
            reasoning_content: new.messages.last().reasoning_content,
            ..s.messages.last()
        }),
{
}

/// The summary stands behind the text of the system message, whatever pieces that is
/// made of.
pub proof fn summary_stands_behind_the_system_text(s: SessionModel, prompt: Seq<char>)
    requires
        s.messages.len() > 0,
        s.messages[0].role is System,
    ensures
        ({
            let t = message::content_text(s.messages[0].content);
            let new = compressed(s, prompt);
            &&& t.len() > 0 ==> new.messages == seq![
                message::says(MessageRole::System, t + seq!['\n', '\n'] + prompt),
            ]
            &&& t.len() == 0 ==> new.messages == seq![message::says(MessageRole::System, prompt)]
        }),
{
    reveal_strlit("\n\n");
    assert("\n\n"@ =~= seq!['\n', '\n']);
}

/// The images that were shown before stay known, unless the input brings others under
/// their names.
pub proof fn exchanges_keep_the_images<F: Fn(&str) -> String>(
    s: SessionModel,
    interpolate: F,
    input: InputModel,
    output: Seq<char>,
    reasoning: Option<Seq<char>>,
    new: SessionModel,
    key: Seq<char>,
)
    requires
        replied(s, interpolate, input, output, reasoning, new),
        forall|i: int|
            0 <= i < input.data_urls.len() ==> (#[trigger] input.data_urls[i]).0 != key,
    ensures
        table::lookup(new.data_urls, key) == table::lookup(s.data_urls, key),
{
    table::others_stay_under_put_all(s.data_urls, input.data_urls, key);
}

} // verus!
