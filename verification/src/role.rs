//! Roles and agents: who answers, and with which instructions.

use vstd::prelude::*;

use crate::agent;
use crate::agent::{AgentVariable, AgentVariables, VariableModel};
use crate::closure;
use crate::function::{DeclarationModel, Functions};
use crate::input::{Input, InputModel};
use crate::message;
use crate::message::{ContentModel, Message, MessageContent, MessageModel, MessageRole, PartModel};
use crate::model;
use crate::model::{Model, ModelModel, Rag, Real, RealModel};
use crate::prompt;
use crate::settings;
use crate::settings::{RoleSettings, SettingsModel};
use crate::table;
use crate::table::Table;
use crate::text;

verus! {

pub const SHELL_ROLE: &'static str = "%shell%";

pub const EXPLAIN_SHELL_ROLE: &'static str = "%explain-shell%";

pub const CODE_ROLE: &'static str = "%code%";

pub const CREATE_TITLE_ROLE: &'static str = "%create-title%";

/// Stands in a prompt for what the user hands in.
pub const INPUT_PLACEHOLDER: &'static str = "__INPUT__";

/// A role proper, or an agent.
#[derive(Debug, Copy, PartialEq, Eq, Structural)]
pub enum RoleKind {
    Role,
    Agent,
}

impl Clone for RoleKind {
    fn clone(&self) -> (r: Self)
        ensures
            r == *self,
    {
        *self
    }
}

impl Default for RoleKind {
    fn default() -> (r: Self)
        ensures
            r == RoleKind::Role,
    {
        RoleKind::Role
    }
}

/// A role, or an agent.
#[derive(Debug)]
pub struct Role {
    pub kind: RoleKind,
    pub name: String,
    pub description: String,
    pub version: String,
    /// The prompt of a role; the template for that of an agent.
    pub prompt: String,
    /// The instructions of the agent come from a function.
    pub dynamic_instructions: bool,
    pub settings: RoleSettings,
    pub variables: Vec<AgentVariable>,
    pub conversation_starters: Vec<String>,
    pub documents: Vec<String>,
    pub rag: Option<Rag>,
    pub functions: Functions,
    pub shared_variables: AgentVariables,
    pub session_variables: Option<AgentVariables>,
    pub shared_dynamic_instructions: Option<String>,
    pub session_dynamic_instructions: Option<String>,
    pub model: Model,
}

/// A role, or an agent.
pub struct RoleModel {
    pub kind: RoleKind,
    pub name: Seq<char>,
    pub description: Seq<char>,
    pub version: Seq<char>,
    pub prompt: Seq<char>,
    pub dynamic_instructions: bool,
    pub settings: SettingsModel,
    pub variables: Seq<VariableModel>,
    pub conversation_starters: Seq<Seq<char>>,
    pub documents: Seq<Seq<char>>,
    pub rag: Option<Rag>,
    pub functions: Seq<DeclarationModel>,
    pub shared_variables: Seq<(Seq<char>, Seq<char>)>,
    pub session_variables: Option<Seq<(Seq<char>, Seq<char>)>>,
    pub shared_dynamic_instructions: Option<Seq<char>>,
    pub session_dynamic_instructions: Option<Seq<char>>,
    pub model: ModelModel,
}

impl View for Role {
    type V = RoleModel;

    open spec fn view(&self) -> RoleModel {
        RoleModel {
            kind: self.kind,
            name: self.name@,
            description: self.description@,
            version: self.version@,
            prompt: self.prompt@,
            dynamic_instructions: self.dynamic_instructions,
            settings: self.settings@,
            variables: agent::declared(self.variables@),
            conversation_starters: text::texts(self.conversation_starters@),
            documents: text::texts(self.documents@),
            rag: self.rag,
            functions: self.functions@,
            shared_variables: agent::variables_in(self.shared_variables),
            session_variables: match self.session_variables {
                Some(v) => Some(agent::variables_in(v)),
                None => None,
            },
            shared_dynamic_instructions: text::optional(self.shared_dynamic_instructions),
            session_dynamic_instructions: text::optional(self.session_dynamic_instructions),
            model: self.model@,
        }
    }
}

/// A role with nothing but a name and a prompt.
pub open spec fn plain_role(name: Seq<char>, prompt: Seq<char>) -> RoleModel {
    RoleModel {
        kind: RoleKind::Role,
        name,
        description: seq![],
        version: seq![],
        prompt,
        dynamic_instructions: false,
        settings: settings::open_settings(),
        variables: seq![],
        conversation_starters: seq![],
        documents: seq![],
        rag: None,
        functions: seq![],
        shared_variables: seq![],
        session_variables: None,
        shared_dynamic_instructions: None,
        session_dynamic_instructions: None,
        model: model::no_model(),
    }
}

impl Clone for Role {
    fn clone(&self) -> (r: Self)
        ensures
            r@ == self@,
    {
        let variables = self.variables.clone();
        proof {
            assert(variables@ =~= self.variables@);
        }
        let session_variables = match &self.session_variables {
            Some(v) => Some(agent::clone_variables(v)),
            None => None,
        };
        Role {
            kind: self.kind,
            name: self.name.clone(),
            description: self.description.clone(),
            version: self.version.clone(),
            prompt: self.prompt.clone(),
            dynamic_instructions: self.dynamic_instructions,
            settings: self.settings.clone(),
            variables,
            conversation_starters: text::clone_texts(&self.conversation_starters),
            documents: text::clone_texts(&self.documents),
            rag: self.rag,
            functions: self.functions.clone(),
            shared_variables: agent::clone_variables(&self.shared_variables),
            session_variables,
            shared_dynamic_instructions: self.shared_dynamic_instructions.clone(),
            session_dynamic_instructions: self.session_dynamic_instructions.clone(),
            model: self.model.clone(),
        }
    }
}

impl Default for Role {
    fn default() -> (r: Self)
        ensures
            r@ == plain_role(seq![], seq![]),
    {
        let r = Role {
            kind: RoleKind::Role,
            name: String::new(),
            description: String::new(),
            version: String::new(),
            prompt: String::new(),
            dynamic_instructions: false,
            settings: RoleSettings::default(),
            variables: Vec::new(),
            conversation_starters: Vec::new(),
            documents: Vec::new(),
            rag: None,
            functions: Functions::default(),
            shared_variables: agent::no_variables(),
            session_variables: None,
            shared_dynamic_instructions: None,
            session_dynamic_instructions: None,
            model: Model::default(),
        };
        proof {
            let empty = Seq::<char>::empty();
            assert(empty =~= seq![]);
            assert(r@.variables =~= seq![]);
            assert(r@.conversation_starters =~= seq![]);
            assert(r@.documents =~= seq![]);
        }
        r
    }
}

// ---- Instructions ----

/// The variables that count: those of the session, or else those that all
/// sessions share.
pub open spec fn current_variables(role: RoleModel) -> Seq<(Seq<char>, Seq<char>)> {
    match role.session_variables {
        Some(v) => v,
        None => role.shared_variables,
    }
}

/// The text of an agent's instructions, before variables are put into it.
pub open spec fn instructions(role: RoleModel) -> Seq<char> {
    match role.session_dynamic_instructions {
        Some(t) => t,
        None => match role.shared_dynamic_instructions {
            Some(t) => t,
            None => role.prompt,
        },
    }
}

/// How a variable is written in a text.
pub open spec fn variable_mark(name: Seq<char>) -> Seq<char> {
    "{{"@ + name + "}}"@
}

/// A text with the values of variables in place of their marks, one variable
/// after the other.
pub open spec fn substituted(t: Seq<char>, variables: Seq<(Seq<char>, Seq<char>)>) -> Seq<char>
    decreases variables.len(),
{
    if variables.len() == 0 {
        t
    } else {
        let last = variables.last();
        text::replaced(substituted(t, variables.drop_last()), variable_mark(last.0), last.1)
    }
}

/// `out` is the prompt with which a role answers. That of an agent is made from
/// its instructions and variables, and by `interpolate`, which puts in what the
/// surroundings tell.
pub open spec fn effective<F: Fn(&str) -> String>(
    role: RoleModel,
    interpolate: F,
    out: Seq<char>,
) -> bool {
    match role.kind {
        RoleKind::Role => out == role.prompt,
        RoleKind::Agent => closure::gives(
            interpolate,
            substituted(instructions(role), current_variables(role)),
            out,
        ),
    }
}

/// A text with the values of variables in place of their marks.
fn substitute(t: &str, variables: &AgentVariables) -> (r: String)
    ensures
        r@ == substituted(t@, agent::variables_in(*variables)),
{
    let mut out = t.to_owned();
    let n: usize = agent::variable_count(variables);
    let mut i: usize = 0;
    let ghost all = agent::variables_in(*variables);
    proof {
        assert(all.take(0) =~= seq![]);
    }
    while i < n
        invariant
            i <= n,
            n == all.len(),
            all == agent::variables_in(*variables),
            out@ == substituted(t@, all.take(i as int)),
        decreases n - i,
    {
        if let Some((key, value)) = agent::variable_at(variables, i) {
            let mut mark = "{{".to_owned();
            mark.append(key.as_str());
            mark.append("}}");
            proof {
                reveal_strlit("{{");
                assert(all.take(i + 1).drop_last() =~= all.take(i as int));
                assert(all.take(i + 1).last() == (key@, value@));
            }
            out = text::replace(out.as_str(), mark.as_str(), value.as_str());
        }
        i += 1;
    }
    proof {
        assert(all.take(i as int) =~= all);
    }
    out
}

impl Role {
    /// A role made on the spot from a prompt. `interpolate` puts in what the
    /// surroundings tell.
    pub fn new<F: Fn(&str) -> String>(name: &str, prompt: &str, interpolate: &F) -> (r: Self)
        requires
            closure::takes_all(*interpolate),
        ensures
            exists|p: Seq<char>| #[trigger]
                closure::gives(*interpolate, prompt@, p) && r@ == plain_role(name@, p),
    {
        let mut role = Role::default();
        role.name = name.to_owned();
        role.prompt = closure::apply(interpolate, prompt);
        role
    }

    /// Whether arguments stand in the name.
    pub fn has_args(&self) -> (r: bool)
        ensures
            r == self@.name.contains('#'),
    {
        text::contains_char(self.name.as_str(), '#')
    }

    /// Whether the role was made on the spot.
    pub fn is_derived(&self) -> (r: bool)
        ensures
            r == (self@.name.len() == 0),
    {
        self.name.as_str().is_empty()
    }

    pub fn name(&self) -> (r: &str)
        ensures
            r@ == self@.name,
    {
        self.name.as_str()
    }

    pub fn model_id(&self) -> (r: Option<&str>)
        ensures
            prompt::optional_text(r) == self@.settings.model_id,
    {
        match &self.settings.model_id {
            Some(id) => Some(id.as_str()),
            None => None,
        }
    }

    /// The prompt as it is written down.
    pub fn prompt(&self) -> (r: &str)
        ensures
            r@ == self@.prompt,
    {
        self.prompt.as_str()
    }

    /// The variables that count.
    pub fn variables(&self) -> (r: &AgentVariables)
        ensures
            agent::variables_in(*r) == current_variables(self@),
    {
        match &self.session_variables {
            Some(variables) => variables,
            None => &self.shared_variables,
        }
    }

    /// The instructions of an agent, with variables and surroundings put in.
    pub fn interpolated_instructions<F: Fn(&str) -> String>(&self, interpolate: &F) -> (r: String)
        requires
            closure::takes_all(*interpolate),
        ensures
            closure::gives(
                *interpolate,
                substituted(instructions(self@), current_variables(self@)),
                r@,
            ),
    {
        let t = match &self.session_dynamic_instructions {
            Some(t) => t,
            None => match &self.shared_dynamic_instructions {
                Some(t) => t,
                None => &self.prompt,
            },
        };
        let filled = substitute(t.as_str(), self.variables());
        closure::apply(interpolate, filled.as_str())
    }

    /// The prompt with which the role answers.
    pub fn effective_prompt<F: Fn(&str) -> String>(&self, interpolate: &F) -> (r: String)
        requires
            closure::takes_all(*interpolate),
        ensures
            effective(self@, *interpolate, r@),
    {
        match self.kind {
            RoleKind::Role => self.prompt.clone(),
            RoleKind::Agent => self.interpolated_instructions(interpolate),
        }
    }
}

// ---- Messages ----

/// A content with a prompt around it: the first text in it stands in the place
/// that the prompt leaves for it.
pub open spec fn embedded(c: ContentModel, prompt: Seq<char>) -> ContentModel {
    match c {
        ContentModel::Text(t) => ContentModel::Text(text::replaced(prompt, INPUT_PLACEHOLDER@, t)),
        ContentModel::Array(list) => if list.len() == 0 {
            ContentModel::Array(
                seq![PartModel::Text(text::replaced(prompt, INPUT_PLACEHOLDER@, seq![]))],
            )
        } else {
            match list[0] {
                PartModel::Text(t) => ContentModel::Array(
                    list.update(
                        0,
                        PartModel::Text(text::replaced(prompt, INPUT_PLACEHOLDER@, t)),
                    ),
                ),
                PartModel::ImageUrl(_) => c,
            }
        },
    }
}

/// The messages of scripted inputs and replies.
pub open spec fn case_messages(cases: Seq<(Seq<char>, Seq<char>)>) -> Seq<MessageModel>
    decreases cases.len(),
{
    if cases.len() == 0 {
        seq![]
    } else {
        case_messages(cases.drop_last()).push(
            message::says(MessageRole::User, cases.last().0),
        ).push(message::says(MessageRole::Assistant, cases.last().1))
    }
}

/// A message from the system, unless it is empty.
pub open spec fn system_messages(system: Seq<char>) -> Seq<MessageModel> {
    if system.len() == 0 {
        seq![]
    } else {
        seq![message::says(MessageRole::System, system)]
    }
}

/// The message of an input to which no reply is scripted.
pub open spec fn dangling_messages(dangling: Option<Seq<char>>) -> Seq<MessageModel> {
    match dangling {
        Some(t) => seq![message::says(MessageRole::User, t)],
        None => seq![],
    }
}

/// The messages of a prompt that is cut by markers, and of the input behind it.
/// An empty input is left out where the prompt itself ends in an input.
pub open spec fn structured_messages(
    s: prompt::StructureModel,
    content: ContentModel,
    empty: bool,
) -> Seq<MessageModel> {
    system_messages(s.system) + case_messages(s.cases) + dangling_messages(s.dangling) + if !empty
        || s.dangling is None {
        seq![message::plain(MessageRole::User, content)]
    } else {
        seq![]
    }
}

/// The messages that a prompt and an input make, up to a reply to continue.
pub open spec fn opening_messages(prompt: Seq<char>, input: InputModel) -> Seq<MessageModel> {
    if prompt.len() == 0 {
        seq![message::plain(MessageRole::User, input.content)]
    } else if text::occurs(prompt, INPUT_PLACEHOLDER@) {
        seq![message::plain(MessageRole::User, embedded(input.content, prompt))]
    } else {
        structured_messages(prompt::structure(prompt), input.content, input.empty)
    }
}

/// The messages that a prompt and an input make.
pub open spec fn built(prompt: Seq<char>, input: InputModel) -> Seq<MessageModel> {
    let opening = opening_messages(prompt, input);
    match input.continue_output {
        Some(t) => opening.push(message::says(MessageRole::Assistant, t)),
        None => opening,
    }
}

/// The last message is the user's, unless a reply is to be continued; then it is
/// that reply.
pub proof fn built_ends_with_the_user(prompt: Seq<char>, input: InputModel)
    ensures
        built(prompt, input).len() > 0,
        input.continue_output is None ==> built(prompt, input).last().role is User,
        input.continue_output matches Some(t) ==> built(prompt, input).last() == message::says(
            MessageRole::Assistant,
            t,
        ),
{
    let opening = opening_messages(prompt, input);
    assert(opening.len() > 0 && opening.last().role is User);
}

/// The last input of a prompt to which no reply is scripted becomes the last
/// message itself when the user hands in nothing.
pub proof fn built_ends_with_the_dangling_input(prompt: Seq<char>, input: InputModel)
    requires
        prompt.len() > 0,
        !text::occurs(prompt, INPUT_PLACEHOLDER@),
        prompt::structure(prompt).dangling is Some,
        input.empty,
        input.continue_output is None,
    ensures
        built(prompt, input).last() == message::says(
            MessageRole::User,
            prompt::structure(prompt).dangling->0,
        ),
        built(prompt, input).len() == system_messages(prompt::structure(prompt).system).len()
            + case_messages(prompt::structure(prompt).cases).len() + 1,
{
}

/// What the user hands in is never lost: it is the last message where the prompt
/// does not hold a place for it, even behind an input of the prompt's own.
pub proof fn built_keeps_the_input(prompt: Seq<char>, input: InputModel)
    requires
        !text::occurs(prompt, INPUT_PLACEHOLDER@),
        !input.empty,
        input.continue_output is None,
    ensures
        built(prompt, input).last() == message::plain(MessageRole::User, input.content),
{
}

/// The messages of scripted inputs and replies hold nothing but text.
proof fn cases_are_in_place(cases: Seq<(Seq<char>, Seq<char>)>)
    ensures
        message::all_in_place(case_messages(cases)),
    decreases cases.len(),
{
    if cases.len() > 0 {
        cases_are_in_place(cases.drop_last());
    }
}

/// The messages that a prompt and an input make hold nothing beside their contents.
pub proof fn built_messages_are_in_place(prompt: Seq<char>, input: InputModel)
    ensures
        message::all_in_place(built(prompt, input)),
{
    cases_are_in_place(prompt::structure(prompt).cases);
}

/// The last input of a prompt to which no reply is scripted, where it has one.
pub open spec fn pending_input(prompt: Seq<char>) -> Option<Seq<char>> {
    if prompt.len() == 0 || text::occurs(prompt, INPUT_PLACEHOLDER@) {
        None
    } else {
        match prompt::structure(prompt).dangling {
            Some(t) => if t.len() == 0 {
                None
            } else {
                Some(t)
            },
            None => None,
        }
    }
}

/// The last input of a prompt to which no reply is scripted, where it has one.
pub fn dangling_input_of(prompt: &str) -> (r: Option<String>)
    ensures
        text::optional(r) == pending_input(prompt@),
{
    if prompt.is_empty() || text::contains(prompt, INPUT_PLACEHOLDER) {
        return None;
    }
    let (_, _, dangling) = prompt::parse_structure_prompt(prompt);
    match dangling {
        Some(t) => if t.is_empty() {
            None
        } else {
            Some(t.to_owned())
        },
        None => None,
    }
}

/// A prompt without markers leaves no input pending.
pub proof fn plain_prompt_has_no_pending_input(prompt: Seq<char>)
    requires
        !text::occurs(prompt, prompt::marker(true)),
    ensures
        pending_input(prompt) is None,
{
    prompt::plain_prompt_is_the_system_text(prompt);
}

/// The text of a prompt and an input, for display.
pub open spec fn echoed(prompt: Seq<char>, rendered: Seq<char>) -> Seq<char> {
    if prompt.len() == 0 {
        rendered
    } else if text::occurs(prompt, INPUT_PLACEHOLDER@) {
        text::replaced(prompt, INPUT_PLACEHOLDER@, rendered)
    } else {
        prompt + "\n\n"@ + rendered
    }
}

/// The text of a prompt and an input, for display.
pub fn echo_prompt(prompt: &str, rendered: &str) -> (r: String)
    ensures
        r@ == echoed(prompt@, rendered@),
{
    if prompt.is_empty() {
        rendered.to_owned()
    } else if text::contains(prompt, INPUT_PLACEHOLDER) {
        proof {
            reveal_strlit("__INPUT__");
        }
        text::replace(prompt, INPUT_PLACEHOLDER, rendered)
    } else {
        let mut out = prompt.to_owned();
        out.append("\n\n");
        out.append(rendered);
        out
    }
}

/// Puts a prompt around a content.
fn embed(content: &mut MessageContent, prompt: &str)
    ensures
        final(content)@ == embedded(old(content)@, prompt@),
{
    proof {
        reveal_strlit("__INPUT__");
    }
    let ghost before = content@;
    let fill = |v: &str| -> (r: String)
        ensures
            r@ == text::replaced(prompt@, INPUT_PLACEHOLDER@, v@),
        { text::replace(prompt, INPUT_PLACEHOLDER, v) };
    content.merge_prompt(&fill);
    proof {
        assert(message::prompt_merged(before, fill, content@));
        match before {
            ContentModel::Text(_) => {},
            ContentModel::Array(list) => {
                if list.len() == 0 || list[0] is Text {
                    assert(content@->Array_0 =~= embedded(before, prompt@)->Array_0);
                }
            },
        }
    }
}

/// Appends the messages of scripted inputs and replies.
fn push_cases(out: &mut Vec<Message>, cases: &Vec<(&str, &str)>)
    ensures
        message::messages_of(final(out)@) == message::messages_of(old(out)@) + case_messages(
            prompt::cases_of(cases@),
        ),
{
    let ghost start = message::messages_of(out@);
    let ghost all = prompt::cases_of(cases@);
    let mut i: usize = 0;
    proof {
        assert(all.take(0) =~= seq![]);
        assert(start + case_messages(all.take(0)) =~= start);
    }
    while i < cases.len()
        invariant
            i <= cases@.len(),
            all == prompt::cases_of(cases@),
            message::messages_of(out@) == start + case_messages(all.take(i as int)),
        decreases cases@.len() - i,
    {
        let (input, output) = cases[i];
        let ghost before = out@;
        let asked = Message::text(MessageRole::User, input.to_owned());
        let replied = Message::text(MessageRole::Assistant, output.to_owned());
        out.push(asked);
        out.push(replied);
        proof {
            assert(all.take(i + 1).drop_last() =~= all.take(i as int));
            assert(all.take(i + 1).last() == (input@, output@));
            assert(message::messages_of(out@) =~= message::messages_of(before).push(asked@).push(
                replied@,
            ));
            assert(start + case_messages(all.take(i + 1)) =~= (start + case_messages(
                all.take(i as int),
            )).push(asked@).push(replied@));
        }
        i += 1;
    }
    proof {
        assert(all.take(i as int) =~= all);
    }
}

/// Appends a message.
pub(crate) fn push_message(out: &mut Vec<Message>, m: Message)
    ensures
        message::messages_of(final(out)@) == message::messages_of(old(out)@).push(m@),
{
    let ghost before = out@;
    out.push(m);
    proof {
        assert(message::messages_of(out@) =~= message::messages_of(before).push(m@));
    }
}

/// The messages that a prompt and an input make.
pub fn build_messages_from(prompt: &str, input: &Input) -> (r: Vec<Message>)
    ensures
        message::messages_of(r@) == built(prompt@, input@),
{
    let mut messages: Vec<Message> = Vec::new();
    let mut content = input.message_content();
    proof {
        assert(message::messages_of(messages@) =~= seq![]);
    }
    if prompt.is_empty() {
        push_message(&mut messages, Message::new(MessageRole::User, content));
    } else if text::contains(prompt, INPUT_PLACEHOLDER) {
        embed(&mut content, prompt);
        push_message(&mut messages, Message::new(MessageRole::User, content));
    } else {
        let (system, cases, dangling) = prompt::parse_structure_prompt(prompt);
        let ghost s = prompt::structure(prompt@);
        if !system.is_empty() {
            push_message(&mut messages, Message::text(MessageRole::System, system.to_owned()));
        }
        proof {
            assert(message::messages_of(messages@) =~= system_messages(s.system));
        }
        push_cases(&mut messages, &cases);
        if let Some(t) = dangling {
            push_message(&mut messages, Message::text(MessageRole::User, t.to_owned()));
        }
        proof {
            assert(message::messages_of(messages@) =~= system_messages(s.system) + case_messages(
                s.cases,
            ) + dangling_messages(s.dangling));
        }
        if !input.is_empty() || dangling.is_none() {
            push_message(&mut messages, Message::new(MessageRole::User, content));
        }
        proof {
            assert(message::messages_of(messages@) =~= structured_messages(
                s,
                input@.content,
                input@.empty,
            ));
        }
    }
    proof {
        assert(message::messages_of(messages@) =~= opening_messages(prompt@, input@));
    }
    if let Some(t) = input.continue_output() {
        push_message(&mut messages, Message::text(MessageRole::Assistant, t.to_owned()));
    }
    messages
}

impl Role {
    /// Whether the role answers without a prompt.
    pub fn is_empty_prompt<F: Fn(&str) -> String>(&self, interpolate: &F) -> (r: bool)
        requires
            closure::takes_all(*interpolate),
        ensures
            exists|p: Seq<char>| #[trigger]
                effective(self@, *interpolate, p) && r == (p.len() == 0),
    {
        let prompt = self.effective_prompt(interpolate);
        prompt.as_str().is_empty()
    }

    /// Whether the prompt holds a place for the input.
    pub fn is_embedded_prompt<F: Fn(&str) -> String>(&self, interpolate: &F) -> (r: bool)
        requires
            closure::takes_all(*interpolate),
        ensures
            exists|p: Seq<char>| #[trigger]
                effective(self@, *interpolate, p) && r == text::occurs(p, INPUT_PLACEHOLDER@),
    {
        let prompt = self.effective_prompt(interpolate);
        text::contains(prompt.as_str(), INPUT_PLACEHOLDER)
    }

    /// The last input of the prompt to which no reply is scripted, where it has
    /// one.
    pub fn dangling_input<F: Fn(&str) -> String>(&self, interpolate: &F) -> (r: Option<String>)
        requires
            closure::takes_all(*interpolate),
        ensures
            exists|p: Seq<char>| #[trigger]
                effective(self@, *interpolate, p) && text::optional(r) == pending_input(p),
    {
        let prompt = self.effective_prompt(interpolate);
        dangling_input_of(prompt.as_str())
    }

    /// The text of the prompt and an input, for display.
    pub fn echo_messages<F: Fn(&str) -> String>(&self, input: &Input, interpolate: &F) -> (r:
        String)
        requires
            closure::takes_all(*interpolate),
        ensures
            exists|p: Seq<char>| #[trigger]
                effective(self@, *interpolate, p) && r@ == echoed(p, input@.rendered),
    {
        let prompt = self.effective_prompt(interpolate);
        echo_prompt(prompt.as_str(), input.render())
    }

    /// The messages that the prompt and an input make.
    pub fn build_messages<F: Fn(&str) -> String>(&self, input: &Input, interpolate: &F) -> (r: Vec<
        Message,
    >)
        requires
            closure::takes_all(*interpolate),
        ensures
            builds(self@, *interpolate, input@, message::messages_of(r@)),
    {
        let prompt = self.effective_prompt(interpolate);
        build_messages_from(prompt.as_str(), input)
    }
}

/// `out` are the messages that the prompt of a role and an input make.
pub open spec fn builds<F: Fn(&str) -> String>(
    role: RoleModel,
    interpolate: F,
    input: InputModel,
    out: Seq<MessageModel>,
) -> bool {
    exists|p: Seq<char>| #[trigger] effective(role, interpolate, p) && out == built(p, input)
}

// ---- Display ----

/// The lines of a list of conversation starters.
pub open spec fn starter_lines(starters: Seq<Seq<char>>) -> Seq<Seq<char>> {
    Seq::new(starters.len(), |i: int| "- "@ + starters[i])
}

/// The words with which an agent presents itself.
pub open spec fn banner_text(role: RoleModel) -> Seq<char> {
    "# "@ + role.name + " "@ + role.version + "\n"@ + role.description + if
        role.conversation_starters.len() == 0 {
        seq![]
    } else {
        "\n\n## Conversation Starters\n"@ + text::joined(
            starter_lines(role.conversation_starters),
            "\n"@,
        )
    }
}

impl Role {
    /// The words with which an agent presents itself.
    pub fn banner(&self) -> (r: String)
        ensures
            r@ == banner_text(self@),
    {
        let mut starters = String::new();
        proof {
            assert(starters@ =~= seq![]);
        }
        if !self.conversation_starters.is_empty() {
            let mut lines: Vec<String> = Vec::new();
            let mut i: usize = 0;
            while i < self.conversation_starters.len()
                invariant
                    i <= self.conversation_starters@.len(),
                    lines@.len() == i,
                    forall|k: int|
                        0 <= k < i ==> (#[trigger] lines@[k])@ == "- "@
                            + self.conversation_starters@[k]@,
                decreases self.conversation_starters@.len() - i,
            {
                let mut line = "- ".to_owned();
                line.append(self.conversation_starters[i].as_str());
                lines.push(line);
                i += 1;
            }
            proof {
                assert(text::texts(lines@) =~= starter_lines(
                    text::texts(self.conversation_starters@),
                ));
            }
            let listed = text::join(&lines, "\n");
            starters = "\n\n## Conversation Starters\n".to_owned();
            starters.append(listed.as_str());
        }
        let mut out = "# ".to_owned();
        out.append(self.name.as_str());
        out.append(" ");
        out.append(self.version.as_str());
        out.append("\n");
        out.append(self.description.as_str());
        out.append(starters.as_str());
        out
    }

    pub fn functions(&self) -> (r: &Functions)
        ensures
            r@ == self@.functions,
    {
        &self.functions
    }

    pub fn rag(&self) -> (r: Option<Rag>)
        ensures
            r == self@.rag,
    {
        self.rag
    }

    pub fn set_rag(&mut self, rag: Option<Rag>)
        ensures
            final(self)@ == (RoleModel { rag, ..old(self)@ }),
    {
        self.rag = rag;
    }

    pub fn conversation_staters(&self) -> (r: &[String])
        ensures
            text::texts(r@) == self@.conversation_starters,
    {
        self.conversation_starters.as_slice()
    }

    pub fn shared_variables(&self) -> (r: &AgentVariables)
        ensures
            agent::variables_in(*r) == self@.shared_variables,
    {
        &self.shared_variables
    }

    pub fn set_shared_variables(&mut self, shared_variables: AgentVariables)
        ensures
            final(self)@ == (RoleModel {
                shared_variables: agent::variables_in(shared_variables),
                ..old(self)@
            }),
    {
        self.shared_variables = shared_variables;
    }

    pub fn set_session_variables(&mut self, session_variables: AgentVariables)
        ensures
            final(self)@ == (RoleModel {
                session_variables: Some(agent::variables_in(session_variables)),
                ..old(self)@
            }),
    {
        self.session_variables = Some(session_variables);
    }

    pub fn defined_variables(&self) -> (r: &[AgentVariable])
        ensures
            agent::declared(r@) == self@.variables,
    {
        self.variables.as_slice()
    }

    /// Forgets what belongs to a session.
    pub fn exit_session(&mut self)
        ensures
            final(self)@ == without_session(old(self)@),
    {
        self.session_variables = None;
        self.session_dynamic_instructions = None;
    }

    pub fn is_dynamic_instructions(&self) -> (r: bool)
        ensures
            r == self@.dynamic_instructions,
    {
        self.dynamic_instructions
    }

    /// Gives the role another name, under which it is saved.
    pub fn rename(&mut self, new_name: &str)
        ensures
            final(self)@ == (RoleModel { name: new_name@, ..old(self)@ }),
    {
        if !text::same_text(new_name, self.name.as_str()) {
            self.name = new_name.to_owned();
        }
    }
}

/// A role without what belongs to a session.
pub open spec fn without_session(role: RoleModel) -> RoleModel {
    RoleModel { session_variables: None, session_dynamic_instructions: None, ..role }
}

/// Outside a session an agent answers with the shared variables and instructions,
/// whatever was set in the session before.
pub proof fn exit_session_restores_what_is_shared(role: RoleModel)
    ensures
        current_variables(without_session(role)) == role.shared_variables,
        instructions(without_session(role)) == (match role.shared_dynamic_instructions {
            Some(t) => t,
            None => role.prompt,
        }),
{
}

// ---- Environment of an agent's functions ----

/// `names` are the names of some variables as `normalize` writes them.
pub open spec fn normalized<F: Fn(&str) -> String>(
    variables: Seq<(Seq<char>, Seq<char>)>,
    normalize: F,
    names: Seq<Seq<char>>,
) -> bool {
    &&& names.len() == variables.len()
    &&& forall|i: int|
        0 <= i < variables.len() ==> closure::gives(
            normalize,
            variables[i].0,
            #[trigger] names[i],
        )
}

/// Variables under the names that programs see.
pub open spec fn env_entries(
    variables: Seq<(Seq<char>, Seq<char>)>,
    names: Seq<Seq<char>>,
) -> Seq<(Seq<char>, Seq<char>)> {
    Seq::new(variables.len(), |i: int| ("LLM_AGENT_VAR_"@ + names[i], variables[i].1))
}

/// `envs` are variables as the programs of an agent's functions see them; of two
/// with the same name, the later counts.
pub open spec fn variable_envs_are<F: Fn(&str) -> String>(
    variables: Seq<(Seq<char>, Seq<char>)>,
    normalize: F,
    envs: Seq<(Seq<char>, Seq<char>)>,
) -> bool {
    exists|names: Seq<Seq<char>>| #[trigger]
        normalized(variables, normalize, names) && envs == table::put_all(
            seq![],
            env_entries(variables, names),
        )
}

impl Role {
    /// The variables as the programs of the agent's functions see them.
    pub fn variable_envs<F: Fn(&str) -> String>(&self, normalize: &F) -> (r: Table<String>)
        requires
            closure::takes_all(*normalize),
        ensures
            variable_envs_are(current_variables(self@), *normalize, table::texts_under(r@)),
    {
        let variables = self.variables();
        let ghost all = agent::variables_in(*variables);
        let ghost mut names: Seq<Seq<char>> = seq![];
        let mut envs: Table<String> = Table::new();
        let n: usize = agent::variable_count(variables);
        let mut i: usize = 0;
        proof {
            assert(env_entries(all.take(0), names) =~= seq![]);
            assert(table::texts_under(envs@) =~= seq![]);
        }
        while i < n
            invariant
                i <= n,
                n == all.len(),
                all == agent::variables_in(*variables),
                closure::takes_all(*normalize),
                normalized(all.take(i as int), *normalize, names),
                table::texts_under(envs@) == table::put_all(
                    seq![],
                    env_entries(all.take(i as int), names),
                ),
            decreases n - i,
        {
            if let Some((key, value)) = agent::variable_at(variables, i) {
                let name = closure::apply(normalize, key.as_str());
                let mut full = "LLM_AGENT_VAR_".to_owned();
                full.append(name.as_str());
                let ghost before = envs@;
                let ghost entries = env_entries(all.take(i as int), names);
                proof {
                    let more = names.push(name@);
                    table::texts_under_put(before, full@, *value);
                    let next = env_entries(all.take(i + 1), more);
                    assert(next.drop_last() =~= entries);
                    assert(next.last() == (full@, value@));
                    assert forall|k: int| 0 <= k < i + 1 implies closure::gives(
                        *normalize,
                        all.take(i + 1)[k].0,
                        #[trigger] more[k],
                    ) by {
                        if k < i {
                            assert(closure::gives(*normalize, all.take(i as int)[k].0, names[k]));
                        }
                    }
                    names = more;
                }
                envs.insert(full, value.clone());
            }
            i += 1;
        }
        proof {
            assert(all.take(i as int) =~= all);
        }
        envs
    }
}

// ---- What roles and sessions have in common ----

/// What answers with a model and settings.
pub trait RoleLike {
    spec fn settings_of(&self) -> SettingsModel;

    spec fn model_of(&self) -> ModelModel;

    spec fn rag_of(&self) -> Option<Rag>;

    /// A role that answers in the same way.
    fn to_role<F: Fn(&str) -> String>(&self, interpolate: &F) -> (r: Role)
        requires
            closure::takes_all(*interpolate),
        ensures
            r@.kind is Role,
            r@.rag == self.rag_of(),
            r@.model == self.model_of(),
    ;

    fn model(&self) -> (r: &Model)
        ensures
            r@ == self.model_of(),
    ;

    fn temperature(&self) -> (r: Option<Real>)
        ensures
            model::real_of(r) == self.settings_of().temperature,
    ;

    fn top_p(&self) -> (r: Option<Real>)
        ensures
            model::real_of(r) == self.settings_of().top_p,
    ;

    fn use_tools(&self) -> (r: Option<String>)
        ensures
            text::optional(r) == self.settings_of().use_tools,
    ;

    fn use_agents(&self) -> (r: Option<String>)
        ensures
            text::optional(r) == self.settings_of().use_agents,
    ;

    fn max_spawn_depth(&self) -> (r: Option<usize>)
        ensures
            r == self.settings_of().max_spawn_depth,
    ;

    fn max_subagent_turns(&self) -> (r: Option<usize>)
        ensures
            r == self.settings_of().max_subagent_turns,
    ;

    fn rag(&self) -> (r: Option<Rag>)
        ensures
            r == self.rag_of(),
    ;

    fn set_model<C: Fn(&Model, &Vec<Message>) -> usize>(&mut self, model: Model, count: &C)
        requires
            closure::counts_all(*count),
        ensures
            final(self).model_of().id == model@.id,
            final(self).rag_of() == old(self).rag_of(),
    ;

    fn set_temperature(&mut self, value: Option<Real>)
        ensures
            changed_to(
                old(self).settings_of().temperature,
                model::real_of(value),
                final(self).settings_of().temperature,
            ),
            final(self).model_of() == old(self).model_of(),
            final(self).rag_of() == old(self).rag_of(),
    ;

    fn set_top_p(&mut self, value: Option<Real>)
        ensures
            changed_to(
                old(self).settings_of().top_p,
                model::real_of(value),
                final(self).settings_of().top_p,
            ),
            final(self).model_of() == old(self).model_of(),
            final(self).rag_of() == old(self).rag_of(),
    ;

    fn set_use_tools(&mut self, value: Option<String>)
        ensures
            final(self).settings_of() == (SettingsModel {
                use_tools: text::optional(value),
                ..old(self).settings_of()
            }),
            final(self).model_of() == old(self).model_of(),
            final(self).rag_of() == old(self).rag_of(),
    ;

    fn set_use_agents(&mut self, value: Option<String>)
        ensures
            final(self).settings_of() == (SettingsModel {
                use_agents: text::optional(value),
                ..old(self).settings_of()
            }),
            final(self).model_of() == old(self).model_of(),
            final(self).rag_of() == old(self).rag_of(),
    ;

    fn set_max_spawn_depth(&mut self, value: Option<usize>)
        ensures
            final(self).settings_of() == (SettingsModel {
                max_spawn_depth: value,
                ..old(self).settings_of()
            }),
            final(self).model_of() == old(self).model_of(),
            final(self).rag_of() == old(self).rag_of(),
    ;

    fn set_max_subagent_turns(&mut self, value: Option<usize>)
        ensures
            final(self).settings_of() == (SettingsModel {
                max_subagent_turns: value,
                ..old(self).settings_of()
            }),
            final(self).model_of() == old(self).model_of(),
            final(self).rag_of() == old(self).rag_of(),
    ;

    fn set_rag(&mut self, value: Option<Rag>)
        ensures
            final(self).rag_of() == value,
            final(self).settings_of() == old(self).settings_of(),
            final(self).model_of() == old(self).model_of(),
    ;
}

/// A number was set, or it stayed where the new one compares as equal.
pub open spec fn changed_to(
    before: Option<RealModel>,
    value: Option<RealModel>,
    after: Option<RealModel>,
) -> bool {
    after == value || (model::same_setting(before, value) && after == before)
}

/// A role after it was given another model: the id is noted where the role had a
/// model before.
pub open spec fn with_model(role: RoleModel, m: ModelModel) -> RoleModel {
    RoleModel {
        settings: if role.model.id.len() == 0 {
            role.settings
        } else {
            SettingsModel { model_id: Some(m.id), ..role.settings }
        },
        model: m,
        ..role
    }
}

impl Role {
    /// Gives the role a model.
    fn put_model(&mut self, model: Model)
        ensures
            final(self)@ == with_model(old(self)@, model@),
    {
        if !self.model.id.as_str().is_empty() {
            self.settings.model_id = Some(model.id());
        }
        self.model = model;
    }
}

impl RoleLike for Role {
    open spec fn settings_of(&self) -> SettingsModel {
        self@.settings
    }

    open spec fn model_of(&self) -> ModelModel {
        self@.model
    }

    open spec fn rag_of(&self) -> Option<Rag> {
        self@.rag
    }

    fn to_role<F: Fn(&str) -> String>(&self, interpolate: &F) -> (r: Role)
        ensures
            exists|p: Seq<char>| #[trigger]
                effective(self@, *interpolate, p) && r@ == (RoleModel {
                    kind: RoleKind::Role,
                    prompt: p,
                    ..self@
                }),
    {
        let mut role = self.clone();
        role.kind = RoleKind::Role;
        role.prompt = self.effective_prompt(interpolate);
        role
    }

    fn model(&self) -> (r: &Model) {
        &self.model
    }

    fn temperature(&self) -> (r: Option<Real>) {
        self.settings.temperature.clone()
    }

    fn top_p(&self) -> (r: Option<Real>) {
        self.settings.top_p.clone()
    }

    fn use_tools(&self) -> (r: Option<String>) {
        self.settings.use_tools.clone()
    }

    fn use_agents(&self) -> (r: Option<String>) {
        self.settings.use_agents.clone()
    }

    fn max_spawn_depth(&self) -> (r: Option<usize>) {
        self.settings.max_spawn_depth
    }

    fn max_subagent_turns(&self) -> (r: Option<usize>) {
        self.settings.max_subagent_turns
    }

    fn rag(&self) -> (r: Option<Rag>) {
        self.rag
    }

    fn set_model<C: Fn(&Model, &Vec<Message>) -> usize>(&mut self, model: Model, count: &C)
        ensures
            final(self)@ == with_model(old(self)@, model@),
    {
        self.put_model(model);
    }

    fn set_temperature(&mut self, value: Option<Real>)
        ensures
            final(self)@ == (RoleModel {
                settings: SettingsModel {
                    temperature: model::real_of(value),
                    ..old(self)@.settings
                },
                ..old(self)@
            }),
    {
        self.settings.temperature = value;
    }

    fn set_top_p(&mut self, value: Option<Real>)
        ensures
            final(self)@ == (RoleModel {
                settings: SettingsModel { top_p: model::real_of(value), ..old(self)@.settings },
                ..old(self)@
            }),
    {
        self.settings.top_p = value;
    }

    fn set_use_tools(&mut self, value: Option<String>)
        ensures
            final(self)@ == (RoleModel {
                settings: SettingsModel { use_tools: text::optional(value), ..old(self)@.settings },
                ..old(self)@
            }),
    {
        self.settings.use_tools = value;
    }

    fn set_use_agents(&mut self, value: Option<String>)
        ensures
            final(self)@ == (RoleModel {
                settings: SettingsModel {
                    use_agents: text::optional(value),
                    ..old(self)@.settings
                },
                ..old(self)@
            }),
    {
        self.settings.use_agents = value;
    }

    fn set_max_spawn_depth(&mut self, value: Option<usize>)
        ensures
            final(self)@ == (RoleModel {
                settings: SettingsModel { max_spawn_depth: value, ..old(self)@.settings },
                ..old(self)@
            }),
    {
        self.settings.max_spawn_depth = value;
    }

    fn set_max_subagent_turns(&mut self, value: Option<usize>)
        ensures
            final(self)@ == (RoleModel {
                settings: SettingsModel { max_subagent_turns: value, ..old(self)@.settings },
                ..old(self)@
            }),
    {
        self.settings.max_subagent_turns = value;
    }

    fn set_rag(&mut self, value: Option<Rag>)
        ensures
            final(self)@ == (RoleModel { rag: value, ..old(self)@ }),
    {
        self.rag = value;
    }
}

/// A role after it took over the model and the settings of another; a setting
/// that is open there stays as it was.
pub open spec fn synced(role: RoleModel, m: ModelModel, s: SettingsModel) -> RoleModel {
    let named = with_model(role, m);
    RoleModel {
        settings: settings::overlaid(named.settings, SettingsModel { model_id: None, ..s }),
        ..named
    }
}

impl Role {
    /// Takes over a model and settings.
    pub(crate) fn take_over(&mut self, model: Model, settings: RoleSettings)
        ensures
            final(self)@ == synced(old(self)@, model@, settings@),
    {
        self.put_model(model);
        let mut top = settings;
        top.model_id = None;
        self.settings.merge_from(&top);
    }

    /// Takes over the model and the settings of another.
    pub fn sync<T: RoleLike>(&mut self, role_like: &T)
        ensures
            final(self)@ == synced(old(self)@, role_like.model_of(), role_like.settings_of()),
    {
        let settings = RoleSettings {
            model_id: None,
            temperature: role_like.temperature(),
            top_p: role_like.top_p(),
            use_tools: role_like.use_tools(),
            use_agents: role_like.use_agents(),
            max_spawn_depth: role_like.max_spawn_depth(),
            max_subagent_turns: role_like.max_subagent_turns(),
        };
        self.take_over(role_like.model().clone(), settings);
    }
}

// ---- What a role's text becomes ----

/// Every mark of a variable is filled in, however many there are, and the pieces
/// between them stay as they are.
pub proof fn every_mark_is_filled_in(
    pieces: Seq<Seq<char>>,
    name: Seq<char>,
    value: Seq<char>,
)
    requires
        pieces.len() > 0,
        forall|i: int| 0 <= i < pieces.len() ==> !(#[trigger] pieces[i]).contains('{'),
    ensures
        substituted(text::joined(pieces, "{{"@ + name + "}}"@), seq![(name, value)])
            == text::joined(pieces, value),
{
    reveal_strlit("{{");
    reveal_strlit("}}");
    let mark = "{{"@ + name + "}}"@;
    let variables = seq![(name, value)];
    assert(mark[0] == '{');
    assert(variables.drop_last() =~= seq![]);
    assert(substituted(text::joined(pieces, mark), variables.drop_last()) == text::joined(
        pieces,
        mark,
    ));
    text::replacing_fills_every_mark(pieces, mark, value);
}

/// What stands for a name in a text: the value of the variable, or else the mark
/// itself.
pub open spec fn filled_in(name: Seq<char>, variables: Seq<(Seq<char>, Seq<char>)>) -> Seq<char> {
    match table::lookup(variables, name) {
        Some(value) => value,
        None => "{{"@ + name + "}}"@,
    }
}

/// Pieces of text with what stands for a name behind each but the last.
pub open spec fn filled_text(
    pieces: Seq<Seq<char>>,
    names: Seq<Seq<char>>,
    variables: Seq<(Seq<char>, Seq<char>)>,
) -> Seq<char>
    decreases names.len(),
{
    if names.len() == 0 {
        pieces[0]
    } else {
        pieces[0] + filled_in(names[0], variables) + filled_text(
            pieces.skip(1),
            names.skip(1),
            variables,
        )
    }
}

/// A text without braces.
pub open spec fn is_braceless(t: Seq<char>) -> bool {
    forall|i: int| 0 <= i < t.len() ==> (#[trigger] t[i]) != '{' && t[i] != '}'
}

/// No text of a list has braces.
pub open spec fn are_braceless(v: Seq<Seq<char>>) -> bool {
    forall|i: int| 0 <= i < v.len() ==> is_braceless(#[trigger] v[i])
}

/// No variable has braces in its name or its value, and none has the name of
/// another.
pub open spec fn are_plain_variables(variables: Seq<(Seq<char>, Seq<char>)>) -> bool {
    &&& table::distinct_keys(variables)
    &&& forall|i: int|
        0 <= i < variables.len() ==> is_braceless((#[trigger] variables[i]).0) && is_braceless(
            variables[i].1,
        )
}

/// Each mark in a text is filled in with the value of its variable, wherever it
/// stands and however often; a mark that no variable has stays, and so does all
/// other text.
pub proof fn each_mark_gets_its_own_value(
    pieces: Seq<Seq<char>>,
    names: Seq<Seq<char>>,
    variables: Seq<(Seq<char>, Seq<char>)>,
)
    requires
        pieces.len() == names.len() + 1,
        are_braceless(pieces),
        are_braceless(names),
        are_plain_variables(variables),
    ensures
        substituted(filled_text(pieces, names, seq![]), variables) == filled_text(
            pieces,
            names,
            variables,
        ),
    decreases variables.len(),
{
    if variables.len() == 0 {
        assert(variables =~= seq![]);
    } else {
        let before = variables.drop_last();
        let last = variables.last();
        assert forall|i: int, j: int| 0 <= i < j < before.len() implies (#[trigger] before[i]).0
            != (#[trigger] before[j]).0 by {
            assert(variables[i].0 != variables[j].0);
        }
        assert forall|i: int| 0 <= i < before.len() implies is_braceless((#[trigger] before[i]).0)
            && is_braceless(before[i].1) && before[i].0 != last.0 by {
            assert(before[i] == variables[i]);
            assert(variables[variables.len() - 1] == last);
        }
        each_mark_gets_its_own_value(pieces, names, before);
        assert(is_braceless(last.0) && is_braceless(last.1));
        table::put_new(before, last.0, last.1);
        assert(variables =~= before.push(last));
        one_more_variable_is_filled_in(pieces, names, before, last.0, last.1);
    }
}

/// Replacing the mark of one more variable fills in just that variable.
proof fn one_more_variable_is_filled_in(
    pieces: Seq<Seq<char>>,
    names: Seq<Seq<char>>,
    variables: Seq<(Seq<char>, Seq<char>)>,
    name: Seq<char>,
    value: Seq<char>,
)
    requires
        pieces.len() == names.len() + 1,
        are_braceless(pieces),
        are_braceless(names),
        are_plain_variables(variables),
        is_braceless(name),
        forall|i: int| 0 <= i < variables.len() ==> (#[trigger] variables[i]).0 != name,
    ensures
        text::replaced(filled_text(pieces, names, variables), variable_mark(name), value)
            == filled_text(pieces, names, table::put(variables, name, value)),
    decreases names.len(),
{
    reveal_strlit("{{");
    reveal_strlit("}}");
    let mark = variable_mark(name);
    let more = table::put(variables, name, value);
    let first = pieces[0];
    assert(mark[0] == '{');
    assert(is_braceless(first));
    if names.len() == 0 {
        assert(!text::occurs(first, mark)) by {
            assert forall|i: int| !text::occurs_at(first, mark, i) by {
                if text::occurs_at(first, mark, i) {
                    assert(first.subrange(i, i + mark.len())[0] == first[i]);
                }
            }
        }
        text::replaced_without_occurrence(first, mark, value);
    } else {
        let n = names[0];
        let rest = filled_text(pieces.skip(1), names.skip(1), variables);
        let part = filled_in(n, variables);
        assert(is_braceless(n));
        assert forall|i: int| 0 <= i < pieces.skip(1).len() implies is_braceless(
            #[trigger] pieces.skip(1)[i],
        ) by {
            assert(pieces.skip(1)[i] == pieces[i + 1]);
        }
        assert forall|i: int| 0 <= i < names.skip(1).len() implies is_braceless(
            #[trigger] names.skip(1)[i],
        ) by {
            assert(names.skip(1)[i] == names[i + 1]);
        }
        one_more_variable_is_filled_in(pieces.skip(1), names.skip(1), variables, name, value);
        table::lookup_after_put(variables, name, value, n);
        table::lookup_finds(variables, name);
        table::lookup_finds(variables, n);
        let s = first + part + rest;
        assert forall|i: int| 0 <= i < first.len() implies !text::occurs_at(s, mark, i) by {
            if text::occurs_at(s, mark, i) {
                assert(s.subrange(i, i + mark.len())[0] == s[i]);
                assert(s[i] == first[i]);
            }
        }
        if n == name {
            text::replacing_takes_the_first_mark(first, mark, rest, value);
        } else {
            let before = first + part;
            assert forall|i: int| 0 <= i < before.len() implies !text::occurs_at(
                before + rest,
                mark,
                i,
            ) by {
                if i >= first.len() && text::occurs_at(s, mark, i) {
                    assert(s.subrange(i, i + mark.len())[0] == s[i]);
                    assert(s.subrange(i, i + mark.len())[1] == s[i + 1]);
                    assert(s[i] == part[i - first.len()]);
                    match table::lookup(variables, n) {
                        Some(v) => {
                            let k = choose|k: int|
                                0 <= k < variables.len() && #[trigger] variables[k] == (n, v);
                            assert(is_braceless(variables[k].1));
                        },
                        None => {
                            assert(s.subrange(
                                first.len() as int,
                                first.len() as int + n.len() + 4,
                            ) =~= part);
                            other_marks_differ(n, name, s, first.len() as int, i);
                        },
                    }
                }
            }
            text::replacing_passes_by_other_text(before, rest, mark, value);
            assert(before + text::replaced(rest, mark, value) =~= first + part + text::replaced(
                rest,
                mark,
                value,
            ));
        }
    }
}

/// In the mark of one name, the mark of another does not begin.
proof fn other_marks_differ(n: Seq<char>, name: Seq<char>, s: Seq<char>, from: int, i: int)
    requires
        is_braceless(n),
        is_braceless(name),
        n != name,
        0 <= from <= i < from + n.len() + 4,
        from + n.len() + 4 <= s.len(),
        s.subrange(from, from + n.len() + 4) == "{{"@ + n + "}}"@,
    ensures
        !text::occurs_at(s, "{{"@ + name + "}}"@, i),
{
    reveal_strlit("{{");
    reveal_strlit("}}");
    let other = "{{"@ + n + "}}"@;
    let mark = "{{"@ + name + "}}"@;
    if text::occurs_at(s, mark, i) {
        let here = s.subrange(i, i + mark.len());
        assert forall|k: int| 0 <= k < other.len() implies s[from + k] == other[k] by {
            assert(s.subrange(from, from + n.len() + 4)[k] == s[from + k]);
        }
        assert forall|k: int| 0 <= k < mark.len() implies s[i + k] == mark[k] by {
            assert(here[k] == s[i + k]);
        }
        let d = i - from;
        assert(s[i + 0] == mark[0]);
        assert(s[i + 1] == mark[1]);
        assert(s[from + d] == other[d]);
        if d == 0 {
            if n.len() < name.len() {
                let k = n.len() as int;
                assert(other[2 + k] == '}');
                assert(mark[2 + k] == name[k]);
            } else if n.len() > name.len() {
                let k = name.len() as int;
                assert(mark[2 + k] == '}');
                assert(other[2 + k] == n[k]);
            } else {
                assert forall|k: int| 0 <= k < n.len() implies n[k] == name[k] by {
                    assert(other[2 + k] == n[k]);
                    assert(mark[2 + k] == name[k]);
                }
                assert(n =~= name);
            }
        } else if d == 1 {
            assert(s[from + 2] == other[2]);
            if n.len() > 0 {
                assert(other[2] == n[0]);
            }
        } else if d < n.len() + 2 {
            assert(other[d] == n[d - 2]);
        } else {
            assert(other[d] == '}');
        }
    }
}

/// An agent is told its instructions with the value of each of its variables in
/// them: those of the session where there are any, else those that are shared. The
/// instructions are those that were made for the session, else those that were
/// made for all sessions, else its prompt.
pub proof fn agents_are_told_their_variables<F: Fn(&str) -> String>(
    role: RoleModel,
    interpolate: F,
    out: Seq<char>,
    pieces: Seq<Seq<char>>,
    names: Seq<Seq<char>>,
    variables: Seq<(Seq<char>, Seq<char>)>,
)
    requires
        role.kind is Agent,
        effective(role, interpolate, out),
        match role.session_dynamic_instructions {
            Some(t) => t,
            None => match role.shared_dynamic_instructions {
                Some(t) => t,
                None => role.prompt,
            },
        } == filled_text(pieces, names, seq![]),
        variables == match role.session_variables {
            Some(v) => v,
            None => role.shared_variables,
        },
        pieces.len() == names.len() + 1,
        are_braceless(pieces),
        are_braceless(names),
        are_plain_variables(variables),
    ensures
        closure::gives(interpolate, filled_text(pieces, names, variables), out),
{
    each_mark_gets_its_own_value(pieces, names, variables);
}

/// What a plain role is told is its prompt.
pub proof fn plain_roles_are_told_their_prompt<F: Fn(&str) -> String>(
    role: RoleModel,
    interpolate: F,
    out: Seq<char>,
)
    requires
        role.kind is Role,
    ensures
        effective(role, interpolate, out) <==> out == role.prompt,
{
}

/// Each variable is handed to programs under its own name behind the common
/// prefix, with its value; where several come to one name the last counts, and
/// nothing else is handed over.
pub proof fn variables_are_handed_to_programs<F: Fn(&str) -> String>(
    variables: Seq<(Seq<char>, Seq<char>)>,
    normalize: F,
    envs: Seq<(Seq<char>, Seq<char>)>,
) -> (names: Seq<Seq<char>>)
    requires
        variable_envs_are(variables, normalize, envs),
    ensures
        names.len() == variables.len(),
        forall|i: int|
            0 <= i < variables.len() ==> closure::gives(
                normalize,
                variables[i].0,
                #[trigger] names[i],
            ),
        forall|i: int|
            0 <= i < variables.len() && (forall|j: int|
                i < j < variables.len() ==> #[trigger] names[j] != names[i]) ==> table::lookup(
                envs,
                "LLM_AGENT_VAR_"@ + #[trigger] names[i],
            ) == Some(variables[i].1),
        forall|key: Seq<char>|
            #[trigger] table::lookup(envs, key) is Some ==> exists|i: int|
                0 <= i < variables.len() && key == "LLM_AGENT_VAR_"@ + #[trigger] names[i],
{
    let names = choose|names: Seq<Seq<char>>| #[trigger]
        normalized(variables, normalize, names) && envs == table::put_all(
            seq![],
            env_entries(variables, names),
        );
    let entries = env_entries(variables, names);
    let prefix = "LLM_AGENT_VAR_"@;
    assert forall|i: int|
        0 <= i < variables.len() && (forall|j: int|
            i < j < variables.len() ==> #[trigger] names[j] != names[i]) implies table::lookup(
        envs,
        prefix + #[trigger] names[i],
    ) == Some(variables[i].1) by {
        assert forall|j: int| i < j < entries.len() implies (#[trigger] entries[j]).0
            != entries[i].0 by {
            assert(names[j] != names[i]);
            assert((prefix + names[j]).skip(prefix.len() as int) =~= names[j]);
            assert((prefix + names[i]).skip(prefix.len() as int) =~= names[i]);
        }
        table::last_put_counts(seq![], entries, i);
    }
    assert forall|key: Seq<char>| #[trigger] table::lookup(envs, key) is Some implies exists|i: int|
        0 <= i < variables.len() && key == "LLM_AGENT_VAR_"@ + #[trigger] names[i] by {
        table::lookup_after_put_all(seq![], entries, key);
        let i = choose|i: int| 0 <= i < entries.len() && (#[trigger] entries[i]).0 == key;
        assert(key == prefix + names[i]);
    }
    names
}

// ---- What a role's messages are ----

/// Without a prompt the input is the one message.
pub proof fn no_prompt_adds_no_message(input: InputModel)
    requires
        input.continue_output is None,
    ensures
        built(seq![], input) == seq![message::plain(MessageRole::User, input.content)],
{
}

/// A prompt with places for the input is one message of the user, in which the
/// text of the input stands in every such place and the rest of the prompt is as it
/// was.
pub proof fn input_goes_in_every_place_for_it(pieces: Seq<Seq<char>>, input: InputModel)
    requires
        pieces.len() > 1,
        forall|i: int| 0 <= i < pieces.len() ==> !(#[trigger] pieces[i]).contains('_'),
        input.continue_output is None,
    ensures
        input.content matches ContentModel::Text(t) ==> built(
            text::joined(pieces, "__INPUT__"@),
            input,
        ) == seq![message::says(MessageRole::User, text::joined(pieces, t))],
        input.content is Array && input.content->Array_0.len() > 0
            && input.content->Array_0[0] is Text ==> built(
            text::joined(pieces, "__INPUT__"@),
            input,
        ) == seq![
            message::plain(
                MessageRole::User,
                ContentModel::Array(
                    seq![PartModel::Text(text::joined(pieces, input_text(input.content)))]
                        + input.content->Array_0.skip(1),
                ),
            ),
        ],
        echoed(text::joined(pieces, "__INPUT__"@), input.rendered) == text::joined(
            pieces,
            input.rendered,
        ),
{
    reveal_strlit("__INPUT__");
    let mark = "__INPUT__"@;
    let prompt = text::joined(pieces, mark);
    assert(mark[0] == '_');
    text::replacing_fills_every_mark(pieces, mark, input.rendered);
    text::joining_begins_with_the_first_part(pieces, mark);
    let n = pieces[0].len() as int;
    assert(prompt.subrange(n, n + mark.len()) =~= mark);
    assert(text::occurs_at(prompt, mark, n));
    match input.content {
        ContentModel::Text(t) => {
            text::replacing_fills_every_mark(pieces, mark, t);
        },
        ContentModel::Array(list) => {
            if list.len() > 0 {
                if let PartModel::Text(t) = list[0] {
                    text::replacing_fills_every_mark(pieces, mark, t);
                    let new = PartModel::Text(text::joined(pieces, t));
                    assert(list.update(0, new) =~= seq![new] + list.skip(1));
                }
            }
        },
    }
}

/// The text that an input begins with.
pub open spec fn input_text(c: ContentModel) -> Seq<char> {
    match c {
        ContentModel::Text(t) => t,
        ContentModel::Array(list) => match list[0] {
            PartModel::Text(t) => t,
            PartModel::ImageUrl(_) => seq![],
        },
    }
}

/// A prompt without a place for the input comes before it: the system text first,
/// unless that is empty, then each scripted input with its reply, then the last
/// scripted input if no reply to it is scripted, and last the input itself. An
/// empty input is left out where a scripted input is waiting.
pub proof fn scripted_turns_come_before_the_input(prompt: Seq<char>, input: InputModel)
    requires
        prompt.len() > 0,
        !text::occurs(prompt, "__INPUT__"@),
        input.continue_output is None,
    ensures
        ({
            let s = prompt::structure(prompt);
            let out = built(prompt, input);
            let from: int = if s.system.len() == 0 {
                0
            } else {
                1
            };
            let behind = from + 2 * s.cases.len();
            let asked: int = if s.dangling is Some {
                1
            } else {
                0
            };
            let own: int = if input.empty && s.dangling is Some {
                0
            } else {
                1
            };
            &&& out.len() == behind + asked + own
            &&& from == 1 ==> out[0] == message::says(MessageRole::System, s.system)
            &&& forall|i: int|
                0 <= i < s.cases.len() ==> out[from + 2 * i] == message::says(
                    MessageRole::User,
                    (#[trigger] s.cases[i]).0,
                ) && out[from + 2 * i + 1] == message::says(MessageRole::Assistant, s.cases[i].1)
            &&& s.dangling matches Some(t) ==> out[behind] == message::says(MessageRole::User, t)
            &&& own == 1 ==> out.last() == message::plain(MessageRole::User, input.content)
        }),
{
    let s = prompt::structure(prompt);
    let out = built(prompt, input);
    let head = system_messages(s.system);
    let cases = case_messages(s.cases);
    let from = head.len() as int;
    cases_take_turns(s.cases);
    assert forall|i: int| 0 <= i < s.cases.len() implies out[from + 2 * i] == message::says(
        MessageRole::User,
        (#[trigger] s.cases[i]).0,
    ) && out[from + 2 * i + 1] == message::says(MessageRole::Assistant, s.cases[i].1) by {
        assert(out[from + 2 * i] == cases[2 * i]);
        assert(out[from + 2 * i + 1] == cases[2 * i + 1]);
    }
}

/// The messages of scripted turns are an input and its reply for each.
proof fn cases_take_turns(cases: Seq<(Seq<char>, Seq<char>)>)
    ensures
        case_messages(cases).len() == 2 * cases.len(),
        forall|i: int|
            0 <= i < cases.len() ==> case_messages(cases)[2 * i] == message::says(
                MessageRole::User,
                (#[trigger] cases[i]).0,
            ) && case_messages(cases)[2 * i + 1] == message::says(
                MessageRole::Assistant,
                cases[i].1,
            ),
    decreases cases.len(),
{
    if cases.len() > 0 {
        let before = cases.drop_last();
        cases_take_turns(before);
        assert forall|i: int| 0 <= i < cases.len() implies case_messages(cases)[2 * i]
            == message::says(MessageRole::User, (#[trigger] cases[i]).0) && case_messages(
            cases,
        )[2 * i + 1] == message::says(MessageRole::Assistant, cases[i].1) by {
            if i < before.len() {
                assert(before[i] == cases[i]);
            }
        }
    }
}

/// A reply that is to be continued stands behind the messages that there would be
/// without it.
pub proof fn continued_reply_comes_last(prompt: Seq<char>, input: InputModel, t: Seq<char>)
    requires
        input.continue_output == Some(t),
    ensures
        built(prompt, input) == built(
            prompt,
            InputModel { continue_output: None, ..input },
        ).push(message::says(MessageRole::Assistant, t)),
{
}

/// The input that a prompt asks by itself is the last scripted input that no reply
/// is scripted to; a prompt with a place for the input asks none.
pub proof fn pending_input_is_the_unanswered_one(prompt: Seq<char>)
    ensures
        text::occurs(prompt, "__INPUT__"@) ==> pending_input(prompt) is None,
        !text::occurs(prompt, "__INPUT__"@) ==> (match prompt::structure(prompt).dangling {
            Some(t) => if t.len() > 0 {
                pending_input(prompt) == Some(t)
            } else {
                pending_input(prompt) is None
            },
            None => pending_input(prompt) is None,
        }),
{
    reveal_strlit("### INPUT:");
    if prompt.len() == 0 {
        assert(!text::occurs(prompt, prompt::marker(true))) by {
            assert forall|i: int| !text::occurs_at(prompt, prompt::marker(true), i) by {}
        }
        prompt::plain_prompt_is_the_system_text(prompt);
    }
}

/// What is shown of an input is the prompt, an empty line and the input; the input
/// alone where there is no prompt.
pub proof fn prompt_is_shown_before_the_input(prompt: Seq<char>, rendered: Seq<char>)
    requires
        !text::occurs(prompt, "__INPUT__"@),
    ensures
        prompt.len() == 0 ==> echoed(prompt, rendered) == rendered,
        prompt.len() > 0 ==> echoed(prompt, rendered) == prompt + seq!['\n', '\n'] + rendered,
{
    reveal_strlit("\n\n");
    assert("\n\n"@ =~= seq!['\n', '\n']);
}

/// The banner names the role and its version, then tells its description, then
/// lists what a conversation may start with, one in a line.
pub proof fn banner_tells_the_role(role: RoleModel)
    ensures
        role.conversation_starters.len() == 0 ==> banner_text(role) == "# "@ + role.name + " "@
            + role.version + "\n"@ + role.description,
        role.conversation_starters.len() > 0 ==> banner_text(role) == banner_text(
            RoleModel { conversation_starters: seq![], ..role },
        ) + "\n\n## Conversation Starters\n"@ + text::joined(
            role.conversation_starters.map_values(|t: Seq<char>| "- "@ + t),
            "\n"@,
        ),
{
    let plain = "# "@ + role.name + " "@ + role.version + "\n"@ + role.description;
    assert(plain + Seq::<char>::empty() =~= plain);
    let lines = starter_lines(role.conversation_starters);
    assert(lines =~= role.conversation_starters.map_values(|t: Seq<char>| "- "@ + t));
    if role.conversation_starters.len() > 0 {
        let title = "\n\n## Conversation Starters\n"@;
        let list = text::joined(lines, "\n"@);
        assert(plain + (title + list) =~= plain + title + list);
    }
}

/// A role takes over every setting that another has, keeps those that the other
/// leaves open, and answers with the other's model; nothing else of it changes.
pub proof fn synced_roles_take_what_is_set(role: RoleModel, m: ModelModel, s: SettingsModel)
    ensures
        ({
            let new = synced(role, m, s);
            &&& new.model == m
            &&& new.settings.temperature == (if s.temperature is Some {
                s.temperature
            } else {
                role.settings.temperature
            })
            &&& new.settings.top_p == (if s.top_p is Some {
                s.top_p
            } else {
                role.settings.top_p
            })
            &&& new.settings.use_tools == (if s.use_tools is Some {
                s.use_tools
            } else {
                role.settings.use_tools
            })
            &&& new.settings.use_agents == (if s.use_agents is Some {
                s.use_agents
            } else {
                role.settings.use_agents
            })
            &&& new.settings.max_spawn_depth == (if s.max_spawn_depth is Some {
                s.max_spawn_depth
            } else {
                role.settings.max_spawn_depth
            })
            &&& new.settings.max_subagent_turns == (if s.max_subagent_turns is Some {
                s.max_subagent_turns
            } else {
                role.settings.max_subagent_turns
            })
            &&& new.settings.model_id == (if role.model.id.len() > 0 {
                Some(m.id)
            } else {
                role.settings.model_id
            })
            &&& new == (RoleModel { model: m, settings: new.settings, ..role })
        }),
{
}

/// A role that is made of a name and a prompt has these and nothing else.
pub proof fn new_roles_are_a_name_and_a_prompt(name: Seq<char>, prompt: Seq<char>)
    ensures
        ({
            let r = plain_role(name, prompt);
            &&& r.kind is Role && r.name == name && r.prompt == prompt
            &&& r.description.len() == 0 && r.version.len() == 0 && !r.dynamic_instructions
            &&& r.variables.len() == 0 && r.conversation_starters.len() == 0 && r.documents.len()
                == 0 && r.functions.len() == 0 && r.shared_variables.len() == 0
            &&& r.rag is None && r.session_variables is None
                && r.shared_dynamic_instructions is None && r.session_dynamic_instructions is None
            &&& r.settings == settings::open_settings()
        }),
{
}

/// A content that begins with an image has no text for the prompt to go into and
/// stays as it is; one without any piece becomes the prompt with nothing in its
/// places for the input.
pub proof fn other_inputs_take_no_prompt(pieces: Seq<Seq<char>>, input: InputModel)
    requires
        pieces.len() > 1,
        forall|i: int| 0 <= i < pieces.len() ==> !(#[trigger] pieces[i]).contains('_'),
        input.continue_output is None,
        input.content is Array,
    ensures
        input.content->Array_0.len() > 0 && input.content->Array_0[0] is ImageUrl ==> built(
            text::joined(pieces, "__INPUT__"@),
            input,
        ) == seq![message::plain(MessageRole::User, input.content)],
        input.content->Array_0.len() == 0 ==> built(text::joined(pieces, "__INPUT__"@), input)
            == seq![
            message::plain(
                MessageRole::User,
                ContentModel::Array(seq![PartModel::Text(text::joined(pieces, seq![]))]),
            ),
        ],
{
    reveal_strlit("__INPUT__");
    let mark = "__INPUT__"@;
    let prompt = text::joined(pieces, mark);
    text::joining_begins_with_the_first_part(pieces, mark);
    let n = pieces[0].len() as int;
    assert(prompt.subrange(n, n + mark.len()) =~= mark);
    assert(text::occurs_at(prompt, mark, n));
    text::replacing_fills_every_mark(pieces, mark, seq![]);
}

/// Variables are filled in one after the other, each from mark to mark: the text
/// before the first mark stays, the value takes the place of the mark, and what
/// follows is treated by itself. A text without the mark stays as it is.
pub proof fn variables_are_filled_in_from_mark_to_mark(
    t: Seq<char>,
    variables: Seq<(Seq<char>, Seq<char>)>,
    more: Seq<(Seq<char>, Seq<char>)>,
    before: Seq<char>,
    name: Seq<char>,
    value: Seq<char>,
    rest: Seq<char>,
)
    requires
        forall|i: int|
            0 <= i < before.len() ==> !text::occurs_at(
                before + ("{{"@ + name + "}}"@) + rest,
                "{{"@ + name + "}}"@,
                i,
            ),
    ensures
        substituted(t, seq![]) == t,
        substituted(t, variables + more) == substituted(substituted(t, variables), more),
        !text::occurs(t, "{{"@ + name + "}}"@) ==> substituted(t, seq![(name, value)]) == t,
        substituted(before + ("{{"@ + name + "}}"@) + rest, seq![(name, value)]) == before + value
            + substituted(rest, seq![(name, value)]),
{
    reveal_strlit("{{");
    let mark = "{{"@ + name + "}}"@;
    assert(mark.len() > 0);
    one_variable_is_filled_in(t, name, value);
    one_variable_is_filled_in(before + mark + rest, name, value);
    one_variable_is_filled_in(rest, name, value);
    text::replacing_takes_the_first_mark(before, mark, rest, value);
    if !text::occurs(t, mark) {
        text::replaced_without_occurrence(t, mark, value);
    }
    later_variables_are_filled_in_later(t, variables, more);
}

/// One variable alone is filled in by replacing its mark.
proof fn one_variable_is_filled_in(t: Seq<char>, name: Seq<char>, value: Seq<char>)
    ensures
        substituted(t, seq![(name, value)]) == text::replaced(t, "{{"@ + name + "}}"@, value),
{
    let one = seq![(name, value)];
    assert(one.drop_last() =~= seq![]);
    assert(substituted(t, one.drop_last()) == t);
}

/// The variables of two lists, one behind the other, are filled in one list after the
/// other.
proof fn later_variables_are_filled_in_later(
    t: Seq<char>,
    variables: Seq<(Seq<char>, Seq<char>)>,
    more: Seq<(Seq<char>, Seq<char>)>,
)
    ensures
        substituted(t, variables + more) == substituted(substituted(t, variables), more),
    decreases more.len(),
{
    if more.len() == 0 {
        assert(variables + more =~= variables);
    } else {
        later_variables_are_filled_in_later(t, variables, more.drop_last());
        assert((variables + more).drop_last() =~= variables + more.drop_last());
        assert((variables + more).last() == more.last());
    }
}

/// The instructions of an agent are those that were made for the session, else those
/// that were made for all sessions, else its prompt; its variables are those of the
/// session, else those that are shared.
pub proof fn nearest_instructions_and_variables_count(role: RoleModel)
    ensures
        role.session_dynamic_instructions is Some ==> instructions(role)
            == role.session_dynamic_instructions->0,
        role.session_dynamic_instructions is None && role.shared_dynamic_instructions is Some
            ==> instructions(role) == role.shared_dynamic_instructions->0,
        role.session_dynamic_instructions is None && role.shared_dynamic_instructions is None
            ==> instructions(role) == role.prompt,
        role.session_variables is Some ==> current_variables(role) == role.session_variables->0,
        role.session_variables is None ==> current_variables(role) == role.shared_variables,
{
}

/// Whatever a prompt with a place for the input holds, it is one message of the user,
/// up to the first place as it is, then the input, and then the rest with the input in
/// its places; and so it is shown.
pub proof fn input_goes_from_place_to_place(
    before: Seq<char>,
    rest: Seq<char>,
    t: Seq<char>,
    input: InputModel,
)
    requires
        forall|i: int|
            0 <= i < before.len() ==> !text::occurs_at(
                before + "__INPUT__"@ + rest,
                "__INPUT__"@,
                i,
            ),
        input.content == ContentModel::Text(t),
        input.continue_output is None,
    ensures
        built(before + "__INPUT__"@ + rest, input) == seq![
            message::says(
                MessageRole::User,
                before + t + text::replaced(rest, "__INPUT__"@, t),
            ),
        ],
        echoed(before + "__INPUT__"@ + rest, input.rendered) == before + input.rendered
            + text::replaced(rest, "__INPUT__"@, input.rendered),
{
    reveal_strlit("__INPUT__");
    let mark = "__INPUT__"@;
    let prompt = before + mark + rest;
    let n = before.len() as int;
    assert(prompt.subrange(n, n + mark.len()) =~= mark);
    assert(text::occurs_at(prompt, mark, n));
    text::replacing_takes_the_first_mark(before, mark, rest, t);
    text::replacing_takes_the_first_mark(before, mark, rest, input.rendered);
}

} // verus!
