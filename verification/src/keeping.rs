//! Saving, loading and showing sessions.

use serde_json::Value;
use vstd::prelude::*;

use crate::closure;
use crate::function::{ToolCall, ToolCallModel};
use crate::json;
use crate::json::JsonModel;
use crate::message;
use crate::message::{ContentModel, Message, MessageContent, MessageModel, MessageRole};
use crate::model::{Model, ModelModel, Real, RealModel};
use crate::render;
use crate::session;
use crate::session::{AutoName, Session, SessionModel, TEMP_SESSION_NAME};
use crate::table;
use crate::text;

verus! {

// ---- Loading ----

/// What the name of a session that was saved without a name starts with: the time
/// at which that was.
pub const AUTONAME_PREFIX: &'static str = "\\d{8}T\\d{6}-";

/// How many bytes of a name the time takes.
pub const AUTONAME_PREFIX_LEN: usize = 16;

/// Whether a match of a regular expression stands somewhere in a text, as
/// `fancy_regex` finds it; not so where it gives up or the expression is none.
pub uninterp spec fn regex_match(pattern: Seq<char>, text: Seq<char>) -> bool;

/// A digit.
pub open spec fn is_digit(c: char) -> bool {
    '0' <= c <= '9'
}

/// A time in the form of a name: eight digits, a `T`, and six digits.
pub open spec fn is_time(t: Seq<char>) -> bool {
    &&& t.len() == 15
    &&& t[8] == 'T'
    &&& forall|i: int| 0 <= i < 15 && i != 8 ==> is_digit(#[trigger] t[i])
}

/// A time stands at a position of a text, with a `-` behind it.
pub open spec fn time_at(text: Seq<char>, i: int) -> bool {
    &&& 0 <= i
    &&& i + 16 <= text.len()
    &&& is_time(text.subrange(i, i + 15))
    &&& text[i + 15] == '-'
}

/// A time stands somewhere in a text, with a `-` behind it.
pub open spec fn holds_time(text: Seq<char>) -> bool {
    exists|i: int| #[trigger] time_at(text, i)
}

/// A text of nothing but ASCII characters.
pub open spec fn is_plain(text: Seq<char>) -> bool {
    forall|i: int| 0 <= i < text.len() ==> (#[trigger] text[i]) <= '\u{7F}'
}

/// Whether a text was found to hold a time, as far as that is spelled out: one with
/// ASCII digits is found, and in an ASCII text nothing else is.
pub open spec fn time_found(text: Seq<char>, found: bool) -> bool {
    &&& holds_time(text) ==> found
    &&& is_plain(text) ==> found == holds_time(text)
}

/// `fancy_regex::Regex::new` and `Regex::is_match`. What they find is named after the
/// expression and the text; beside that, a time with ASCII digits is found, and nothing
/// else is in an ASCII text. The digits of other scripts, which the expression takes
/// too, are not spelled out. The expression is fixed, as there are some on which these
/// functions panic or do not return.
#[verifier::external_body]
fn regex_is_match(pattern: &str, text: &str) -> (r: bool)
    requires
        pattern@ == AUTONAME_PREFIX@,
    ensures
        r == regex_match(pattern@, text@),
        time_found(text@, r),
{
    matches!(fancy_regex::Regex::new(pattern).map(|re| re.is_match(text)), Ok(Ok(true)))
}

/// Whether a time stands in the name of a session.
pub fn has_timestamp(name: &str) -> (r: bool)
    ensures
        r == regex_match(AUTONAME_PREFIX@, name@),
        time_found(name@, r),
{
    regex_is_match(AUTONAME_PREFIX, name)
}

/// The name without the time before it can be told.
pub open spec fn name_follows(name: Seq<char>, timestamped: bool) -> bool {
    match text::without_prefix(name, "_/"@) {
        Some(rest) => timestamped ==> text::at_byte(rest, AUTONAME_PREFIX_LEN as nat) is Some,
        None => true,
    }
}

/// A session that was read from a file. One that was saved without a name has none
/// again, but the name that was made for it, behind the time.
pub open spec fn restored(
    parsed: SessionModel,
    name: Seq<char>,
    path: Seq<char>,
    model: ModelModel,
    role_prompt: Option<Seq<char>>,
    timestamped: bool,
) -> SessionModel {
    let s = SessionModel {
        model,
        role_prompt: match role_prompt {
            Some(p) if parsed.role_name is Some => p,
            _ => parsed.role_prompt,
        },
        ..parsed
    };
    match text::without_prefix(name, "_/"@) {
        Some(rest) => SessionModel {
            name: TEMP_SESSION_NAME@,
            path: None,
            autoname: if timestamped {
                Some(
                    session::autonamed(
                        text::without_bytes(rest, AUTONAME_PREFIX_LEN as nat)->0,
                    ),
                )
            } else {
                parsed.autoname
            },
            ..s
        },
        None => SessionModel { name, path: Some(path), ..s },
    }
}

impl Session {
    /// A session that was read from a file: `model` is the one that it names,
    /// `role_prompt` the prompt of the role that it names, and `timestamped` says
    /// whether a time stands in the file's name.
    pub fn restore<C: Fn(&Model, &Vec<Message>) -> usize>(
        parsed: Session,
        name: &str,
        path: &str,
        model: Model,
        role_prompt: Option<String>,
        timestamped: bool,
        count: &C,
    ) -> (r: Session)
        requires
            closure::counts_all(*count),
            name_follows(name@, timestamped),
        ensures
            session::recounted(
                r@,
                restored(
                    parsed@,
                    name@,
                    path@,
                    model@,
                    text::optional(role_prompt),
                    timestamped,
                ),
                *count,
            ),
    {
        let mut session = parsed;
        session.model = model;
        match text::strip_prefix(name, "_/") {
            Some(rest) => {
                session.name = TEMP_SESSION_NAME.to_owned();
                session.path = None;
                if timestamped {
                    if let Some(made) = text::skip_bytes(rest, AUTONAME_PREFIX_LEN) {
                        session.autoname = Some(AutoName::new(made));
                    }
                }
            },
            None => {
                session.name = name.to_owned();
                session.path = Some(path.to_owned());
            },
        }
        if session.role_name.is_some() {
            if let Some(p) = role_prompt {
                session.role_prompt = p;
            }
        }
        session.update_tokens(count);
        session
    }

    /// A session that was read from a file. `None` where the file's name holds a
    /// time, but no character ends where one at its start would end.
    pub fn load<C: Fn(&Model, &Vec<Message>) -> usize>(
        parsed: Session,
        name: &str,
        path: &str,
        model: Model,
        role_prompt: Option<String>,
        count: &C,
    ) -> (r: Option<Session>)
        requires
            closure::counts_all(*count),
        ensures
            ({
                let timestamped = text::without_prefix(name@, "_/"@) matches Some(rest)
                    && regex_match(AUTONAME_PREFIX@, rest);
                match r {
                    Some(s) => name_follows(name@, timestamped) && session::recounted(
                        s@,
                        restored(
                            parsed@,
                            name@,
                            path@,
                            model@,
                            text::optional(role_prompt),
                            timestamped,
                        ),
                        *count,
                    ),
                    None => !name_follows(name@, timestamped),
                }
            }),
            text::without_prefix(name@, "_/"@) matches Some(rest) ==> time_found(
                rest,
                regex_match(AUTONAME_PREFIX@, rest),
            ),
    {
        let mut timestamped = false;
        if let Some(rest) = text::strip_prefix(name, "_/") {
            timestamped = has_timestamp(rest);
            if timestamped && !text::ends_at_byte(rest, AUTONAME_PREFIX_LEN) {
                return None;
            }
        }
        Some(Session::restore(parsed, name, path, model, role_prompt, timestamped, count))
    }
}

// ---- Saving ----

/// What happened on the way out of a session.
#[derive(Debug)]
pub enum ExitEvent {
    /// The session is to be left.
    Leave,
    /// The user said whether to save it.
    Confirmed(bool),
    /// The user gave a name for it.
    Named(String),
}

/// What is to be done on the way out of a session.
#[derive(Debug)]
pub enum ExitAction {
    /// Nothing more.
    Finish,
    /// Ask the user whether to save it.
    Confirm,
    /// Ask the user for a name.
    AskName,
    /// Save it under a name: among the sessions without a name of their own, or
    /// among the others.
    Save { unnamed: bool, name: String },
}

/// What is to be done on the way out of a session.
pub enum ExitModel {
    Finish,
    Confirm,
    AskName,
    Save { unnamed: bool, name: Seq<char> },
}

impl View for ExitAction {
    type V = ExitModel;

    open spec fn view(&self) -> ExitModel {
        match self {
            ExitAction::Finish => ExitModel::Finish,
            ExitAction::Confirm => ExitModel::Confirm,
            ExitAction::AskName => ExitModel::AskName,
            ExitAction::Save { unnamed, name } => ExitModel::Save {
                unnamed: *unnamed,
                name: name@,
            },
        }
    }
}

/// Whether a session is to be saved, as far as that is set.
pub open spec fn save_wanted(s: SessionModel) -> Option<bool> {
    if s.save_session_this_time {
        Some(true)
    } else {
        s.save_session
    }
}

/// The name under which a session without one is saved: the time, and the name
/// that was made for it.
pub open spec fn stamped_name(s: SessionModel, time: Seq<char>) -> Seq<char> {
    match session::made_name(s) {
        Some(name) => time + "-"@ + name,
        None => time,
    }
}

/// What is to be done on the way out of a session; `time` is when that is.
pub open spec fn exit_action(
    s: SessionModel,
    is_repl: bool,
    event: ExitEvent,
    time: Seq<char>,
) -> ExitModel {
    let save_as_it_is = ExitModel::Save { unnamed: false, name: s.name };
    match event {
        ExitEvent::Leave => if !s.dirty {
            ExitModel::Finish
        } else {
            match save_wanted(s) {
                Some(false) => ExitModel::Finish,
                Some(true) => if s.name == TEMP_SESSION_NAME@ {
                    ExitModel::Save { unnamed: true, name: stamped_name(s, time) }
                } else {
                    save_as_it_is
                },
                None => if is_repl {
                    ExitModel::Confirm
                } else {
                    ExitModel::Finish
                },
            }
        },
        ExitEvent::Confirmed(yes) => if !yes {
            ExitModel::Finish
        } else if s.name == TEMP_SESSION_NAME@ {
            ExitModel::AskName
        } else {
            save_as_it_is
        },
        ExitEvent::Named(name) => ExitModel::Save { unnamed: false, name: name@ },
    }
}

/// How the time is written in a name.
pub const TIME_FORMAT: &'static str = "%Y%m%dT%H%M%S";

/// `chrono::Local::now`, as `DateTime::format` writes it. Nothing is claimed of the
/// time.
#[verifier::external_body]
fn local_time(format: &str) -> (r: String)
    requires
        format@ == TIME_FORMAT@,
{
    chrono::Local::now().format(format).to_string()
}

impl Session {
    /// The name under which the session is saved when it has none of its own.
    pub fn name_at(&self, time: &str) -> (r: String)
        ensures
            r@ == stamped_name(self@, time@),
    {
        let mut name = time.to_owned();
        if let Some(made) = self.autoname() {
            name.append("-");
            name.append(made);
        }
        name
    }

    /// What is to be done on the way out of the session. A session without a name of
    /// its own is saved under the time at which that is.
    pub fn exit(&self, is_repl: bool, event: ExitEvent) -> (r: ExitAction)
        ensures
            exists|time: Seq<char>| r@ == #[trigger] exit_action(self@, is_repl, event, time),
    {
        let now = local_time(TIME_FORMAT);
        self.exit_at(is_repl, event, now.as_str())
    }

    /// What is to be done on the way out of the session at a time.
    pub fn exit_at(&self, is_repl: bool, event: ExitEvent, time: &str) -> (r: ExitAction)
        ensures
            r@ == exit_action(self@, is_repl, event, time@),
    {
        match event {
            ExitEvent::Leave => {
                let save_session = if self.save_session_this_time {
                    Some(true)
                } else {
                    self.save_session
                };
                if !self.dirty {
                    return ExitAction::Finish;
                }
                match save_session {
                    Some(yes) => if !yes {
                        ExitAction::Finish
                    } else if text::same_text(self.name.as_str(), TEMP_SESSION_NAME) {
                        ExitAction::Save { unnamed: true, name: self.name_at(time) }
                    } else {
                        ExitAction::Save { unnamed: false, name: self.name.clone() }
                    },
                    None => if is_repl {
                        ExitAction::Confirm
                    } else {
                        ExitAction::Finish
                    },
                }
            },
            ExitEvent::Confirmed(yes) => if !yes {
                ExitAction::Finish
            } else if text::same_text(self.name.as_str(), TEMP_SESSION_NAME) {
                ExitAction::AskName
            } else {
                ExitAction::Save { unnamed: false, name: self.name.clone() }
            },
            ExitEvent::Named(name) => ExitAction::Save { unnamed: false, name },
        }
    }
}

/// A session with nothing new in it, or one that is not to be saved, is left
/// without a question and without being saved.
pub proof fn exit_without_saving(s: SessionModel, is_repl: bool, time: Seq<char>)
    requires
        !s.dirty || save_wanted(s) == Some(false),
    ensures
        exit_action(s, is_repl, ExitEvent::Leave, time) is Finish,
{
}

/// Outside a dialogue nobody is asked.
pub proof fn exit_asks_only_in_a_dialogue(s: SessionModel, time: Seq<char>)
    ensures
        !(exit_action(s, false, ExitEvent::Leave, time) is Confirm),
        !(exit_action(s, false, ExitEvent::Leave, time) is AskName),
{
}

/// A time takes as many bytes as characters.
proof fn time_in_bytes(t: Seq<char>, n: nat)
    requires
        n == t.len(),
        is_plain(t),
    ensures
        text::at_byte(t, n) == Some(n as int),
    decreases n,
{
    if n > 0 {
        assert forall|i: int| 0 <= i < t.skip(1).len() implies (#[trigger] t.skip(1)[i])
            <= '\u{7F}' by {
            assert(t[i + 1] <= '\u{7F}');
        }
        time_in_bytes(t.skip(1), (n - 1) as nat);
    }
}

/// A name that was made for a session comes back when the session is read again, at
/// whatever time it was saved; `found` says whether a time was found in the name of its
/// file.
pub proof fn made_name_comes_back(
    s: SessionModel,
    time: Seq<char>,
    parsed: SessionModel,
    path: Seq<char>,
    model: ModelModel,
    role_prompt: Option<Seq<char>>,
    found: bool,
)
    requires
        session::made_name(s) is Some,
        is_time(time),
        time_found(stamped_name(s, time), found),
    ensures
        ({
            let name = "_/"@ + stamped_name(s, time);
            let again = restored(parsed, name, path, model, role_prompt, found);
            &&& text::without_prefix(name, "_/"@) == Some(stamped_name(s, time))
            &&& found
            &&& name_follows(name, found)
            &&& again.name == TEMP_SESSION_NAME@
            &&& session::made_name(again) == session::made_name(s)
        }),
{
    let made = session::made_name(s)->0;
    let stamped = stamped_name(s, time);
    let name = "_/"@ + stamped;
    reveal_strlit("-");
    assert("-"@ =~= seq!['-']);
    let front = time.push('-');
    assert(stamped =~= front + made);
    assert("_/"@.is_prefix_of(name));
    assert(name.skip("_/"@.len() as int) =~= stamped);
    assert(stamped.subrange(0, 15) =~= time);
    assert(time_at(stamped, 0));
    assert forall|i: int| 0 <= i < time.len() implies (#[trigger] time[i]) <= '\u{7F}' by {
        if i != 8 {
            assert(is_digit(time[i]));
        }
    }
    time_in_bytes(time, 15);
    text::at_byte_of_push(time, '-', 15);
    text::at_byte_of_longer(front, made, AUTONAME_PREFIX_LEN as nat);
    assert((front + made).skip(front.len() as int) =~= made);
}

/// What is wrong with a name for a session.
pub open spec fn name_fault(input: Seq<char>) -> Option<Seq<char>> {
    let name = text::trimmed(input);
    if name.len() == 0 {
        Some("This name is required"@)
    } else if name == TEMP_SESSION_NAME@ {
        Some("This name is reserved"@)
    } else {
        None
    }
}

/// What is wrong with a name for a session: it must neither be blank nor the one
/// for sessions without a name.
pub fn validate_session_name(input: &str) -> (r: Option<String>)
    ensures
        text::optional(r) == name_fault(input@),
{
    let name = text::trim(input);
    if name.is_empty() {
        Some("This name is required".to_owned())
    } else if text::same_text(name, TEMP_SESSION_NAME) {
        Some("This name is reserved".to_owned())
    } else {
        None
    }
}

/// The file that holds the session of a name.
pub fn session_file(name: &str) -> (r: String)
    ensures
        r@ == name@ + ".yaml"@,
{
    let mut file = name.to_owned();
    file.append(".yaml");
    file
}

impl Session {
    /// Notes where the session is being saved.
    pub fn begin_save(&mut self, path: &str)
        ensures
            final(self)@ == (SessionModel { path: Some(path@), ..old(self)@ }),
    {
        self.path = Some(path.to_owned());
    }

    /// Notes that the session was saved under a name.
    pub fn finish_save(&mut self, session_name: &str)
        ensures
            final(self)@ == (SessionModel { name: session_name@, dirty: false, ..old(self)@ }),
    {
        if !text::same_text(self.name.as_str(), session_name) {
            self.name = session_name.to_owned();
        }
        self.dirty = false;
    }
}

/// A session that was just saved is left without saving it again.
pub proof fn saved_session_is_left_at_once(
    s: SessionModel,
    name: Seq<char>,
    is_repl: bool,
    time: Seq<char>,
)
    ensures
        exit_action(
            SessionModel { name, dirty: false, ..s },
            is_repl,
            ExitEvent::Leave,
            time,
        ) is Finish,
{
}

// ---- Information ----

/// A value in the information about a session.
#[derive(Debug)]
pub enum ExportValue {
    OptionalText(Option<String>),
    Text(String),
    Real(Real),
    Flag(bool),
    Count(usize),
    /// How much of what the model takes in the messages fill, in percent; left out
    /// where that is 0.
    Share,
    /// The messages.
    Messages,
}

/// A value in the information about a session.
pub enum ExportModel {
    OptionalText(Option<Seq<char>>),
    Text(Seq<char>),
    Real(RealModel),
    Flag(bool),
    Count(usize),
    Share,
    Messages,
}

impl View for ExportValue {
    type V = ExportModel;

    open spec fn view(&self) -> ExportModel {
        match self {
            ExportValue::OptionalText(t) => ExportModel::OptionalText(text::optional(*t)),
            ExportValue::Text(t) => ExportModel::Text(t@),
            ExportValue::Real(x) => ExportModel::Real(x@),
            ExportValue::Flag(b) => ExportModel::Flag(*b),
            ExportValue::Count(n) => ExportModel::Count(*n),
            ExportValue::Share => ExportModel::Share,
            ExportValue::Messages => ExportModel::Messages,
        }
    }
}

/// The fields of the information about a session.
pub open spec fn fields_of(v: Seq<(String, ExportValue)>) -> Seq<(Seq<char>, ExportModel)> {
    Seq::new(v.len(), |i: int| (v[i].0@, v[i].1@))
}

/// A field, where there is a value for it.
pub open spec fn optional_field(name: Seq<char>, v: Option<ExportModel>) -> Seq<
    (Seq<char>, ExportModel),
> {
    match v {
        Some(v) => seq![(name, v)],
        None => seq![],
    }
}

/// The number that may be set, as a value.
pub open spec fn real_field(v: Option<RealModel>) -> Option<ExportModel> {
    match v {
        Some(x) => Some(ExportModel::Real(x)),
        None => None,
    }
}

/// The text that may be set, as a value.
pub open spec fn text_field(v: Option<Seq<char>>) -> Option<ExportModel> {
    match v {
        Some(t) => Some(ExportModel::Text(t)),
        None => None,
    }
}

/// The flag that may be set, as a value.
pub open spec fn flag_field(v: Option<bool>) -> Option<ExportModel> {
    match v {
        Some(b) => Some(ExportModel::Flag(b)),
        None => None,
    }
}

/// The count that may be set, as a value.
pub open spec fn count_field(v: Option<usize>) -> Option<ExportModel> {
    match v {
        Some(n) => Some(ExportModel::Count(n)),
        None => None,
    }
}

/// The information about the settings of a session.
pub open spec fn exported_settings(s: SessionModel) -> Seq<(Seq<char>, ExportModel)> {
    optional_field("path"@, Some(ExportModel::OptionalText(s.path))) + optional_field(
        "model"@,
        Some(ExportModel::Text(s.model.id)),
    ) + optional_field("temperature"@, real_field(s.settings.temperature)) + optional_field(
        "top_p"@,
        real_field(s.settings.top_p),
    ) + optional_field("use_tools"@, text_field(s.settings.use_tools)) + optional_field(
        "save_session"@,
        flag_field(s.save_session),
    )
}

/// The information about a session.
pub open spec fn exported(s: SessionModel) -> Seq<(Seq<char>, ExportModel)> {
    exported_settings(s) + optional_field("total_tokens"@, Some(ExportModel::Count(s.tokens)))
        + optional_field("max_input_tokens"@, count_field(s.model.max_input_tokens))
        + optional_field("total/max"@, Some(ExportModel::Share)) + optional_field(
        "messages"@,
        Some(ExportModel::Messages),
    )
}

/// The value, if there is one.
pub open spec fn optional_value(v: Option<ExportValue>) -> Option<ExportModel> {
    match v {
        Some(v) => Some(v@),
        None => None,
    }
}

/// Appends a field, where there is a value for it.
fn push_field(out: &mut Vec<(String, ExportValue)>, name: &str, value: Option<ExportValue>)
    ensures
        fields_of(final(out)@) == fields_of(old(out)@) + optional_field(
            name@,
            optional_value(value),
        ),
{
    let ghost before = fields_of(out@);
    if let Some(v) = value {
        out.push((name.to_owned(), v));
        proof {
            assert(fields_of(out@) =~= before + seq![(name@, v@)]);
        }
    } else {
        proof {
            assert(before + seq![] =~= before);
        }
    }
}

impl Session {
    /// The fields of the information about the settings of the session.
    fn export_settings(&self) -> (r: Vec<(String, ExportValue)>)
        ensures
            fields_of(r@) == exported_settings(self@),
    {
        let mut out: Vec<(String, ExportValue)> = Vec::new();
        push_field(&mut out, "path", Some(ExportValue::OptionalText(self.path.clone())));
        proof {
            let first = optional_field("path"@, Some(ExportModel::OptionalText(self@.path)));
            assert(fields_of(out@) =~= first);
        }
        push_field(&mut out, "model", Some(ExportValue::Text(self.model.id())));
        let temperature = match &self.settings.temperature {
            Some(x) => Some(ExportValue::Real(x.clone())),
            None => None,
        };
        proof {
            assert(optional_value(temperature) == real_field(self@.settings.temperature));
        }
        push_field(&mut out, "temperature", temperature);
        let top_p = match &self.settings.top_p {
            Some(x) => Some(ExportValue::Real(x.clone())),
            None => None,
        };
        proof {
            assert(optional_value(top_p) == real_field(self@.settings.top_p));
        }
        push_field(&mut out, "top_p", top_p);
        let use_tools = match &self.settings.use_tools {
            Some(t) => Some(ExportValue::Text(t.clone())),
            None => None,
        };
        proof {
            assert(optional_value(use_tools) == text_field(self@.settings.use_tools));
        }
        push_field(&mut out, "use_tools", use_tools);
        let save_session = match self.save_session {
            Some(b) => Some(ExportValue::Flag(b)),
            None => None,
        };
        proof {
            assert(optional_value(save_session) == flag_field(self@.save_session));
        }
        push_field(&mut out, "save_session", save_session);
        out
    }

    /// The fields of the information about the session, in order.
    pub fn export(&self) -> (r: Vec<(String, ExportValue)>)
        ensures
            fields_of(r@) == exported(self@),
    {
        let mut out = self.export_settings();
        push_field(&mut out, "total_tokens", Some(ExportValue::Count(self.tokens)));
        let max_input_tokens = match self.model.max_input_tokens {
            Some(n) => Some(ExportValue::Count(n)),
            None => None,
        };
        proof {
            assert(optional_value(max_input_tokens) == count_field(self@.model.max_input_tokens));
        }
        push_field(&mut out, "max_input_tokens", max_input_tokens);
        push_field(&mut out, "total/max", Some(ExportValue::Share));
        push_field(&mut out, "messages", Some(ExportValue::Messages));
        out
    }
}

// ---- Display ----

/// A piece of the display of a session.
#[derive(Debug)]
pub enum RenderItem {
    /// A text as it stands.
    Text(String),
    /// A text to be formatted.
    Markdown(String),
    /// A text to be dimmed.
    Dimmed(String),
    /// What the system said, as it would be typed, to be formatted.
    System(MessageContent),
    /// What the user said, as it was typed.
    User(MessageContent),
    /// What a function gave, with the trace of a subagent.
    Trace { trace: Option<Value>, text: String },
}

/// A piece of the display of a session.
pub enum ItemModel {
    Text(Seq<char>),
    Markdown(Seq<char>),
    Dimmed(Seq<char>),
    System(ContentModel),
    User(ContentModel),
    Trace { trace: Option<JsonModel>, text: Seq<char> },
}

impl View for RenderItem {
    type V = ItemModel;

    open spec fn view(&self) -> ItemModel {
        match self {
            RenderItem::Text(t) => ItemModel::Text(t@),
            RenderItem::Markdown(t) => ItemModel::Markdown(t@),
            RenderItem::Dimmed(t) => ItemModel::Dimmed(t@),
            RenderItem::System(c) => ItemModel::System(c@),
            RenderItem::User(c) => ItemModel::User(c@),
            RenderItem::Trace { trace, text } => ItemModel::Trace {
                trace: match trace {
                    Some(v) => Some(json::json_of(*v)),
                    None => None,
                },
                text: text@,
            },
        }
    }
}

/// The pieces of the display of a session.
pub open spec fn items_of(v: Seq<RenderItem>) -> Seq<ItemModel> {
    Seq::new(v.len(), |i: int| v[i]@)
}

/// A line of the head of the display, where there is a value for it.
pub open spec fn head_line(name: Seq<char>, value: Option<Seq<char>>) -> Seq<ItemModel> {
    match value {
        Some(v) => seq![ItemModel::Text(text::padded(name, 20) + v)],
        None => seq![],
    }
}

/// The decimal text of a number that may be set.
pub open spec fn count_text(n: Option<usize>) -> Option<Seq<char>> {
    match n {
        Some(n) => Some(text::decimal(n as nat)),
        None => None,
    }
}

/// The text of a number that may be set.
pub open spec fn real_text(x: Option<RealModel>) -> Option<Seq<char>> {
    match x {
        Some(x) => Some(x.text),
        None => None,
    }
}

/// The word for a flag that may be set.
pub open spec fn flag_text(b: Option<bool>) -> Option<Seq<char>> {
    match b {
        Some(b) => Some(text::bool_word(b)),
        None => None,
    }
}

/// The first lines of the head of the display of a session.
pub open spec fn first_head_items(s: SessionModel) -> Seq<ItemModel> {
    head_line("path"@, s.path) + head_line("autoname"@, session::made_name(s)) + head_line(
        "model"@,
        Some(s.model.id),
    ) + head_line("temperature"@, real_text(s.settings.temperature)) + head_line(
        "top_p"@,
        real_text(s.settings.top_p),
    )
}

/// The head of the display of a session: its settings, and an empty line.
pub open spec fn head_items(s: SessionModel) -> Seq<ItemModel> {
    first_head_items(s) + head_line("use_tools"@, s.settings.use_tools) + head_line(
        "save_session"@,
        flag_text(s.save_session),
    ) + head_line("compress_threshold"@, count_text(s.compress_threshold)) + head_line(
        "max_input_tokens"@,
        count_text(s.model.max_input_tokens),
    ) + seq![ItemModel::Text(seq![])]
}

/// The name of a function, with that of the agent before it where it is one of
/// the agent's.
pub open spec fn shown_function(
    name: Seq<char>,
    agent_info: Option<(Seq<char>, Seq<Seq<char>>)>,
) -> Seq<char> {
    match agent_info {
        Some((agent, functions)) => if functions.contains(name) {
            agent + "-"@ + name
        } else {
            name
        },
        None => name,
    }
}

/// The line for a call of a function.
pub open spec fn call_item(
    call: ToolCallModel,
    agent_info: Option<(Seq<char>, Seq<Seq<char>>)>,
) -> ItemModel {
    ItemModel::Dimmed(
        "Call "@ + shown_function(call.name, agent_info) + " "@ + json::json_text(call.arguments),
    )
}

/// The lines for the calls of functions.
pub open spec fn call_items(
    calls: Option<Seq<ToolCallModel>>,
    agent_info: Option<(Seq<char>, Seq<Seq<char>>)>,
) -> Seq<ItemModel> {
    match calls {
        Some(v) => Seq::new(v.len(), |i: int| call_item(v[i], agent_info)),
        None => seq![],
    }
}

/// A text to be formatted, unless it is empty.
pub open spec fn markdown_if_any(t: Option<Seq<char>>) -> Seq<ItemModel> {
    match t {
        Some(t) => if t.len() == 0 {
            seq![]
        } else {
            seq![ItemModel::Markdown(t)]
        },
        None => seq![],
    }
}

/// The reasoning behind a message, where it is to be shown.
pub open spec fn thinking(m: MessageModel, show_thinking: bool) -> Option<Seq<char>> {
    match m.reasoning_content {
        Some(t) if show_thinking => Some(render::reasoning_text(t)),
        _ => None,
    }
}

/// The text of a message that is nothing but text.
pub open spec fn plain_text(c: ContentModel) -> Option<Seq<char>> {
    match c {
        ContentModel::Text(t) => Some(t),
        ContentModel::Array(_) => None,
    }
}

/// The display of a message.
pub open spec fn message_items(
    m: MessageModel,
    agent_info: Option<(Seq<char>, Seq<Seq<char>>)>,
    show_thinking: bool,
    show_subagent: bool,
) -> Seq<ItemModel> {
    match m.role {
        MessageRole::System => seq![ItemModel::System(m.content)],
        MessageRole::Assistant => markdown_if_any(thinking(m, show_thinking)) + markdown_if_any(
            plain_text(m.content),
        ) + call_items(m.tool_calls, agent_info) + seq![ItemModel::Text(seq![])],
        MessageRole::User => seq![ItemModel::User(m.content)],
        MessageRole::Tool => seq![
            if show_subagent {
                ItemModel::Trace { trace: m.trace, text: message::content_text(m.content) }
            } else {
                ItemModel::Text(message::content_text(m.content))
            },
        ],
    }
}

/// The display of messages.
pub open spec fn messages_items(
    v: Seq<MessageModel>,
    agent_info: Option<(Seq<char>, Seq<Seq<char>>)>,
    show_thinking: bool,
    show_subagent: bool,
) -> Seq<ItemModel>
    decreases v.len(),
{
    if v.len() == 0 {
        seq![]
    } else {
        messages_items(v.drop_last(), agent_info, show_thinking, show_subagent) + message_items(
            v.last(),
            agent_info,
            show_thinking,
            show_subagent,
        )
    }
}

/// The display of a session.
pub open spec fn session_items(
    s: SessionModel,
    agent_info: Option<(Seq<char>, Seq<Seq<char>>)>,
    show_thinking: bool,
    show_subagent: bool,
) -> Seq<ItemModel> {
    head_items(s) + messages_items(s.messages, agent_info, show_thinking, show_subagent)
}

/// The name and the functions of an agent.
pub open spec fn info_of(info: Option<(String, Vec<String>)>) -> Option<
    (Seq<char>, Seq<Seq<char>>),
> {
    match info {
        Some((name, functions)) => Some((name@, text::texts(functions@))),
        None => None,
    }
}

/// Appends a piece.
fn push_item(out: &mut Vec<RenderItem>, item: RenderItem)
    ensures
        items_of(final(out)@) == items_of(old(out)@) + seq![item@],
{
    let ghost before = items_of(out@);
    out.push(item);
    proof {
        assert(items_of(out@) =~= before + seq![item@]);
    }
}

/// Appends a line of the head, where there is a value for it.
fn push_head(out: &mut Vec<RenderItem>, name: &str, value: Option<String>)
    ensures
        items_of(final(out)@) == items_of(old(out)@) + head_line(name@, text::optional(value)),
{
    if let Some(v) = value {
        let mut line = text::pad(name, 20);
        line.append(v.as_str());
        push_item(out, RenderItem::Text(line));
    } else {
        proof {
            assert(items_of(out@) + seq![] =~= items_of(out@));
        }
    }
}

/// Appends a text to be formatted, unless it is empty.
fn push_markdown(out: &mut Vec<RenderItem>, t: Option<String>)
    ensures
        items_of(final(out)@) == items_of(old(out)@) + markdown_if_any(text::optional(t)),
{
    proof {
        assert(items_of(out@) + seq![] =~= items_of(out@));
    }
    if let Some(t) = t {
        if !t.as_str().is_empty() {
            push_item(out, RenderItem::Markdown(t));
        }
    }
}

/// The line for a call of a function.
fn call_line(call: &ToolCall, agent_info: &Option<(String, Vec<String>)>) -> (r: RenderItem)
    ensures
        r@ == call_item(call@, info_of(*agent_info)),
{
    let mut name = call.name.clone();
    if let Some((agent, functions)) = agent_info {
        if text::is_among(functions, call.name.as_str()) {
            name = agent.clone();
            name.append("-");
            name.append(call.name.as_str());
        }
    }
    let mut line = "Call ".to_owned();
    line.append(name.as_str());
    line.append(" ");
    line.append(json::value_text(&call.arguments).as_str());
    RenderItem::Dimmed(line)
}

/// Appends the lines for the calls of functions.
fn push_calls(
    out: &mut Vec<RenderItem>,
    calls: &Option<Vec<ToolCall>>,
    agent_info: &Option<(String, Vec<String>)>,
)
    ensures
        items_of(final(out)@) == items_of(old(out)@) + call_items(
            match *calls {
                Some(v) => Some(message::calls_of(v@)),
                None => None,
            },
            info_of(*agent_info),
        ),
{
    let ghost start = items_of(out@);
    match calls {
        Some(v) => {
            let ghost all = call_items(Some(message::calls_of(v@)), info_of(*agent_info));
            let mut i: usize = 0;
            proof {
                assert(start + all.take(0) =~= start);
            }
            while i < v.len()
                invariant
                    i <= v@.len(),
                    all == call_items(Some(message::calls_of(v@)), info_of(*agent_info)),
                    items_of(out@) == start + all.take(i as int),
                decreases v@.len() - i,
            {
                let item = call_line(&v[i], agent_info);
                proof {
                    assert(item@ == all[i as int]);
                    assert(start + all.take(i + 1) =~= start + all.take(i as int) + seq![item@]);
                }
                push_item(out, item);
                i += 1;
            }
            proof {
                assert(all.take(i as int) =~= all);
            }
        },
        None => {
            proof {
                assert(start + seq![] =~= start);
            }
        },
    }
}

/// Appends the display of a message.
fn push_message_items(
    out: &mut Vec<RenderItem>,
    m: &Message,
    agent_info: &Option<(String, Vec<String>)>,
    show_thinking: bool,
    show_subagent: bool,
)
    ensures
        items_of(final(out)@) == items_of(old(out)@) + message_items(
            m@,
            info_of(*agent_info),
            show_thinking,
            show_subagent,
        ),
{
    let ghost start = items_of(out@);
    match m.role {
        MessageRole::System => {
            push_item(out, RenderItem::System(m.content.clone()));
        },
        MessageRole::Assistant => {
            let mut thought: Option<String> = None;
            if show_thinking {
                if let Some(t) = &m.reasoning_content {
                    thought = Some(render::format_reasoning(t.as_str()));
                }
            }
            proof {
                assert(text::optional(thought) == thinking(m@, show_thinking));
            }
            push_markdown(out, thought);
            let mut said: Option<String> = None;
            if let MessageContent::Text(t) = &m.content {
                said = Some(t.clone());
            }
            proof {
                assert(text::optional(said) == plain_text(m@.content));
            }
            push_markdown(out, said);
            push_calls(out, &m.tool_calls, agent_info);
            let empty = String::new();
            proof {
                assert(empty@ =~= seq![]);
            }
            push_item(out, RenderItem::Text(empty));
            proof {
                assert(items_of(out@) =~= start + message_items(
                    m@,
                    info_of(*agent_info),
                    show_thinking,
                    show_subagent,
                ));
            }
        },
        MessageRole::User => {
            push_item(out, RenderItem::User(m.content.clone()));
        },
        MessageRole::Tool => {
            let text = m.content.to_text();
            if show_subagent {
                push_item(out, RenderItem::Trace { trace: m.trace.clone(), text });
            } else {
                push_item(out, RenderItem::Text(text));
            }
        },
    }
}

impl Session {
    /// The first lines of the head of the display.
    fn first_head(&self) -> (r: Vec<RenderItem>)
        ensures
            items_of(r@) == first_head_items(self@),
    {
        let mut out: Vec<RenderItem> = Vec::new();
        push_head(&mut out, "path", self.path.clone());
        proof {
            assert(items_of(out@) =~= head_line("path"@, self@.path));
        }
        let made = match self.autoname() {
            Some(name) => Some(name.to_owned()),
            None => None,
        };
        proof {
            assert(text::optional(made) == session::made_name(self@));
        }
        push_head(&mut out, "autoname", made);
        push_head(&mut out, "model", Some(self.model.id()));
        let temperature = match &self.settings.temperature {
            Some(x) => Some(x.text.clone()),
            None => None,
        };
        proof {
            assert(text::optional(temperature) == real_text(self@.settings.temperature));
        }
        push_head(&mut out, "temperature", temperature);
        let top_p = match &self.settings.top_p {
            Some(x) => Some(x.text.clone()),
            None => None,
        };
        proof {
            assert(text::optional(top_p) == real_text(self@.settings.top_p));
        }
        push_head(&mut out, "top_p", top_p);
        out
    }

    /// The head of the display.
    fn head(&self) -> (r: Vec<RenderItem>)
        ensures
            items_of(r@) == head_items(self@),
    {
        let mut out = self.first_head();
        push_head(&mut out, "use_tools", self.settings.use_tools.clone());
        let save_session = match self.save_session {
            Some(b) => Some(text::bool_text(b)),
            None => None,
        };
        proof {
            assert(text::optional(save_session) == flag_text(self@.save_session));
        }
        push_head(&mut out, "save_session", save_session);
        let compress_threshold = match self.compress_threshold {
            Some(n) => Some(text::number_text(n as u64)),
            None => None,
        };
        proof {
            assert(text::optional(compress_threshold) == count_text(self@.compress_threshold));
        }
        push_head(&mut out, "compress_threshold", compress_threshold);
        let max_input_tokens = match self.model.max_input_tokens {
            Some(n) => Some(text::number_text(n as u64)),
            None => None,
        };
        proof {
            assert(text::optional(max_input_tokens) == count_text(self@.model.max_input_tokens));
        }
        push_head(&mut out, "max_input_tokens", max_input_tokens);
        let empty = String::new();
        proof {
            assert(empty@ =~= seq![]);
        }
        push_item(&mut out, RenderItem::Text(empty));
        out
    }

    /// The pieces of the display of the session.
    #[verifier::rlimit(30)]
    pub fn render_plan(
        &self,
        agent_info: &Option<(String, Vec<String>)>,
        show_thinking: bool,
        show_subagent: bool,
    ) -> (r: Vec<RenderItem>)
        ensures
            items_of(r@) == session_items(
                self@,
                info_of(*agent_info),
                show_thinking,
                show_subagent,
            ),
    {
        let mut out = self.head();
        let ghost head = head_items(self@);
        let ghost all = self@.messages;
        let ghost info = info_of(*agent_info);
        let mut i: usize = 0;
        proof {
            assert(all.take(0) =~= seq![]);
            assert(head + messages_items(all.take(0), info, show_thinking, show_subagent)
                =~= head);
        }
        while i < self.messages.len()
            invariant
                i <= self.messages@.len(),
                all == message::messages_of(self.messages@),
                info == info_of(*agent_info),
                items_of(out@) == head + messages_items(
                    all.take(i as int),
                    info,
                    show_thinking,
                    show_subagent,
                ),
            decreases self.messages@.len() - i,
        {
            proof {
                assert(all.take(i + 1).drop_last() =~= all.take(i as int));
                assert(all.take(i + 1).last() == self.messages@[i as int]@);
            }
            push_message_items(
                &mut out,
                &self.messages[i],
                agent_info,
                show_thinking,
                show_subagent,
            );
            proof {
                shown_in_turn(head, all.take(i + 1), info, show_thinking, show_subagent);
            }
            i += 1;
        }
        proof {
            assert(all.take(i as int) =~= all);
        }
        out
    }
}

/// The display of messages behind a head ends with that of the last message.
proof fn shown_in_turn(
    head: Seq<ItemModel>,
    v: Seq<MessageModel>,
    info: Option<(Seq<char>, Seq<Seq<char>>)>,
    show_thinking: bool,
    show_subagent: bool,
)
    requires
        v.len() > 0,
    ensures
        head + messages_items(v, info, show_thinking, show_subagent) == (head + messages_items(
            v.drop_last(),
            info,
            show_thinking,
            show_subagent,
        )) + message_items(v.last(), info, show_thinking, show_subagent),
{
    let before = messages_items(v.drop_last(), info, show_thinking, show_subagent);
    let last = message_items(v.last(), info, show_thinking, show_subagent);
    assert(head + (before + last) =~= (head + before) + last);
}

/// `out` shows what the system said.
pub open spec fn shows_system<
    F: Fn(&str) -> String,
    G: Fn(&str) -> String,
    M: Fn(&str) -> String,
>(c: ContentModel, resolve: F, multiline: G, markdown: M, out: Seq<char>) -> bool {
    exists|t: Seq<char>| #[trigger]
        message::typed_input(c, resolve, multiline, t) && closure::gives(markdown, t, out)
}

/// `out` shows what the user said.
pub open spec fn shows_user<F: Fn(&str) -> String, G: Fn(&str) -> String>(
    c: ContentModel,
    resolve: F,
    multiline: G,
    out: Seq<char>,
) -> bool {
    exists|t: Seq<char>| #[trigger]
        message::typed_input(c, resolve, multiline, t) && out == ">> "@ + t
}

/// `out` shows a piece of the display.
pub open spec fn shows_item<
    F: Fn(&str) -> String,
    G: Fn(&str) -> String,
    M: Fn(&str) -> String,
    D: Fn(&str) -> String,
>(item: ItemModel, resolve: F, multiline: G, markdown: M, dim: D, out: Seq<char>) -> bool {
    match item {
        ItemModel::Text(t) => out == t,
        ItemModel::Markdown(t) => closure::gives(markdown, t, out),
        ItemModel::Dimmed(t) => closure::gives(dim, t, out),
        ItemModel::System(c) => shows_system(c, resolve, multiline, markdown, out),
        ItemModel::User(c) => shows_user(c, resolve, multiline, out),
        ItemModel::Trace { trace, text } => render::shows_trace(trace, text, dim, out),
    }
}

/// `lines` show the pieces of the display.
pub open spec fn shows_items<
    F: Fn(&str) -> String,
    G: Fn(&str) -> String,
    M: Fn(&str) -> String,
    D: Fn(&str) -> String,
>(
    items: Seq<ItemModel>,
    resolve: F,
    multiline: G,
    markdown: M,
    dim: D,
    lines: Seq<Seq<char>>,
) -> bool {
    &&& lines.len() == items.len()
    &&& forall|i: int|
        0 <= i < items.len() ==> shows_item(
            items[i],
            resolve,
            multiline,
            markdown,
            dim,
            #[trigger] lines[i],
        )
}

/// Shows a piece of the display.
fn show_item<
    F: Fn(&str) -> String,
    G: Fn(&str) -> String,
    M: Fn(&str) -> String,
    D: Fn(&str) -> String,
>(
    item: &RenderItem,
    agent_info: &Option<(String, Vec<String>)>,
    resolve: &F,
    multiline: &G,
    markdown: &M,
    dim: &D,
) -> (r: String)
    requires
        closure::takes_all(*resolve),
        closure::takes_all(*multiline),
        closure::takes_all(*markdown),
        closure::takes_all(*dim),
    ensures
        shows_item(item@, *resolve, *multiline, *markdown, *dim, r@),
{
    match item {
        RenderItem::Text(t) => t.clone(),
        RenderItem::Markdown(t) => closure::apply(markdown, t.as_str()),
        RenderItem::Dimmed(t) => closure::apply(dim, t.as_str()),
        RenderItem::System(c) => {
            let typed = c.render_input(resolve, agent_info, multiline);
            let out = closure::apply(markdown, typed.as_str());
            proof {
                assert(shows_system(c@, *resolve, *multiline, *markdown, out@));
            }
            out
        },
        RenderItem::User(c) => {
            let typed = c.render_input(resolve, agent_info, multiline);
            let mut out = ">> ".to_owned();
            out.append(typed.as_str());
            proof {
                assert(shows_user(c@, *resolve, *multiline, out@));
            }
            out
        },
        RenderItem::Trace { trace, text } => {
            let shown = match trace {
                Some(v) => Some(v),
                None => None,
            };
            render::format_subagent_trace(shown, text.as_str(), dim)
        },
    }
}

impl Session {
    /// The display of the session, line by line. `resolve` tells where an image is,
    /// `multiline` lays a text out as it would be typed, `markdown` formats and
    /// `dim` dims one.
    pub fn render<
        F: Fn(&str) -> String,
        G: Fn(&str) -> String,
        M: Fn(&str) -> String,
        D: Fn(&str) -> String,
    >(
        &self,
        agent_info: &Option<(String, Vec<String>)>,
        show_thinking: bool,
        show_subagent: bool,
        resolve: &F,
        multiline: &G,
        markdown: &M,
        dim: &D,
    ) -> (r: String)
        requires
            closure::takes_all(*resolve),
            closure::takes_all(*multiline),
            closure::takes_all(*markdown),
            closure::takes_all(*dim),
        ensures
            exists|lines: Seq<Seq<char>>| #[trigger]
                shows_items(
                    session_items(self@, info_of(*agent_info), show_thinking, show_subagent),
                    *resolve,
                    *multiline,
                    *markdown,
                    *dim,
                    lines,
                ) && r@ == text::joined(lines, "\n"@),
    {
        let items = self.render_plan(agent_info, show_thinking, show_subagent);
        let ghost all = items_of(items@);
        let mut lines: Vec<String> = Vec::new();
        let mut i: usize = 0;
        while i < items.len()
            invariant
                i <= items@.len(),
                all == items_of(items@),
                closure::takes_all(*resolve),
                closure::takes_all(*multiline),
                closure::takes_all(*markdown),
                closure::takes_all(*dim),
                lines@.len() == i,
                forall|k: int|
                    0 <= k < i ==> shows_item(
                        all[k],
                        *resolve,
                        *multiline,
                        *markdown,
                        *dim,
                        (#[trigger] lines@[k])@,
                    ),
            decreases items@.len() - i,
        {
            let line = show_item(&items[i], agent_info, resolve, multiline, markdown, dim);
            proof {
                assert(all[i as int] == items@[i as int]@);
            }
            lines.push(line);
            i += 1;
        }
        proof {
            let shown = text::texts(lines@);
            assert forall|k: int| 0 <= k < all.len() implies shows_item(
                all[k],
                *resolve,
                *multiline,
                *markdown,
                *dim,
                #[trigger] shown[k],
            ) by {
                assert(shown[k] == lines@[k]@);
            }
            assert(shows_items(all, *resolve, *multiline, *markdown, *dim, shown));
        }
        text::join(&lines, "\n")
    }
}

// ---- How sessions are kept ----

/// A session that is read from a file is what the file holds, under its own name and
/// for the model at hand. The prompt of its role is the current one where the role is
/// still known.
pub proof fn sessions_are_read_under_their_name(
    parsed: SessionModel,
    name: Seq<char>,
    path: Seq<char>,
    model: ModelModel,
    role_prompt: Option<Seq<char>>,
    timestamped: bool,
)
    requires
        !"_/"@.is_prefix_of(name),
    ensures
        ({
            let s = restored(parsed, name, path, model, role_prompt, timestamped);
            let prompt = if parsed.role_name is Some && role_prompt is Some {
                role_prompt->0
            } else {
                parsed.role_prompt
            };
            s == (SessionModel { name, path: Some(path), model, role_prompt: prompt, ..parsed })
        }),
{
}

/// A session that was kept without a name is a temporary one again, under no path;
/// the name that was made for it is what stands behind the time.
pub proof fn unnamed_sessions_are_temporary_again(
    parsed: SessionModel,
    time: Seq<char>,
    made: Seq<char>,
    path: Seq<char>,
    model: ModelModel,
    role_prompt: Option<Seq<char>>,
)
    requires
        is_time(time),
    ensures
        ({
            let s = restored(
                parsed,
                "_/"@ + time + "-"@ + made,
                path,
                model,
                role_prompt,
                true,
            );
            &&& s.name == "temp"@
            &&& s.path is None
            &&& s.autoname is Some && s.autoname->0.name == Some(made)
            &&& s.messages == parsed.messages
            &&& s.compressed_messages == parsed.compressed_messages
            &&& s.settings == parsed.settings
            &&& s.model == model
        }),
{
    let named = SessionModel {
        autoname: Some(session::autonamed(made)),
        ..session::blank_session()
    };
    let rest = stamped_name(named, time);
    assert(session::made_name(named) == Some(made));
    assert(rest == time + "-"@ + made);
    reveal_strlit("-");
    assert("-"@ =~= seq!['-']);
    assert(time_at(rest, 0)) by {
        assert(rest.subrange(0, 15) =~= time);
        assert(rest[15] == '-');
    }
    assert(holds_time(rest));
    assert(time_found(rest, is_plain(rest) ==> holds_time(rest)));
    made_name_comes_back(named, time, parsed, path, model, role_prompt, true);
    assert("_/"@ + time + "-"@ + made =~= "_/"@ + rest);
    text::prefixes_and_suffixes_come_off("_/"@, rest);
}

/// A session that is left unchanged is not saved. One that changed is saved where it
/// is to be, under its name or, where it has none, under the time and the name that
/// was made for it; it is not saved where it is not to be; and where that is open the
/// user is asked in a dialogue.
pub proof fn changed_sessions_are_saved_when_left(
    s: SessionModel,
    is_repl: bool,
    time: Seq<char>,
)
    ensures
        ({
            let wanted = if s.save_session_this_time {
                Some(true)
            } else {
                s.save_session
            };
            let action = exit_action(s, is_repl, ExitEvent::Leave, time);
            &&& !s.dirty ==> action is Finish
            &&& s.dirty && wanted == Some(false) ==> action is Finish
            &&& s.dirty && wanted == Some(true) && s.name != "temp"@ ==> action == (
            ExitModel::Save { unnamed: false, name: s.name })
            &&& s.dirty && wanted == Some(true) && s.name == "temp"@ && s.autoname is Some
                && s.autoname->0.name is Some ==> action == (ExitModel::Save {
                unnamed: true,
                name: time + seq!['-'] + s.autoname->0.name->0,
            })
            &&& s.dirty && wanted == Some(true) && s.name == "temp"@ && (s.autoname is None
                || s.autoname->0.name is None) ==> action == (ExitModel::Save {
                unnamed: true,
                name: time,
            })
            &&& s.dirty && wanted is None ==> if is_repl {
                action is Confirm
            } else {
                action is Finish
            }
        }),
{
    reveal_strlit("-");
    assert("-"@ =~= seq!['-']);
}

/// What the user says on the way out is done: a session that is not to be saved is
/// left, one that is to be saved is saved under its name, or under the one that the
/// user is asked for where it has none.
pub proof fn answers_on_the_way_out_are_followed(
    s: SessionModel,
    is_repl: bool,
    time: Seq<char>,
    name: String,
)
    ensures
        exit_action(s, is_repl, ExitEvent::Confirmed(false), time) is Finish,
        s.name == "temp"@ ==> exit_action(
            s,
            is_repl,
            ExitEvent::Confirmed(true),
            time,
        ) is AskName,
        s.name != "temp"@ ==> exit_action(s, is_repl, ExitEvent::Confirmed(true), time) == (
        ExitModel::Save { unnamed: false, name: s.name }),
        exit_action(s, is_repl, ExitEvent::Named(name), time) == (ExitModel::Save {
            unnamed: false,
            name: name@,
        }),
{
}

/// A name is refused exactly where there is nothing in it but whitespace, or where it
/// is, but for whitespace around it, the one of temporary sessions.
pub proof fn blank_and_reserved_names_are_refused(
    a: Seq<char>,
    name: Seq<char>,
    b: Seq<char>,
)
    requires
        text::is_blank(a),
        text::is_blank(b),
        name.len() > 0 ==> !text::is_white_space(name[0]) && !text::is_white_space(name.last()),
    ensures
        name_fault(a + name + b) is Some <==> name.len() == 0 || name == "temp"@,
        name.len() == 0 ==> name_fault(a + name + b) == Some("This name is required"@),
        name == "temp"@ ==> name_fault(a + name + b) == Some("This name is reserved"@),
{
    reveal_strlit("temp");
    text::trimming_finds_the_text_between(a, name, b);
}

/// What is found in two lists of fields, one behind the other.
proof fn field_in_either(
    a: Seq<(Seq<char>, ExportModel)>,
    b: Seq<(Seq<char>, ExportModel)>,
    key: Seq<char>,
)
    ensures
        table::lookup(a + b, key) == (if table::lookup(a, key) is Some {
            table::lookup(a, key)
        } else {
            table::lookup(b, key)
        }),
    decreases a.len(),
{
    if a.len() == 0 {
        assert(a + b =~= b);
    } else {
        assert((a + b).skip(1) =~= a.skip(1) + b);
        field_in_either(a.skip(1), b, key);
    }
}

/// A field that may be there is found under its name alone.
proof fn field_by_name(name: Seq<char>, v: Option<ExportModel>, key: Seq<char>)
    ensures
        table::lookup(optional_field(name, v), key) == (if key == name {
            v
        } else {
            None
        }),
{
    let f = optional_field(name, v);
    if v is Some {
        assert(f.skip(1) =~= seq![]);
        assert(table::lookup(f.skip(1), key) is None);
    }
}

/// The export of a session holds each setting under its name where it is set, and
/// the path, the model, the tokens and the messages in any case.
pub proof fn exports_hold_what_is_set(s: SessionModel)
    ensures
        table::lookup(exported(s), "path"@) == Some(ExportModel::OptionalText(s.path)),
        table::lookup(exported(s), "model"@) == Some(ExportModel::Text(s.model.id)),
        table::lookup(exported(s), "temperature"@) == (if s.settings.temperature is Some {
            Some(ExportModel::Real(s.settings.temperature->0))
        } else {
            None
        }),
        table::lookup(exported(s), "top_p"@) == (if s.settings.top_p is Some {
            Some(ExportModel::Real(s.settings.top_p->0))
        } else {
            None
        }),
        table::lookup(exported(s), "use_tools"@) == (if s.settings.use_tools is Some {
            Some(ExportModel::Text(s.settings.use_tools->0))
        } else {
            None
        }),
        table::lookup(exported(s), "save_session"@) == (if s.save_session is Some {
            Some(ExportModel::Flag(s.save_session->0))
        } else {
            None
        }),
        table::lookup(exported(s), "total_tokens"@) == Some(ExportModel::Count(s.tokens)),
        table::lookup(exported(s), "max_input_tokens"@) == (if s.model.max_input_tokens is Some {
            Some(ExportModel::Count(s.model.max_input_tokens->0))
        } else {
            None
        }),
        table::lookup(exported(s), "total/max"@) == Some(ExportModel::Share),
        table::lookup(exported(s), "messages"@) == Some(ExportModel::Messages),
{
    field_names_are_distinct();
    exported_field(s, "path"@);
    exported_field(s, "model"@);
    exported_field(s, "temperature"@);
    exported_field(s, "top_p"@);
    exported_field(s, "use_tools"@);
    exported_field(s, "save_session"@);
    exported_field(s, "total_tokens"@);
    exported_field(s, "max_input_tokens"@);
    exported_field(s, "total/max"@);
    exported_field(s, "messages"@);
}

/// The names of the fields of an export, in their order.
spec fn field_names() -> Seq<Seq<char>> {
    seq![
        "path"@,
        "model"@,
        "temperature"@,
        "top_p"@,
        "use_tools"@,
        "save_session"@,
        "total_tokens"@,
        "max_input_tokens"@,
        "total/max"@,
        "messages"@,
    ]
}

/// No two fields of an export bear one name.
proof fn field_names_are_distinct()
    ensures
        field_names().no_duplicates(),
        "path"@ == field_names()[0],
        "model"@ == field_names()[1],
        "temperature"@ == field_names()[2],
        "top_p"@ == field_names()[3],
        "use_tools"@ == field_names()[4],
        "save_session"@ == field_names()[5],
        "total_tokens"@ == field_names()[6],
        "max_input_tokens"@ == field_names()[7],
        "total/max"@ == field_names()[8],
        "messages"@ == field_names()[9],
{
    reveal_strlit("path");
    reveal_strlit("model");
    reveal_strlit("temperature");
    reveal_strlit("top_p");
    reveal_strlit("use_tools");
    reveal_strlit("save_session");
    reveal_strlit("total_tokens");
    reveal_strlit("max_input_tokens");
    reveal_strlit("total/max");
    reveal_strlit("messages");
    let names = field_names();
    assert forall|i: int, j: int| 0 <= i < j < names.len() implies names[i] != names[j] by {
        if names[i].len() == names[j].len() {
            assert(names[i][0] != names[j][0]);
        }
    }
}

/// A field of an export is the first of its name.
proof fn exported_field(s: SessionModel, key: Seq<char>)
    ensures
        table::lookup(exported(s), key) == (if key == "path"@ {
            Some(ExportModel::OptionalText(s.path))
        } else if key == "model"@ {
            Some(ExportModel::Text(s.model.id))
        } else if key == "temperature"@ && s.settings.temperature is Some {
            real_field(s.settings.temperature)
        } else if key == "top_p"@ && s.settings.top_p is Some {
            real_field(s.settings.top_p)
        } else if key == "use_tools"@ && s.settings.use_tools is Some {
            text_field(s.settings.use_tools)
        } else if key == "save_session"@ && s.save_session is Some {
            flag_field(s.save_session)
        } else if key == "total_tokens"@ {
            Some(ExportModel::Count(s.tokens))
        } else if key == "max_input_tokens"@ && s.model.max_input_tokens is Some {
            count_field(s.model.max_input_tokens)
        } else if key == "total/max"@ {
            Some(ExportModel::Share)
        } else if key == "messages"@ {
            Some(ExportModel::Messages)
        } else {
            None
        }),
{
    let f1 = optional_field("path"@, Some(ExportModel::OptionalText(s.path)));
    let f2 = optional_field("model"@, Some(ExportModel::Text(s.model.id)));
    let f3 = optional_field("temperature"@, real_field(s.settings.temperature));
    let f4 = optional_field("top_p"@, real_field(s.settings.top_p));
    let f5 = optional_field("use_tools"@, text_field(s.settings.use_tools));
    let f6 = optional_field("save_session"@, flag_field(s.save_session));
    let f7 = optional_field("total_tokens"@, Some(ExportModel::Count(s.tokens)));
    let f8 = optional_field("max_input_tokens"@, count_field(s.model.max_input_tokens));
    let f9 = optional_field("total/max"@, Some(ExportModel::Share));
    let f10 = optional_field("messages"@, Some(ExportModel::Messages));
    field_by_name("path"@, Some(ExportModel::OptionalText(s.path)), key);
    field_by_name("model"@, Some(ExportModel::Text(s.model.id)), key);
    field_by_name("temperature"@, real_field(s.settings.temperature), key);
    field_by_name("top_p"@, real_field(s.settings.top_p), key);
    field_by_name("use_tools"@, text_field(s.settings.use_tools), key);
    field_by_name("save_session"@, flag_field(s.save_session), key);
    field_by_name("total_tokens"@, Some(ExportModel::Count(s.tokens)), key);
    field_by_name("max_input_tokens"@, count_field(s.model.max_input_tokens), key);
    field_by_name("total/max"@, Some(ExportModel::Share), key);
    field_by_name("messages"@, Some(ExportModel::Messages), key);
    field_in_either(f1, f2, key);
    field_in_either(f1 + f2, f3, key);
    field_in_either(f1 + f2 + f3, f4, key);
    field_in_either(f1 + f2 + f3 + f4, f5, key);
    field_in_either(f1 + f2 + f3 + f4 + f5, f6, key);
    let g = exported_settings(s);
    assert(g == f1 + f2 + f3 + f4 + f5 + f6);
    field_in_either(g, f7, key);
    field_in_either(g + f7, f8, key);
    field_in_either(g + f7 + f8, f9, key);
    field_in_either(g + f7 + f8 + f9, f10, key);
}

// ---- How sessions are shown ----

/// Messages are shown one behind the other.
pub proof fn messages_are_shown_in_turn(
    v: Seq<MessageModel>,
    w: Seq<MessageModel>,
    info: Option<(Seq<char>, Seq<Seq<char>>)>,
    show_thinking: bool,
    show_subagent: bool,
)
    ensures
        messages_items(v + w, info, show_thinking, show_subagent) == messages_items(
            v,
            info,
            show_thinking,
            show_subagent,
        ) + messages_items(w, info, show_thinking, show_subagent),
    decreases w.len(),
{
    if w.len() == 0 {
        assert(v + w =~= v);
        let shown = messages_items(v, info, show_thinking, show_subagent);
        assert(shown + messages_items(w, info, show_thinking, show_subagent) =~= shown);
    } else {
        messages_are_shown_in_turn(v, w.drop_last(), info, show_thinking, show_subagent);
        assert((v + w).drop_last() =~= v + w.drop_last());
        assert((v + w).last() == w.last());
        let a = messages_items(v, info, show_thinking, show_subagent);
        let b = messages_items(w.drop_last(), info, show_thinking, show_subagent);
        let c = message_items(w.last(), info, show_thinking, show_subagent);
        assert(a + b + c =~= a + (b + c));
    }
}

/// What the system and the user said is shown as they said it, and the result of a
/// function as text, with its trace where these are shown.
pub proof fn messages_are_shown_by_role(
    m: MessageModel,
    info: Option<(Seq<char>, Seq<Seq<char>>)>,
    show_thinking: bool,
    show_subagent: bool,
    t: Seq<char>,
)
    ensures
        ({
            let shown = messages_items(seq![m], info, show_thinking, show_subagent);
            &&& m.role is System ==> shown == seq![ItemModel::System(m.content)]
            &&& m.role is User ==> shown == seq![ItemModel::User(m.content)]
            &&& m.role is Tool && show_subagent && m.content == ContentModel::Text(t) ==> shown
                == seq![ItemModel::Trace { trace: m.trace, text: t }]
            &&& m.role is Tool && !show_subagent && m.content == ContentModel::Text(t) ==> shown
                == seq![ItemModel::Text(t)]
        }),
{
    one_message_is_shown_alone(m, info, show_thinking, show_subagent);
}

/// One message alone is shown as in its turn.
proof fn one_message_is_shown_alone(
    m: MessageModel,
    info: Option<(Seq<char>, Seq<Seq<char>>)>,
    show_thinking: bool,
    show_subagent: bool,
)
    ensures
        messages_items(seq![m], info, show_thinking, show_subagent) == message_items(
            m,
            info,
            show_thinking,
            show_subagent,
        ),
{
    let v = seq![m];
    assert(v.drop_last() =~= seq![]);
    assert(messages_items(v.drop_last(), info, show_thinking, show_subagent) =~= seq![]);
    assert(v.last() == m);
    let last = message_items(m, info, show_thinking, show_subagent);
    assert(Seq::<ItemModel>::empty() + last =~= last);
}

/// A function that an agent has of its own is shown with the agent's name before its
/// own, any other by its name alone.
pub proof fn own_functions_bear_the_name_of_the_agent(
    agent: Seq<char>,
    functions: Seq<Seq<char>>,
    name: Seq<char>,
)
    ensures
        functions.contains(name) ==> shown_function(name, Some((agent, functions))) == agent + seq![
            '-',
        ] + name,
        !functions.contains(name) ==> shown_function(name, Some((agent, functions))) == name,
        shown_function(name, None) == name,
{
    reveal_strlit("-");
    assert("-"@ =~= seq!['-']);
}

/// What the assistant said is shown as its reasoning, where that is to be shown and
/// there is some, then its text, if any, then a line for each call, which names the
/// function and its arguments, and an empty line.
pub proof fn replies_are_shown_in_full(
    m: MessageModel,
    info: Option<(Seq<char>, Seq<Seq<char>>)>,
    show_thinking: bool,
    show_subagent: bool,
    t: Seq<char>,
    calls: Seq<ToolCallModel>,
)
    requires
        m.role is Assistant,
        m.content == ContentModel::Text(t),
        m.tool_calls == Some(calls) || m.tool_calls is None && calls.len() == 0,
    ensures
        ({
            let shown = messages_items(seq![m], info, show_thinking, show_subagent);
            let thought = show_thinking && m.reasoning_content is Some
                && m.reasoning_content->0.len() > 0;
            let from: int = (if thought {
                1int
            } else {
                0
            }) + (if t.len() > 0 {
                1int
            } else {
                0
            });
            &&& shown.len() == from + calls.len() + 1
            &&& thought ==> shown[0] == ItemModel::Markdown(
                "<think>\n"@ + m.reasoning_content->0 + "\n</think>\n"@,
            )
            &&& t.len() > 0 ==> shown[from - 1] == ItemModel::Markdown(t)
            &&& forall|i: int|
                0 <= i < calls.len() ==> shown[from + i] == ItemModel::Dimmed(
                    "Call "@ + shown_function((#[trigger] calls[i]).name, info) + " "@ + json::json_text(calls[i].arguments),
                )
            &&& shown.last() == ItemModel::Text(seq![])
        }),
{
    one_message_is_shown_alone(m, info, show_thinking, show_subagent);
    let first = markdown_if_any(thinking(m, show_thinking));
    let second = markdown_if_any(plain_text(m.content));
    let third = call_items(m.tool_calls, info);
    let shown = message_items(m, info, show_thinking, show_subagent);
    if show_thinking && m.reasoning_content is Some {
        render::reasoning_text_is_empty_only_without_reasoning(m.reasoning_content->0);
        render::reasoning_stands_between_marks(m.reasoning_content->0);
    }
    assert forall|i: int| 0 <= i < calls.len() implies shown[first.len() + second.len() + i]
        == call_item(#[trigger] calls[i], info) by {
        assert(third[i] == call_item(calls[i], info));
    }
}

/// One where something holds, and else none.
pub open spec fn one_if(b: bool) -> nat {
    if b {
        1
    } else {
        0
    }
}

/// The display of a session begins with a line for each thing that is set, under its
/// name, and an empty line, and goes on with all of its messages.
pub proof fn sessions_are_shown_with_their_settings(
    s: SessionModel,
    info: Option<(Seq<char>, Seq<Seq<char>>)>,
    show_thinking: bool,
    show_subagent: bool,
) -> (head: Seq<ItemModel>)
    ensures
        session_items(s, info, show_thinking, show_subagent) == head + messages_items(
            s.messages,
            info,
            show_thinking,
            show_subagent,
        ),
        head.len() == 2 + one_if(s.path is Some) + one_if(
            s.autoname is Some && s.autoname->0.name is Some,
        ) + one_if(s.settings.temperature is Some) + one_if(s.settings.top_p is Some) + one_if(
            s.settings.use_tools is Some,
        ) + one_if(s.save_session is Some) + one_if(s.compress_threshold is Some) + one_if(
            s.model.max_input_tokens is Some,
        ),
        head.last() == ItemModel::Text(seq![]),
        s.autoname is Some && s.autoname->0.name is Some ==> head.contains(
            ItemModel::Text(text::padded("autoname"@, 20) + s.autoname->0.name->0),
        ),
        s.path is Some ==> head.contains(ItemModel::Text(text::padded("path"@, 20) + s.path->0)),
        head.contains(ItemModel::Text(text::padded("model"@, 20) + s.model.id)),
        s.settings.temperature is Some ==> head.contains(
            ItemModel::Text(text::padded("temperature"@, 20) + s.settings.temperature->0.text),
        ),
        s.settings.top_p is Some ==> head.contains(
            ItemModel::Text(text::padded("top_p"@, 20) + s.settings.top_p->0.text),
        ),
        s.settings.use_tools is Some ==> head.contains(
            ItemModel::Text(text::padded("use_tools"@, 20) + s.settings.use_tools->0),
        ),
        s.save_session is Some ==> head.contains(
            ItemModel::Text(
                text::padded("save_session"@, 20) + if s.save_session->0 {
                    "true"@
                } else {
                    "false"@
                },
            ),
        ),
        s.compress_threshold is Some ==> head.contains(
            ItemModel::Text(
                text::padded("compress_threshold"@, 20) + text::decimal(
                    s.compress_threshold->0 as nat,
                ),
            ),
        ),
        s.model.max_input_tokens is Some ==> head.contains(
            ItemModel::Text(
                text::padded("max_input_tokens"@, 20) + text::decimal(
                    s.model.max_input_tokens->0 as nat,
                ),
            ),
        ),
{
    let head = head_items(s);
    if let Some(t) = s.path {
        line_in_first_head(s, "path"@, s.path, t);
    }
    if let Some(t) = session::made_name(s) {
        line_in_first_head(s, "autoname"@, session::made_name(s), t);
    }
    line_in_first_head(s, "model"@, Some(s.model.id), s.model.id);
    if let Some(x) = s.settings.temperature {
        line_in_first_head(s, "temperature"@, real_text(s.settings.temperature), x.text);
    }
    if let Some(x) = s.settings.top_p {
        line_in_first_head(s, "top_p"@, real_text(s.settings.top_p), x.text);
    }
    if let Some(t) = s.settings.use_tools {
        line_in_head(s, "use_tools"@, s.settings.use_tools, t);
    }
    if let Some(b) = s.save_session {
        line_in_head(s, "save_session"@, flag_text(s.save_session), text::bool_word(b));
    }
    if let Some(n) = s.compress_threshold {
        line_in_head(
            s,
            "compress_threshold"@,
            count_text(s.compress_threshold),
            text::decimal(n as nat),
        );
    }
    if let Some(n) = s.model.max_input_tokens {
        line_in_head(
            s,
            "max_input_tokens"@,
            count_text(s.model.max_input_tokens),
            text::decimal(n as nat),
        );
    }
    head
}

/// What is shown in one of two parts is shown.
proof fn shown_in_either(a: Seq<ItemModel>, b: Seq<ItemModel>, item: ItemModel)
    ensures
        a.contains(item) || b.contains(item) ==> (a + b).contains(item),
{
    if a.contains(item) {
        let i = choose|i: int| 0 <= i < a.len() && a[i] == item;
        assert((a + b)[i] == item);
    }
    if b.contains(item) {
        let i = choose|i: int| 0 <= i < b.len() && b[i] == item;
        assert((a + b)[a.len() + i] == item);
    }
}

/// A line for a value holds its name and the value.
proof fn line_is_shown(name: Seq<char>, value: Option<Seq<char>>, t: Seq<char>)
    requires
        value == Some(t),
    ensures
        head_line(name, value).contains(ItemModel::Text(text::padded(name, 20) + t)),
{
    assert(head_line(name, value)[0] == ItemModel::Text(text::padded(name, 20) + t));
}

/// A line of the first part of the head stands in the head.
proof fn line_in_first_head(
    s: SessionModel,
    name: Seq<char>,
    value: Option<Seq<char>>,
    t: Seq<char>,
)
    requires
        value == Some(t),
        (name == "path"@ && value == s.path) || (name == "autoname"@ && value == session::made_name(
            s,
        )) || (name == "model"@ && value == Some(s.model.id)) || (
        name == "temperature"@ && value == real_text(s.settings.temperature)) || (name == "top_p"@
            && value == real_text(s.settings.top_p)),
    ensures
        head_items(s).contains(ItemModel::Text(text::padded(name, 20) + t)),
{
    let item = ItemModel::Text(text::padded(name, 20) + t);
    line_is_shown(name, value, t);
    let p1 = head_line("path"@, s.path);
    let p2 = head_line("autoname"@, session::made_name(s));
    let p3 = head_line("model"@, Some(s.model.id));
    let p4 = head_line("temperature"@, real_text(s.settings.temperature));
    let p5 = head_line("top_p"@, real_text(s.settings.top_p));
    shown_in_either(p1, p2, item);
    shown_in_either(p1 + p2, p3, item);
    shown_in_either(p1 + p2 + p3, p4, item);
    shown_in_either(p1 + p2 + p3 + p4, p5, item);
    assert(first_head_items(s).contains(item));
    shown_behind_first_head(s, item);
}

/// A line of the second part of the head stands in the head.
proof fn line_in_head(s: SessionModel, name: Seq<char>, value: Option<Seq<char>>, t: Seq<char>)
    requires
        value == Some(t),
        (name == "use_tools"@ && value == s.settings.use_tools) || (name == "save_session"@ && value
            == flag_text(s.save_session)) || (name == "compress_threshold"@ && value == count_text(
            s.compress_threshold,
        )) || (name == "max_input_tokens"@ && value == count_text(s.model.max_input_tokens)),
    ensures
        head_items(s).contains(ItemModel::Text(text::padded(name, 20) + t)),
{
    line_is_shown(name, value, t);
    shown_behind_first_head(s, ItemModel::Text(text::padded(name, 20) + t));
}

/// What stands in a part of the head stands in the head.
proof fn shown_behind_first_head(s: SessionModel, item: ItemModel)
    requires
        first_head_items(s).contains(item) || head_line(
            "use_tools"@,
            s.settings.use_tools,
        ).contains(item) || head_line("save_session"@, flag_text(s.save_session)).contains(item)
            || head_line("compress_threshold"@, count_text(s.compress_threshold)).contains(item)
            || head_line("max_input_tokens"@, count_text(s.model.max_input_tokens)).contains(item),
    ensures
        head_items(s).contains(item),
{
    let first = first_head_items(s);
    let p6 = head_line("use_tools"@, s.settings.use_tools);
    let p7 = head_line("save_session"@, flag_text(s.save_session));
    let p8 = head_line("compress_threshold"@, count_text(s.compress_threshold));
    let p9 = head_line("max_input_tokens"@, count_text(s.model.max_input_tokens));
    let end = seq![ItemModel::Text(Seq::<char>::empty())];
    shown_in_either(first, p6, item);
    shown_in_either(first + p6, p7, item);
    shown_in_either(first + p6 + p7, p8, item);
    shown_in_either(first + p6 + p7 + p8, p9, item);
    shown_in_either(first + p6 + p7 + p8 + p9, end, item);
}

/// A session that was kept without a name and without a time in its file's name is a
/// temporary one again, with the name that was made for it as the file has it.
pub proof fn unstamped_sessions_keep_their_made_name(
    parsed: SessionModel,
    rest: Seq<char>,
    path: Seq<char>,
    model: ModelModel,
    role_prompt: Option<Seq<char>>,
)
    ensures
        ({
            let s = restored(parsed, "_/"@ + rest, path, model, role_prompt, false);
            &&& s.name == "temp"@
            &&& s.path is None
            &&& s.autoname == parsed.autoname
            &&& s.model == model
            &&& s.messages == parsed.messages
        }),
{
    text::prefixes_and_suffixes_come_off("_/"@, rest);
}

/// Each thing that is shown has its way: plain text is shown as it is, marked-up text
/// and dimmed text as the functions for these show it, and what the user said behind
/// two angle brackets.
pub proof fn items_are_shown_in_their_way<
    F: Fn(&str) -> String,
    G: Fn(&str) -> String,
    M: Fn(&str) -> String,
    D: Fn(&str) -> String,
>(
    items: Seq<ItemModel>,
    resolve: F,
    multiline: G,
    markdown: M,
    dim: D,
    lines: Seq<Seq<char>>,
    i: int,
)
    requires
        shows_items(items, resolve, multiline, markdown, dim, lines),
        0 <= i < items.len(),
    ensures
        lines.len() == items.len(),
        items[i] is Text ==> lines[i] == items[i]->Text_0,
        items[i] is Markdown ==> closure::gives(markdown, items[i]->Markdown_0, lines[i]),
        items[i] is Dimmed ==> closure::gives(dim, items[i]->Dimmed_0, lines[i]),
        items[i] is Trace && items[i]->trace is None ==> lines[i] == items[i]->text,
        items[i] is User ==> exists|t: Seq<char>| #[trigger]
            message::typed_input(items[i]->User_0, resolve, multiline, t) && lines[i] == ">> "@ + t,
        items[i] is System ==> exists|t: Seq<char>| #[trigger]
            message::typed_input(items[i]->System_0, resolve, multiline, t) && closure::gives(
                markdown,
                t,
                lines[i],
            ),
{
    assert(shows_item(items[i], resolve, multiline, markdown, dim, lines[i]));
}

} // verus!
