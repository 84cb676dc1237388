//! The loop of a completion: the model is called until it asks for no more
//! functions.

use vstd::prelude::*;

use crate::input::{Input, InputModel};
use crate::message;
use crate::message::{Message, MessageModel, MessageRole};
use crate::role;
use crate::session;
use crate::text;

verus! {

/// How a completion ended.
#[derive(Debug)]
pub struct CompletionOutcome {
    pub output: String,
    pub reasoning_content: Option<String>,
    /// Every message that was made in the loop, and the last reply.
    pub messages: Vec<Message>,
}

/// How a completion ended.
pub struct OutcomeModel {
    pub output: Seq<char>,
    pub reasoning_content: Option<Seq<char>>,
    pub messages: Seq<MessageModel>,
}

impl View for CompletionOutcome {
    type V = OutcomeModel;

    open spec fn view(&self) -> OutcomeModel {
        OutcomeModel {
            output: self.output@,
            reasoning_content: text::optional(self.reasoning_content),
            messages: message::messages_of(self.messages@),
        }
    }
}

/// The loop ends after so many turns: the model asked for no function, or it may
/// not be called again.
pub open spec fn loop_ends(turns: nat, max_turns: Option<usize>, done: bool) -> bool {
    done || (max_turns matches Some(max) && turns >= max)
}

/// How a completion ends with a reply.
pub open spec fn ended_with(
    input: InputModel,
    output: Seq<char>,
    reasoning: Option<Seq<char>>,
) -> OutcomeModel {
    OutcomeModel {
        output,
        reasoning_content: reasoning,
        messages: input.pending_messages.push(session::reply(output, reasoning)),
    }
}

/// Whether the reply comes in one piece: where it is not streamed, or code is to be
/// cut out of it.
pub fn comes_in_one_piece(stream: bool, extract_code: bool) -> (r: bool)
    ensures
        r == (!stream || extract_code),
{
    !stream || extract_code
}

/// Where the loop is: how many times the model was called.
#[derive(Debug)]
pub struct CompletionLoop {
    pub turns: usize,
    pub max_turns: Option<usize>,
}

impl CompletionLoop {
    /// The loop before the first call; `max_turns` limits how many there are.
    pub fn new(max_turns: Option<usize>) -> (r: Self)
        ensures
            r.turns == 0,
            r.max_turns == max_turns,
    {
        CompletionLoop { turns: 0, max_turns }
    }

    /// Takes in a reply; `done` says that it asks for no function. Where the loop
    /// ends with it, that is how the completion ended; else the functions that it
    /// asks for are to be called, and then the model again.
    pub fn step(
        &mut self,
        input: &Input,
        output: &str,
        reasoning_content: &Option<String>,
        done: bool,
    ) -> (r: Option<CompletionOutcome>)
        requires
            old(self).turns < usize::MAX,
        ensures
            final(self).turns == old(self).turns + 1,
            final(self).max_turns == old(self).max_turns,
            r is Some <==> loop_ends((old(self).turns + 1) as nat, old(self).max_turns, done),
            r matches Some(outcome) ==> outcome@ == ended_with(
                input@,
                output@,
                text::optional(*reasoning_content),
            ),
    {
        self.turns += 1;
        let hit_max_turns = match self.max_turns {
            Some(max) => self.turns >= max,
            None => false,
        };
        if done || hit_max_turns {
            let mut messages = message::clone_messages(&input.pending_messages);
            let mut last = Message::text(MessageRole::Assistant, output.to_owned());
            last.reasoning_content = reasoning_content.clone();
            role::push_message(&mut messages, last);
            return Some(
                CompletionOutcome {
                    output: output.to_owned(),
                    reasoning_content: reasoning_content.clone(),
                    messages,
                },
            );
        }
        None
    }
}

/// How many times the model is called, where `done` says of each reply whether it
/// asks for no function; `turns` calls were made before.
pub open spec fn turns_taken(done: Seq<bool>, max_turns: Option<usize>, turns: nat) -> nat
    decreases done.len(),
{
    if done.len() == 0 || loop_ends(turns + 1, max_turns, done[0]) {
        turns + 1
    } else {
        turns_taken(done.skip(1), max_turns, turns + 1)
    }
}

/// The model is called at least once, and never more often than it may be, unless
/// that is not at all: then it is called once.
pub proof fn turns_are_limited(done: Seq<bool>, max: usize, turns: nat)
    requires
        turns < max || turns == 0,
    ensures
        turns < turns_taken(done, Some(max), turns),
        turns_taken(done, Some(max), turns) <= (if max == 0 {
            1
        } else {
            max as nat
        }),
    decreases done.len(),
{
    if done.len() > 0 && !loop_ends(turns + 1, Some(max), done[0]) {
        turns_are_limited(done.skip(1), max, turns + 1);
    }
}

/// A dialogue with functions ends with the first reply that calls none, or with the
/// last turn that is allowed.
pub proof fn turns_end_when_done_or_at_the_limit(turns: nat, max_turns: Option<usize>, done: bool)
    ensures
        done ==> loop_ends(turns, max_turns, done),
        !done && max_turns is None ==> !loop_ends(turns, max_turns, done),
        !done && max_turns is Some ==> (loop_ends(turns, max_turns, done) <==> turns
            >= max_turns->0),
{
}

/// Without a limit as many turns are taken as it takes to be done.
pub proof fn unlimited_turns_go_on_until_done(done: Seq<bool>, n: int)
    requires
        0 <= n < done.len(),
        done[n],
        forall|i: int| 0 <= i < n ==> !#[trigger] done[i],
    ensures
        turns_taken(done, None, 0) == n + 1,
{
    turns_go_on_from(done, n, 0);
}

/// The same, where some turns were taken before.
proof fn turns_go_on_from(done: Seq<bool>, n: int, turns: nat)
    requires
        0 <= n < done.len(),
        done[n],
        forall|i: int| 0 <= i < n ==> !#[trigger] done[i],
    ensures
        turns_taken(done, None, turns) == turns + n + 1,
    decreases n,
{
    if n > 0 {
        assert(!done[0]);
        let rest = done.skip(1);
        assert(rest[n - 1] == done[n]);
        assert forall|i: int| 0 <= i < n - 1 implies !#[trigger] rest[i] by {
            assert(rest[i] == done[i + 1]);
        }
        turns_go_on_from(rest, n - 1, turns + 1);
    }
}

/// What comes of a dialogue is the last reply, and its messages are all that went
/// before and that reply.
pub proof fn outcomes_hold_the_last_reply(
    input: InputModel,
    output: Seq<char>,
    reasoning: Option<Seq<char>>,
)
    ensures
        ({
            let o = ended_with(input, output, reasoning);
            &&& o.output == output
            &&& o.reasoning_content == reasoning
            &&& o.messages.len() == input.pending_messages.len() + 1
            &&& o.messages.drop_last() == input.pending_messages
            &&& o.messages.last().role is Assistant
            &&& o.messages.last().content == message::ContentModel::Text(output)
            &&& o.messages.last().reasoning_content == reasoning
        }),
{
    let o = ended_with(input, output, reasoning);
    assert(o.messages.drop_last() =~= input.pending_messages);
}

} // verus!
