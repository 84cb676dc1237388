//! Functions that callers hand in.

use vstd::prelude::*;

use crate::message;
use crate::message::{Message, MessageModel};
use crate::model::{Model, ModelModel};

verus! {

/// `f` takes every text.
pub open spec fn takes_all<F: Fn(&str) -> String>(f: F) -> bool {
    forall|s: &str| call_requires(f, (s,))
}

/// `out` is what a call of `f` on the text `arg` gives, or may give where calls
/// of `f` differ.
pub open spec fn gives<F: Fn(&str) -> String>(f: F, arg: Seq<char>, out: Seq<char>) -> bool {
    exists|s: &str, r: String|
        s@ == arg && r@ == out && #[trigger] call_ensures(f, (s,), r)
}

/// Calls `f`.
pub fn apply<F: Fn(&str) -> String>(f: &F, arg: &str) -> (r: String)
    requires
        takes_all(*f),
    ensures
        gives(*f, arg@, r@),
{
    f(arg)
}

/// `count` takes every model with every list of messages.
pub open spec fn counts_all<C: Fn(&Model, &Vec<Message>) -> usize>(count: C) -> bool {
    forall|m: &Model, v: &Vec<Message>| call_requires(count, (m, v))
}

/// `n` is how many tokens `count` counts for a model in some messages.
pub open spec fn counts<C: Fn(&Model, &Vec<Message>) -> usize>(
    count: C,
    model: ModelModel,
    messages: Seq<MessageModel>,
    n: usize,
) -> bool {
    exists|m: &Model, v: &Vec<Message>|
        m@ == model && message::messages_of(v@) == messages && #[trigger] call_ensures(
            count,
            (m, v),
            n,
        )
}

/// Calls `count`.
pub fn count_tokens<C: Fn(&Model, &Vec<Message>) -> usize>(
    count: &C,
    model: &Model,
    messages: &Vec<Message>,
) -> (r: usize)
    requires
        counts_all(*count),
    ensures
        counts(*count, model@, message::messages_of(messages@), r),
{
    count(model, messages)
}

} // verus!
