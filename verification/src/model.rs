//! Chat models, and the settings of a completion.

use vstd::prelude::*;

use crate::text;

verus! {

/// A floating-point number: the bits of its IEEE 754 double form, and the
/// decimal text in which it is shown.
#[derive(Debug)]
pub struct Real {
    pub bits: u64,
    pub text: String,
}

/// A floating-point number.
pub struct RealModel {
    pub bits: u64,
    pub text: Seq<char>,
}

impl View for Real {
    type V = RealModel;

    open spec fn view(&self) -> RealModel {
        RealModel { bits: self.bits, text: self.text@ }
    }
}

/// A number that may be set.
pub open spec fn real_of(r: Option<Real>) -> Option<RealModel> {
    match r {
        Some(r) => Some(r@),
        None => None,
    }
}

/// The bits of a double without its sign.
pub open spec fn magnitude(bits: u64) -> u64 {
    bits % 0x8000_0000_0000_0000u64
}

/// The bits are those of a NaN.
pub open spec fn is_nan(bits: u64) -> bool {
    magnitude(bits) > 0x7ff0_0000_0000_0000u64
}

/// Two doubles compare as equal: neither is a NaN, and they are the same number
/// or zeros of either sign.
pub open spec fn same_double(a: u64, b: u64) -> bool {
    &&& !is_nan(a)
    &&& !is_nan(b)
    &&& a == b || (magnitude(a) == 0 && magnitude(b) == 0)
}

/// Two settings compare as equal: both are unset, or both are set to numbers
/// that compare as equal.
pub open spec fn same_setting(a: Option<RealModel>, b: Option<RealModel>) -> bool {
    match (a, b) {
        (Some(a), Some(b)) => same_double(a.bits, b.bits),
        (None, None) => true,
        _ => false,
    }
}

impl Clone for Real {
    fn clone(&self) -> (r: Self)
        ensures
            r == *self,
    {
        Real { bits: self.bits, text: self.text.clone() }
    }
}

impl Real {
    /// Whether two numbers compare as equal.
    pub fn same_as(&self, other: &Real) -> (r: bool)
        ensures
            r == same_double(self.bits, other.bits),
    {
        let a: u64 = self.bits % 0x8000_0000_0000_0000u64;
        let b: u64 = other.bits % 0x8000_0000_0000_0000u64;
        a <= 0x7ff0_0000_0000_0000u64 && b <= 0x7ff0_0000_0000_0000u64 && (self.bits == other.bits
            || (a == 0 && b == 0))
    }
}

/// Whether two settings compare as equal.
pub fn settings_equal(a: &Option<Real>, b: &Option<Real>) -> (r: bool)
    ensures
        r == same_setting(real_of(*a), real_of(*b)),
{
    match (a, b) {
        (Some(a), Some(b)) => a.same_as(b),
        (None, None) => true,
        _ => false,
    }
}

/// A chat model, as far as messages and sessions depend on it.
#[derive(Debug)]
pub struct Model {
    /// The name under which the model is configured; empty for none.
    pub id: String,
    /// How many tokens the model takes in.
    pub max_input_tokens: Option<usize>,
    /// A text that is to stand before every system message.
    pub system_prompt_prefix: Option<String>,
    /// The model takes no system messages.
    pub no_system_message: bool,
}

/// What there is to know of a chat model.
pub struct ModelModel {
    pub id: Seq<char>,
    pub max_input_tokens: Option<usize>,
    pub system_prompt_prefix: Option<Seq<char>>,
    pub no_system_message: bool,
}

impl View for Model {
    type V = ModelModel;

    open spec fn view(&self) -> ModelModel {
        ModelModel {
            id: self.id@,
            max_input_tokens: self.max_input_tokens,
            system_prompt_prefix: text::optional(self.system_prompt_prefix),
            no_system_message: self.no_system_message,
        }
    }
}

/// The model that stands for none.
pub open spec fn no_model() -> ModelModel {
    ModelModel {
        id: seq![],
        max_input_tokens: None,
        system_prompt_prefix: None,
        no_system_message: false,
    }
}

impl Clone for Model {
    fn clone(&self) -> (r: Self)
        ensures
            r == *self,
    {
        Model {
            id: self.id.clone(),
            max_input_tokens: self.max_input_tokens,
            system_prompt_prefix: self.system_prompt_prefix.clone(),
            no_system_message: self.no_system_message,
        }
    }
}

impl Default for Model {
    fn default() -> (r: Self)
        ensures
            r@ == no_model(),
    {
        let id = String::new();
        proof {
            assert(id@ =~= seq![]);
        }
        Model { id, max_input_tokens: None, system_prompt_prefix: None, no_system_message: false }
    }
}

impl Model {
    pub fn id(&self) -> (r: String)
        ensures
            r == self.id,
    {
        self.id.clone()
    }

    pub fn max_input_tokens(&self) -> (r: Option<usize>)
        ensures
            r == self.max_input_tokens,
    {
        self.max_input_tokens
    }

    pub fn no_system_message(&self) -> (r: bool)
        ensures
            r == self.no_system_message,
    {
        self.no_system_message
    }
}

/// Names a document index that the program holds.
#[derive(Debug, PartialEq, Eq, Structural, Clone, Copy)]
pub struct Rag {
    pub handle: u64,
}

/// Numbers count as the same exactly as doubles compare: a number with itself, the
/// two zeroes with one another, and nothing with what is no number.
pub proof fn settings_compare_as_doubles(a: u64, b: u64)
    ensures
        same_double(a, b) == same_double(b, a),
        !is_nan(a) ==> same_double(a, a),
        is_nan(a) ==> !same_double(a, b),
        same_double(0, 0x8000_0000_0000_0000u64),
        same_double(a, b) && a != b ==> (a == 0 || a == 0x8000_0000_0000_0000u64) && (b == 0 || b
            == 0x8000_0000_0000_0000u64),
        is_nan(0x7ff8_0000_0000_0000u64),
        !is_nan(0x7ff0_0000_0000_0000u64),
        same_setting(None, None),
        forall|r: RealModel| !#[trigger] same_setting(Some(r), None) && !same_setting(None, Some(r)),
{
}

} // verus!
