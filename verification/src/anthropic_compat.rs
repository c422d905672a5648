//! The Anthropic compatible side of the proxy.

use vstd::prelude::*;

use crate::openai_adapter::{AdapterErrorV, OpenAIAdapterError};
use crate::text;

pub mod response;
pub mod types;

verus! {

/// Why a request was not answered.
#[derive(Debug)]
pub enum AnthropicCompatError {
    /// The request is not in order.
    BadRequest(String),
    /// No account of the back end is free.
    Overloaded,
    /// Something failed on the way.
    Internal(String),
}

/// The model of an `AnthropicCompatError`.
#[verifier::ext_equal]
pub enum CompatErrorV {
    BadRequest(Seq<char>),
    Overloaded,
    Internal(Seq<char>),
}

impl View for AnthropicCompatError {
    type V = CompatErrorV;

    open spec fn view(&self) -> CompatErrorV {
        match *self {
            AnthropicCompatError::BadRequest(m) => CompatErrorV::BadRequest(m@),
            AnthropicCompatError::Overloaded => CompatErrorV::Overloaded,
            AnthropicCompatError::Internal(m) => CompatErrorV::Internal(m@),
        }
    }
}

/// The message of an error.
pub open spec fn compat_error_text(e: CompatErrorV) -> Seq<char> {
    match e {
        CompatErrorV::BadRequest(m) => "bad request: "@ + m,
        CompatErrorV::Overloaded => "service overloaded"@,
        CompatErrorV::Internal(m) => "internal error: "@ + m,
    }
}

/// The HTTP status of an error.
pub open spec fn compat_status(e: CompatErrorV) -> u16 {
    match e {
        CompatErrorV::BadRequest(_) => 400,
        CompatErrorV::Overloaded => 429,
        CompatErrorV::Internal(_) => 500,
    }
}

/// What an error of the OpenAI compatible side is on this side.
pub open spec fn carried_over(e: AdapterErrorV) -> CompatErrorV {
    match e {
        AdapterErrorV::BadRequest(m) => CompatErrorV::BadRequest(m),
        AdapterErrorV::Overloaded => CompatErrorV::Overloaded,
        AdapterErrorV::ProviderError(m) => CompatErrorV::Internal(m),
        AdapterErrorV::Internal(m) => CompatErrorV::Internal(m),
        AdapterErrorV::ToolCallRepairNeeded(m) => CompatErrorV::Internal(m),
    }
}

impl AnthropicCompatError {
    /// The HTTP status of the error.
    pub fn status_code(&self) -> (r: u16)
        ensures
            r == compat_status(self@),
    {
        match self {
            AnthropicCompatError::BadRequest(_) => 400,
            AnthropicCompatError::Overloaded => 429,
            AnthropicCompatError::Internal(_) => 500,
        }
    }

    /// The message of the error.
    pub fn message(&self) -> (r: String)
        ensures
            r@ == compat_error_text(self@),
    {
        match self {
            AnthropicCompatError::BadRequest(m) => text::cat2("bad request: ", m.as_str()),
            AnthropicCompatError::Overloaded => "service overloaded".to_owned(),
            AnthropicCompatError::Internal(m) => text::cat2("internal error: ", m.as_str()),
        }
    }

    /// What an error of the OpenAI compatible side is on this side.
    pub fn from_adapter(e: OpenAIAdapterError) -> (r: AnthropicCompatError)
        ensures
            r@ == carried_over(e@),
    {
        match e {
            OpenAIAdapterError::BadRequest(m) => AnthropicCompatError::BadRequest(m),
            OpenAIAdapterError::Overloaded => AnthropicCompatError::Overloaded,
            OpenAIAdapterError::ProviderError(m) => AnthropicCompatError::Internal(m),
            OpenAIAdapterError::Internal(m) => AnthropicCompatError::Internal(m),
            OpenAIAdapterError::ToolCallRepairNeeded(m) => AnthropicCompatError::Internal(m),
        }
    }
}

/// An error keeps its status on its way to this side, unless the back end is at
/// fault: that is an error of the server here.
pub proof fn law_status_is_carried_over(e: AdapterErrorV)
    ensures
        compat_status(carried_over(e)) == (if e is ProviderError {
            500
        } else {
            crate::openai_adapter::adapter_status(e)
        }),
{
}

/// An error keeps its words on its way to this side, and its message ends with
/// them.
pub proof fn law_words_are_carried_over(m: Seq<char>)
    ensures
        carried_over(AdapterErrorV::BadRequest(m)) == CompatErrorV::BadRequest(m),
        carried_over(AdapterErrorV::ProviderError(m)) == CompatErrorV::Internal(m),
        carried_over(AdapterErrorV::Internal(m)) == CompatErrorV::Internal(m),
        carried_over(AdapterErrorV::Overloaded) == CompatErrorV::Overloaded,
        text::stands_at(
            compat_error_text(CompatErrorV::BadRequest(m)),
            m,
            compat_error_text(CompatErrorV::BadRequest(m)).len() - m.len(),
        ),
        text::stands_at(
            compat_error_text(CompatErrorV::Internal(m)),
            m,
            compat_error_text(CompatErrorV::Internal(m)).len() - m.len(),
        ),
{
    let a = compat_error_text(CompatErrorV::BadRequest(m));
    let b = compat_error_text(CompatErrorV::Internal(m));
    assert(a.subrange(a.len() - m.len(), a.len() as int) =~= m);
    assert(b.subrange(b.len() - m.len(), b.len() as int) =~= m);
}

} // verus!
