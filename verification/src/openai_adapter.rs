//! The OpenAI compatible side of the proxy.

use vstd::hash_map::StringHashMap;
use vstd::prelude::*;

use crate::config;
use crate::config::Config;
use crate::copies::Duplicate;
use crate::ds_core::completions::{ChatRequest, FilePayload};
use crate::ds_core::{CoreError, CoreErrorV};
use crate::openai_adapter::prepare::ChatPlan;
use crate::openai_adapter::types::{ChatCompletionsRequest, OpenAIModel, OpenAIModelList};
use crate::text;

pub mod context;
pub mod models;
pub mod prepare;
pub mod request;
pub mod response;
pub mod summaries;
pub mod types;

verus! {

/// Why a request was not answered.
#[derive(Debug)]
pub enum OpenAIAdapterError {
    /// The request is not in order.
    BadRequest(String),
    /// No account of the back end is free.
    Overloaded,
    /// The back end refused or could not be reached.
    ProviderError(String),
    /// Something failed on the way.
    Internal(String),
    /// A block of tool calls could not be read; it holds the block's text.
    ToolCallRepairNeeded(String),
}

/// The model of an `OpenAIAdapterError`.
#[verifier::ext_equal]
pub enum AdapterErrorV {
    BadRequest(Seq<char>),
    Overloaded,
    ProviderError(Seq<char>),
    Internal(Seq<char>),
    ToolCallRepairNeeded(Seq<char>),
}

impl View for OpenAIAdapterError {
    type V = AdapterErrorV;

    open spec fn view(&self) -> AdapterErrorV {
        match *self {
            OpenAIAdapterError::BadRequest(m) => AdapterErrorV::BadRequest(m@),
            OpenAIAdapterError::Overloaded => AdapterErrorV::Overloaded,
            OpenAIAdapterError::ProviderError(m) => AdapterErrorV::ProviderError(m@),
            OpenAIAdapterError::Internal(m) => AdapterErrorV::Internal(m@),
            OpenAIAdapterError::ToolCallRepairNeeded(m) => AdapterErrorV::ToolCallRepairNeeded(m@),
        }
    }
}

/// The message of an error.
pub open spec fn adapter_error_text(e: AdapterErrorV) -> Seq<char> {
    match e {
        AdapterErrorV::BadRequest(m) => "bad request: "@ + m,
        AdapterErrorV::Overloaded => "service overloaded"@,
        AdapterErrorV::ProviderError(m) => "provider error: "@ + m,
        AdapterErrorV::Internal(m) => "internal error: "@ + m,
        AdapterErrorV::ToolCallRepairNeeded(m) => "tool_calls repair needed: "@ + m,
    }
}

/// The HTTP status of an error.
pub open spec fn adapter_status(e: AdapterErrorV) -> u16 {
    match e {
        AdapterErrorV::BadRequest(_) => 400,
        AdapterErrorV::Overloaded => 429,
        AdapterErrorV::ProviderError(_) => 502,
        AdapterErrorV::Internal(_) => 500,
        AdapterErrorV::ToolCallRepairNeeded(_) => 500,
    }
}

/// What an error of the back end is to the caller.
pub open spec fn adapted(e: CoreErrorV) -> AdapterErrorV {
    match e {
        CoreErrorV::Overloaded => AdapterErrorV::Overloaded,
        CoreErrorV::ProofOfWorkFailed(m) => AdapterErrorV::Internal("proof of work failed: "@ + m),
        CoreErrorV::ProviderError(m) => AdapterErrorV::ProviderError(m),
        CoreErrorV::Stream(m) => AdapterErrorV::Internal(m),
    }
}

impl OpenAIAdapterError {
    /// The HTTP status of the error.
    pub fn status_code(&self) -> (r: u16)
        ensures
            r == adapter_status(self@),
    {
        match self {
            OpenAIAdapterError::BadRequest(_) => 400,
            OpenAIAdapterError::Overloaded => 429,
            OpenAIAdapterError::ProviderError(_) => 502,
            OpenAIAdapterError::Internal(_) | OpenAIAdapterError::ToolCallRepairNeeded(_) => 500,
        }
    }

    /// The message of the error.
    pub fn message(&self) -> (r: String)
        ensures
            r@ == adapter_error_text(self@),
    {
        match self {
            OpenAIAdapterError::BadRequest(m) => text::cat2("bad request: ", m.as_str()),
            OpenAIAdapterError::Overloaded => "service overloaded".to_owned(),
            OpenAIAdapterError::ProviderError(m) => text::cat2("provider error: ", m.as_str()),
            OpenAIAdapterError::Internal(m) => text::cat2("internal error: ", m.as_str()),
            OpenAIAdapterError::ToolCallRepairNeeded(m) => text::cat2(
                "tool_calls repair needed: ",
                m.as_str(),
            ),
        }
    }

    /// What an error of the back end is to the caller.
    pub fn from_core(e: CoreError) -> (r: OpenAIAdapterError)
        ensures
            r@ == adapted(e@),
    {
        match e {
            CoreError::Overloaded => OpenAIAdapterError::Overloaded,
            CoreError::ProofOfWorkFailed(m) => OpenAIAdapterError::Internal(
                text::cat2("proof of work failed: ", m.as_str()),
            ),
            CoreError::ProviderError(m) => OpenAIAdapterError::ProviderError(m),
            CoreError::Stream(m) => OpenAIAdapterError::Internal(m),
        }
    }

    /// The error of a value that could not be written as JSON.
    pub fn from_json(message: &str) -> (r: OpenAIAdapterError)
        ensures
            r@ == AdapterErrorV::Internal("json serialization failed: "@ + message@),
    {
        OpenAIAdapterError::Internal(text::cat2("json serialization failed: ", message))
    }
}

/// An answer, with the account that gave it and the size of the prompt.
#[derive(Debug)]
pub struct ChatResult<T> {
    pub data: T,
    pub account_id: String,
    pub prompt_tokens: u32,
}

/// The models that the proxy serves.
pub struct OpenAIAdapter {
    pub model_types: Vec<String>,
    pub model_registry: StringHashMap<String>,
    pub model_aliases: Vec<String>,
    pub max_input_tokens: Vec<u32>,
    pub max_output_tokens: Vec<u32>,
}

impl OpenAIAdapter {
    /// The models are those of a configuration.
    pub open spec fn serves(&self, c: Config) -> bool {
        let d = c.deepseek;
        &&& text::strs(self.model_types@) == text::strs(d.model_types@)
        &&& text::strs(self.model_aliases@) == text::strs(d.model_aliases@)
        &&& self.max_input_tokens@ == d.max_input_tokens@
        &&& self.max_output_tokens@ == d.max_output_tokens@
        &&& config::texts_of(self.model_registry@) == config::registry_of(
            text::strs(d.model_types@),
            text::strs(d.model_aliases@),
            d.model_types@.len() as int,
        )
    }

    /// The models of a configuration.
    pub fn new(c: &Config) -> (r: OpenAIAdapter)
        ensures
            r.serves(*c),
    {
        let d = &c.deepseek;
        let r = OpenAIAdapter {
            model_types: d.model_types.duplicate(),
            model_registry: d.model_registry(),
            model_aliases: d.model_aliases.duplicate(),
            max_input_tokens: d.max_input_tokens.duplicate(),
            max_output_tokens: d.max_output_tokens.duplicate(),
        };
        assert(text::strs(r.model_types@) =~= r.model_types.deep_view());
        assert(text::strs(d.model_types@) =~= d.model_types.deep_view());
        assert(text::strs(r.model_aliases@) =~= r.model_aliases.deep_view());
        assert(text::strs(d.model_aliases@) =~= d.model_aliases.deep_view());
        assert(r.max_input_tokens@ =~= r.max_input_tokens.deep_view());
        assert(d.max_input_tokens@ =~= d.max_input_tokens.deep_view());
        assert(r.max_output_tokens@ =~= r.max_output_tokens.deep_view());
        assert(d.max_output_tokens@ =~= d.max_output_tokens.deep_view());
        r
    }

    /// Changes to the models of another configuration.
    pub fn reload_config(&mut self, new_config: &Config)
        ensures
            final(self).serves(*new_config),
    {
        *self = OpenAIAdapter::new(new_config);
    }

    /// All models.
    pub fn list_models(&self) -> (r: OpenAIModelList)
        ensures
            r.object@ == "list"@,
            models::models_view(r.data@) == models::all_models(
                text::strs(self.model_types@),
                self.max_input_tokens@,
                self.max_output_tokens@,
                text::strs(self.model_aliases@),
            ),
    {
        models::list(
            self.model_types.as_slice(),
            self.max_input_tokens.as_slice(),
            self.max_output_tokens.as_slice(),
            self.model_aliases.as_slice(),
        )
    }

    /// The model with an id.
    pub fn get_model(&self, model_id: &str) -> (r: Option<OpenAIModel>)
        ensures
            match r {
                Some(m) => models::model_named(
                    text::strs(self.model_types@),
                    self.max_input_tokens@,
                    self.max_output_tokens@,
                    text::strs(self.model_aliases@),
                    text::lowercase(model_id@),
                ) == Some(m@),
                None => models::model_named(
                    text::strs(self.model_types@),
                    self.max_input_tokens@,
                    self.max_output_tokens@,
                    text::strs(self.model_aliases@),
                    text::lowercase(model_id@),
                ) is None,
            },
    {
        models::get(
            self.model_types.as_slice(),
            self.max_input_tokens.as_slice(),
            self.max_output_tokens.as_slice(),
            self.model_aliases.as_slice(),
            model_id,
        )
    }

    /// Makes of a request all that is needed to have it answered. The files that
    /// it brings were taken out of it before; a link among its content asks for
    /// a search.
    pub fn chat_completions(
        &self,
        req: ChatCompletionsRequest,
        files: Vec<FilePayload>,
        has_http_urls: bool,
    ) -> (r: Result<ChatPlan, OpenAIAdapterError>)
        ensures
            exists|up: ChatCompletionsRequest| #[trigger]
                prepare::upgrades(req, up) && prepare::plans(
                    up,
                    config::texts_of(self.model_registry@),
                    files,
                    r,
                ),
    {
        prepare::plan_chat(req, &self.model_registry, files, has_http_urls)
    }

    /// Makes the conversation of a request whose answer is handed on as the back
    /// end gives it.
    pub fn raw_chat_completions_stream(&self, req: &ChatCompletionsRequest) -> (r: Result<
        ChatRequest,
        OpenAIAdapterError,
    >)
        ensures
            prepare::plans_raw(*req, config::texts_of(self.model_registry@), r),
    {
        prepare::prepare_raw(req, &self.model_registry)
    }
}

/// The caller's own mistakes, a lack of free accounts, failures of the back end
/// and failures on the way have statuses of their own.
pub proof fn law_status_tells_who_failed(e: AdapterErrorV)
    ensures
        adapter_status(e) == 400 <==> e is BadRequest,
        adapter_status(e) == 429 <==> e is Overloaded,
        adapter_status(e) == 502 <==> e is ProviderError,
        adapter_status(e) == 500 <==> e is Internal || e is ToolCallRepairNeeded,
{
}

/// The message of an error ends with what is wrong.
pub proof fn law_message_tells_what_is_wrong(e: AdapterErrorV)
    ensures
        ({
            let said = adapter_error_text(e);
            let ends = |m: Seq<char>| text::stands_at(said, m, said.len() - m.len());
            &&& e matches AdapterErrorV::BadRequest(m) ==> ends(m)
            &&& e matches AdapterErrorV::ProviderError(m) ==> ends(m)
            &&& e matches AdapterErrorV::Internal(m) ==> ends(m)
            &&& e matches AdapterErrorV::ToolCallRepairNeeded(m) ==> ends(m)
        }),
{
    let said = adapter_error_text(e);
    let n = said.len() as int;
    match e {
        AdapterErrorV::BadRequest(m) => {
            assert(said.subrange(n - m.len(), n) =~= m);
        },
        AdapterErrorV::ProviderError(m) => {
            assert(said.subrange(n - m.len(), n) =~= m);
        },
        AdapterErrorV::Internal(m) => {
            assert(said.subrange(n - m.len(), n) =~= m);
        },
        AdapterErrorV::ToolCallRepairNeeded(m) => {
            assert(said.subrange(n - m.len(), n) =~= m);
        },
        _ => {},
    }
}

/// A failure of the back end stays what it is to the caller: a lack of accounts
/// stays one, a refusal stays a refusal with its words, all else is internal and
/// keeps its words.
pub proof fn law_core_errors_keep_their_kind(e: CoreErrorV)
    ensures
        e is Overloaded <==> adapted(e) is Overloaded,
        e matches CoreErrorV::ProviderError(m) ==> adapted(e) == AdapterErrorV::ProviderError(m),
        e matches CoreErrorV::Stream(m) ==> adapted(e) == AdapterErrorV::Internal(m),
        e matches CoreErrorV::ProofOfWorkFailed(m) ==> (adapted(e) matches AdapterErrorV::Internal(
            t,
        ) && text::stands_at(t, m, t.len() - m.len())),
        !(adapted(e) is BadRequest) && !(adapted(e) is ToolCallRepairNeeded),
{
    if let CoreErrorV::ProofOfWorkFailed(m) = e {
        let t = "proof of work failed: "@ + m;
        assert(t.subrange(t.len() - m.len(), t.len() as int) =~= m);
    }
}

} // verus!
