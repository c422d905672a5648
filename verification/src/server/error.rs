//! How errors go out.

use vstd::prelude::*;

use crate::anthropic_compat;
use crate::anthropic_compat::{AnthropicCompatError, CompatErrorV};
use crate::openai_adapter;
use crate::openai_adapter::{AdapterErrorV, OpenAIAdapterError};
use crate::text;

verus! {

/// After how many seconds an overloaded server may be asked again.
pub const RETRY_AFTER_SECS: u64 = 30;

/// The body of an error of the OpenAI compatible side.
#[derive(Debug)]
pub struct OpenAIErrorBody {
    pub error: OpenAIErrorDetail,
}

/// What an error of the OpenAI compatible side says.
#[derive(Debug)]
pub struct OpenAIErrorDetail {
    pub message: String,
    pub error_type: String,
    pub code: String,
}

/// The body of an error of the Anthropic compatible side.
#[derive(Debug)]
pub struct AnthropicErrorBody {
    pub error_type: String,
    pub message: String,
}

/// An error of the server.
#[derive(Debug)]
pub enum ServerError {
    Adapter(OpenAIAdapterError),
    Anthropic(AnthropicCompatError),
    /// The user has no valid key.
    Unauthorized,
    /// There is no such model.
    NotFound(String),
}

/// The model of a `ServerError`.
#[verifier::ext_equal]
pub enum ServerErrorV {
    Adapter(AdapterErrorV),
    Anthropic(CompatErrorV),
    Unauthorized,
    NotFound(Seq<char>),
}

impl View for ServerError {
    type V = ServerErrorV;

    open spec fn view(&self) -> ServerErrorV {
        match *self {
            ServerError::Adapter(e) => ServerErrorV::Adapter(e@),
            ServerError::Anthropic(e) => ServerErrorV::Anthropic(e@),
            ServerError::Unauthorized => ServerErrorV::Unauthorized,
            ServerError::NotFound(m) => ServerErrorV::NotFound(m@),
        }
    }
}

/// The message of an error.
pub open spec fn server_error_text(e: ServerErrorV) -> Seq<char> {
    match e {
        ServerErrorV::Adapter(a) => openai_adapter::adapter_error_text(a),
        ServerErrorV::Anthropic(c) => anthropic_compat::compat_error_text(c),
        ServerErrorV::Unauthorized => "API token không hợp lệ"@,
        ServerErrorV::NotFound(id) => "Mô hình '"@ + id + "' không tồn tại"@,
    }
}

/// The body of an error that goes out.
#[derive(Debug)]
pub enum ErrorBody {
    OpenAI(OpenAIErrorBody),
    Anthropic(AnthropicErrorBody),
}

/// An error that goes out.
#[derive(Debug)]
pub struct ErrorResponse {
    pub status: u16,
    pub body: ErrorBody,
    /// After how many seconds the server may be asked again.
    pub retry_after: Option<u64>,
}

/// The model of an `ErrorResponse`.
#[verifier::ext_equal]
pub enum ResponseV {
    OpenAI {
        status: int,
        error_type: Seq<char>,
        code: Seq<char>,
        message: Seq<char>,
        retry_after: Option<u64>,
    },
    Anthropic {
        status: int,
        error_type: Seq<char>,
        message: Seq<char>,
        retry_after: Option<u64>,
    },
}

impl View for ErrorResponse {
    type V = ResponseV;

    open spec fn view(&self) -> ResponseV {
        match self.body {
            ErrorBody::OpenAI(b) => ResponseV::OpenAI {
                status: self.status as int,
                error_type: b.error.error_type@,
                code: b.error.code@,
                message: b.error.message@,
                retry_after: self.retry_after,
            },
            ErrorBody::Anthropic(b) => ResponseV::Anthropic {
                status: self.status as int,
                error_type: b.error_type@,
                message: b.message@,
                retry_after: self.retry_after,
            },
        }
    }
}

/// When the server may be asked again: only where it has too much to do.
pub open spec fn retry_of(status: int) -> Option<u64> {
    if status == 429 {
        Some(RETRY_AFTER_SECS)
    } else {
        None
    }
}

/// The status, the type and the code of an error of the OpenAI compatible side.
pub open spec fn openai_kind(e: ServerErrorV) -> (int, Seq<char>, Seq<char>) {
    match e {
        ServerErrorV::Adapter(a) => {
            let kind = match a {
                AdapterErrorV::BadRequest(_) => ("invalid_request_error"@, "bad_request"@),
                AdapterErrorV::Overloaded => ("server_error"@, "overloaded"@),
                AdapterErrorV::ProviderError(_) => ("server_error"@, "provider_error"@),
                _ => ("server_error"@, "internal_error"@),
            };
            (openai_adapter::adapter_status(a) as int, kind.0, kind.1)
        },
        ServerErrorV::Unauthorized => (401, "authentication_error"@, "invalid_api_token"@),
        ServerErrorV::NotFound(_) => (404, "invalid_request_error"@, "model_not_found"@),
        ServerErrorV::Anthropic(_) => (500, "server_error"@, "internal_error"@),
    }
}

/// The type of an error of the Anthropic compatible side.
pub open spec fn anthropic_kind(e: CompatErrorV) -> Seq<char> {
    match e {
        CompatErrorV::BadRequest(_) => "invalid_request_error"@,
        CompatErrorV::Overloaded => "overloaded_error"@,
        CompatErrorV::Internal(_) => "api_error"@,
    }
}

/// An error as it goes out.
pub open spec fn response_of(e: ServerErrorV) -> ResponseV {
    match e {
        ServerErrorV::Anthropic(c) => ResponseV::Anthropic {
            status: anthropic_compat::compat_status(c) as int,
            error_type: anthropic_kind(c),
            message: anthropic_compat::compat_error_text(c),
            retry_after: retry_of(anthropic_compat::compat_status(c) as int),
        },
        _ => ResponseV::OpenAI {
            status: openai_kind(e).0,
            error_type: openai_kind(e).1,
            code: openai_kind(e).2,
            message: server_error_text(e),
            retry_after: retry_of(openai_kind(e).0),
        },
    }
}

impl ServerError {
    /// The message of the error.
    pub fn message(&self) -> (r: String)
        ensures
            r@ == server_error_text(self@),
    {
        match self {
            ServerError::Adapter(e) => e.message(),
            ServerError::Anthropic(e) => e.message(),
            ServerError::Unauthorized => "API token không hợp lệ".to_owned(),
            ServerError::NotFound(id) => text::cat3("Mô hình '", id.as_str(), "' không tồn tại"),
        }
    }

    /// The error as it goes out.
    pub fn response(&self) -> (r: ErrorResponse)
        ensures
            r@ == response_of(self@),
    {
        match self {
            ServerError::Anthropic(e) => anthropic_error_response(e),
            _ => self.openai_error_response(),
        }
    }

    fn openai_error_response(&self) -> (r: ErrorResponse)
        requires
            !(self@ is Anthropic),
        ensures
            r@ == response_of(self@),
    {
        let (status, error_type, code): (u16, &str, &str) = match self {
            ServerError::Adapter(e) => {
                let (t, c) = match e {
                    OpenAIAdapterError::BadRequest(_) => ("invalid_request_error", "bad_request"),
                    OpenAIAdapterError::Overloaded => ("server_error", "overloaded"),
                    OpenAIAdapterError::ProviderError(_) => ("server_error", "provider_error"),
                    OpenAIAdapterError::Internal(_) => ("server_error", "internal_error"),
                    OpenAIAdapterError::ToolCallRepairNeeded(_) => (
                        "server_error",
                        "internal_error",
                    ),
                };
                (e.status_code(), t, c)
            },
            ServerError::Unauthorized => (401, "authentication_error", "invalid_api_token"),
            ServerError::NotFound(_) => (404, "invalid_request_error", "model_not_found"),
            ServerError::Anthropic(_) => (500, "server_error", "internal_error"),
        };
        ErrorResponse {
            status,
            body: ErrorBody::OpenAI(
                OpenAIErrorBody {
                    error: OpenAIErrorDetail {
                        message: self.message(),
                        error_type: error_type.to_owned(),
                        code: code.to_owned(),
                    },
                },
            ),
            retry_after: retry_after(status),
        }
    }
}

fn retry_after(status: u16) -> (r: Option<u64>)
    ensures
        r == retry_of(status as int),
{
    if status == 429 {
        Some(RETRY_AFTER_SECS)
    } else {
        None
    }
}

fn anthropic_error_response(e: &AnthropicCompatError) -> (r: ErrorResponse)
    ensures
        r@ == response_of(ServerErrorV::Anthropic(e@)),
{
    let error_type = match e {
        AnthropicCompatError::BadRequest(_) => "invalid_request_error",
        AnthropicCompatError::Overloaded => "overloaded_error",
        AnthropicCompatError::Internal(_) => "api_error",
    };
    let status: u16 = e.status_code();
    ErrorResponse {
        status,
        body: ErrorBody::Anthropic(
            AnthropicErrorBody { error_type: error_type.to_owned(), message: e.message() },
        ),
        retry_after: retry_after(status),
    }
}

/// Whoever is turned away because no account is free is told when to come back,
/// and nobody else is.
pub proof fn law_only_overload_asks_to_retry(e: ServerErrorV)
    ensures
        ({
            let retry = match response_of(e) {
                ResponseV::OpenAI { retry_after, .. } => retry_after,
                ResponseV::Anthropic { retry_after, .. } => retry_after,
            };
            retry is Some <==> (e == ServerErrorV::Adapter(AdapterErrorV::Overloaded) || e
                == ServerErrorV::Anthropic(CompatErrorV::Overloaded))
        }),
{
}

/// An error goes out in the form of the side that it belongs to, with its own
/// message.
pub proof fn law_error_goes_out_in_its_form(e: ServerErrorV, m: Seq<char>)
    ensures
        response_of(e) is Anthropic <==> e is Anthropic,
        match response_of(e) {
            ResponseV::OpenAI { message, .. } => message == server_error_text(e),
            ResponseV::Anthropic { message, .. } => message == server_error_text(e),
        },
        text::occurs(server_error_text(ServerErrorV::NotFound(m)), m),
        response_of(ServerErrorV::NotFound(m)) matches ResponseV::OpenAI { status, .. } && status
            == 404,
        response_of(ServerErrorV::Unauthorized) matches ResponseV::OpenAI { status, .. } && status
            == 401,
        e matches ServerErrorV::Adapter(a) ==> (response_of(e) matches ResponseV::OpenAI {
            status,
            ..
        } && status == openai_adapter::adapter_status(a)),
        e matches ServerErrorV::Anthropic(c) ==> (response_of(e) matches ResponseV::Anthropic {
            status,
            ..
        } && status == anthropic_compat::compat_status(c)),
{
    text::lemma_occurs_between("Mô hình '"@, m, "' không tồn tại"@);
}

/// The type of an error tells whose fault it is: a request that is not in order is
/// the fault of the user, exactly where the status says so.
pub proof fn law_type_agrees_with_the_status(e: ServerErrorV)
    ensures
        response_of(e) matches ResponseV::OpenAI { status, error_type, .. } ==> {
            &&& error_type == "invalid_request_error"@ <==> status == 400 || status == 404
            &&& error_type == "authentication_error"@ <==> status == 401
            &&& error_type == "server_error"@ <==> status == 429 || status >= 500
        },
        response_of(e) matches ResponseV::Anthropic { status, error_type, .. } ==> {
            &&& error_type == "invalid_request_error"@ <==> status == 400
            &&& error_type == "overloaded_error"@ <==> status == 429
            &&& error_type == "api_error"@ <==> status == 500
        },
{
    reveal_strlit("invalid_request_error");
    reveal_strlit("authentication_error");
    reveal_strlit("server_error");
    reveal_strlit("overloaded_error");
    reveal_strlit("api_error");
    assert("invalid_request_error"@.len() == 21 && "authentication_error"@.len() == 20
        && "server_error"@.len() == 12 && "overloaded_error"@.len() == 16 && "api_error"@.len()
        == 9);
}

} // verus!
