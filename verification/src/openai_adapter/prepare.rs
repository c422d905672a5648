//! From a request to the conversation with the back end, and what is done when
//! that conversation fails.

use vstd::hash_map::StringHashMap;
use vstd::prelude::*;

use crate::config;
use crate::ds_core::accounts;
use crate::ds_core::accounts::AccountStatus;
use crate::ds_core::completions::{ChatRequest, FilePayload};
use crate::ds_core::CoreError;
use crate::json;
use crate::openai_adapter::request::normalize;
use crate::openai_adapter::request::normalize::NormalizedParams;
use crate::openai_adapter::request::prompt;
use crate::openai_adapter::request::resolver;
use crate::openai_adapter::request::tools;
use crate::openai_adapter::types::{
    ChatCompletionsRequest, FunctionCallOption, FunctionDefinition, NamedToolChoice,
    Tool, ToolChoice,
};
use crate::openai_adapter::{AdapterErrorV, OpenAIAdapterError};
use crate::text;

verus! {

/// So often a request is made while no account is free.
pub const MAX_RETRIES: usize = 2;

/// How long to wait before the second try, in milliseconds.
pub const BASE_DELAY_MS: u64 = 2000;

/// The tools in which a request has functions of the older form.
pub open spec fn old_tools(req: ChatCompletionsRequest) -> bool {
    (req.tools matches Some(t) ==> t@.len() == 0) && (req.functions matches Some(f) && f@.len() > 0)
}

/// The tool that a function of the older form is.
pub open spec fn is_tool_of(t: Tool, f: FunctionDefinition) -> bool {
    t.ty@ == "function"@ && t.function == Some(f) && t.custom is None
}

/// The tool choice that a choice of the older form is.
pub open spec fn is_choice_of(tc: ToolChoice, fc: FunctionCallOption) -> bool {
    match fc {
        FunctionCallOption::Mode(m) => tc == ToolChoice::Mode(m),
        FunctionCallOption::Named(n) => tc matches ToolChoice::Named(named) && named.ty@
            == "function"@ && named.function == n,
    }
}

/// `up` is `req` with its functions and function choice brought into the form
/// of tools, where it has no tools or tool choice of its own. What was brought
/// over is gone from where it stood.
pub open spec fn upgrades(req: ChatCompletionsRequest, up: ChatCompletionsRequest) -> bool {
    &&& up.model == req.model
    &&& up.messages == req.messages
    &&& up.stream == req.stream
    &&& up.parallel_tool_calls == req.parallel_tool_calls
    &&& up.reasoning_effort == req.reasoning_effort
    &&& up.web_search_options == req.web_search_options
    &&& up.stream_options == req.stream_options
    &&& up.stop == req.stop
    &&& up.response_format == req.response_format
    &&& up.prompt_cache_key == req.prompt_cache_key
    &&& up.metadata == req.metadata
    &&& up.user == req.user
    &&& if old_tools(req) {
        &&& up.tools is Some
        &&& up.tools->0@.len() == req.functions->0@.len()
        &&& forall|i: int|
            0 <= i < up.tools->0@.len() ==> is_tool_of(
                #[trigger] up.tools->0@[i],
                req.functions->0@[i],
            )
        &&& up.functions is None
    } else {
        up.tools == req.tools && up.functions == req.functions
    }
    &&& if req.tool_choice is None && req.function_call is Some {
        &&& up.tool_choice is Some
        &&& is_choice_of(up.tool_choice->0, req.function_call->0)
        &&& up.function_call is None
    } else {
        up.tool_choice == req.tool_choice && up.function_call == req.function_call
    }
}

/// The functions as tools.
fn tools_of(functions: Vec<FunctionDefinition>) -> (r: Vec<Tool>)
    ensures
        r@.len() == functions@.len(),
        forall|i: int| 0 <= i < r@.len() ==> is_tool_of(#[trigger] r@[i], functions@[i]),
{
    let ghost all = functions@;
    let mut rest = functions;
    let mut out: Vec<Tool> = Vec::new();
    let ghost mut done: int = 0;
    assert(all.subrange(0, all.len() as int) =~= all);
    while rest.len() > 0
        invariant
            0 <= done <= all.len(),
            rest@ == all.subrange(done, all.len() as int),
            out@.len() == done,
            forall|i: int| 0 <= i < done ==> is_tool_of(#[trigger] out@[i], all[i]),
        decreases rest@.len(),
    {
        let f = rest.remove(0);
        assert(f == all[done]);
        out.push(Tool { ty: "function".to_owned(), function: Some(f), custom: None });
        proof {
            done = done + 1;
        }
        assert(rest@ =~= all.subrange(done, all.len() as int));
    }
    out
}

/// Brings functions and a function choice of the older form into the form of
/// tools, where the request has no tools or tool choice of its own.
pub fn upgrade(req: ChatCompletionsRequest) -> (r: ChatCompletionsRequest)
    ensures
        upgrades(req, r),
{
    let mut req = req;
    let no_tools = match &req.tools {
        Some(t) => t.len() == 0,
        None => true,
    };
    let has_functions = match &req.functions {
        Some(f) => f.len() > 0,
        None => false,
    };
    if no_tools && has_functions {
        if let Some(functions) = req.functions.take() {
            req.tools = Some(tools_of(functions));
        }
    }
    if req.tool_choice.is_none() {
        if let Some(fc) = req.function_call.take() {
            req.tool_choice = Some(
                match fc {
                    FunctionCallOption::Mode(mode) => ToolChoice::Mode(mode),
                    FunctionCallOption::Named(named) => ToolChoice::Named(
                        NamedToolChoice { ty: "function".to_owned(), function: named },
                    ),
                },
            );
        }
    }
    req
}

/// The model type that a registry gives a model.
pub open spec fn model_type_of(registry: Map<Seq<char>, Seq<char>>, model: Seq<char>) -> Option<
    Seq<char>,
> {
    if registry.contains_key(text::lowercase(model)) {
        Some(registry[text::lowercase(model)])
    } else {
        None
    }
}

/// What is said of a model that is not known.
pub open spec fn unknown_model(model: Seq<char>) -> Seq<char> {
    "Mô hình không được hỗ trợ: "@ + model
}

/// What is wrong with a request, in the order in which it is looked at: its
/// form, its tools, its model.
pub open spec fn refusal(
    req: ChatCompletionsRequest,
    registry: Map<Seq<char>, Seq<char>>,
) -> Option<Seq<char>> {
    match normalize::request_error(req) {
        Some(e) => Some(e),
        None => match tools::tool_context(req) {
            Err(e) => Some(e),
            Ok(_) => if model_type_of(registry, req.model@) is None {
                Some(unknown_model(req.model@))
            } else {
                None
            },
        },
    }
}

/// What is wrong with a request whose answer is to be handed on as it is: its
/// model, its tools.
pub open spec fn raw_refusal(
    req: ChatCompletionsRequest,
    registry: Map<Seq<char>, Seq<char>>,
) -> Option<Seq<char>> {
    if model_type_of(registry, req.model@) is None {
        Some(unknown_model(req.model@))
    } else {
        match tools::tool_context(req) {
            Err(e) => Some(e),
            Ok(_) => None,
        }
    }
}

/// `chat` is the conversation that a request asks for.
pub open spec fn is_chat_of(
    req: ChatCompletionsRequest,
    registry: Map<Seq<char>, Seq<char>>,
    chat: ChatRequest,
) -> bool {
    &&& tools::tool_context(req) matches Ok(ctx) && chat.prompt@ == prompt::prompt_text(req, ctx)
    &&& model_type_of(registry, req.model@) == Some(chat.model_type@)
    &&& chat.thinking_enabled == (req.reasoning_effort matches Some(e) ==> e@ != "none"@)
    &&& chat.search_enabled
}

/// A request that is ready to be made.
#[derive(Debug)]
pub struct Prepared {
    pub params: NormalizedParams,
    pub chat: ChatRequest,
}

/// Checks a request and makes the conversation of it. The files that it brings
/// were taken out of it before; a link among its content asks for a search.
pub fn prepare(
    req: &ChatCompletionsRequest,
    registry: &StringHashMap<String>,
    files: Vec<FilePayload>,
    has_http_urls: bool,
) -> (r: Result<Prepared, OpenAIAdapterError>)
    ensures
        match r {
            Err(e) => refusal(*req, config::texts_of(registry@)) is Some && e@
                == AdapterErrorV::BadRequest(refusal(*req, config::texts_of(registry@))->0),
            Ok(p) => {
                &&& refusal(*req, config::texts_of(registry@)) is None
                &&& is_chat_of(*req, config::texts_of(registry@), p.chat)
                &&& p.chat.files == files
                &&& p.params.include_usage == (req.stream_options matches Some(o)
                    && o.include_usage)
                &&& p.params.include_obfuscation == (req.stream_options matches Some(o)
                    ==> o.include_obfuscation)
                &&& text::strs(p.params.stop@) == normalize::stop_texts(*req)
            },
        },
{
    let params = match normalize::apply(req) {
        Ok(p) => p,
        Err(e) => {
            return Err(OpenAIAdapterError::BadRequest(e));
        },
    };
    let tool_ctx = match tools::extract(req) {
        Ok(c) => c,
        Err(e) => {
            return Err(OpenAIAdapterError::BadRequest(e));
        },
    };
    let built = prompt::build(req, &tool_ctx);
    match resolver::resolve(
        registry,
        req.model.as_str(),
        &req.reasoning_effort,
        &req.web_search_options,
    ) {
        Err(e) => Err(OpenAIAdapterError::BadRequest(e)),
        Ok(model) => Ok(
            Prepared {
                params,
                chat: ChatRequest {
                    prompt: built,
                    thinking_enabled: model.thinking_enabled,
                    search_enabled: model.search_enabled || has_http_urls,
                    model_type: model.model_type,
                    files,
                },
            },
        ),
    }
}

/// `r` is the conversation of a request whose answer is to be handed on as it
/// is, or why there is none.
pub open spec fn plans_raw(
    req: ChatCompletionsRequest,
    registry: Map<Seq<char>, Seq<char>>,
    r: Result<ChatRequest, OpenAIAdapterError>,
) -> bool {
    match r {
        Err(e) => raw_refusal(req, registry) is Some && e@ == AdapterErrorV::BadRequest(
            raw_refusal(req, registry)->0,
        ),
        Ok(chat) => {
            &&& raw_refusal(req, registry) is None
            &&& is_chat_of(req, registry, chat)
            &&& chat.files@.len() == 0
        },
    }
}

/// Makes the conversation of a request whose answer is to be handed on as it
/// is.
pub fn prepare_raw(req: &ChatCompletionsRequest, registry: &StringHashMap<String>) -> (r: Result<
    ChatRequest,
    OpenAIAdapterError,
>)
    ensures
        plans_raw(*req, config::texts_of(registry@), r),
{
    let model = match resolver::resolve(
        registry,
        req.model.as_str(),
        &req.reasoning_effort,
        &req.web_search_options,
    ) {
        Ok(m) => m,
        Err(e) => {
            return Err(OpenAIAdapterError::BadRequest(e));
        },
    };
    match tools::extract(req) {
        Err(e) => Err(OpenAIAdapterError::BadRequest(e)),
        Ok(tool_ctx) => Ok(
            ChatRequest {
                prompt: prompt::build(req, &tool_ctx),
                thinking_enabled: model.thinking_enabled,
                search_enabled: model.search_enabled,
                model_type: model.model_type,
                files: Vec::new(),
            },
        ),
    }
}

/// How many tokens of the cl100k vocabulary a text is, unless it cannot be cut
/// into tokens.
pub uninterp spec fn cl100k_tokens(s: Seq<char>) -> Option<usize>;

/// `tiktoken_rs::CoreBPE::encode`, over the vocabulary of
/// `tiktoken_rs::cl100k_base_singleton` and with all of its special tokens
/// allowed: the number of tokens is a function of the text. The encoder gives an
/// error where its pattern cannot be matched within its limits.
#[verifier::external_body]
fn count_cl100k(s: &str) -> (r: Option<usize>)
    ensures
        r == cl100k_tokens(s@),
{
    let bpe = tiktoken_rs::cl100k_base_singleton();
    bpe.encode(s, &bpe.special_tokens()).ok().map(|t| t.0.len())
}

/// A count that fits.
pub open spec fn fitting(n: Option<usize>) -> Option<u32> {
    match n {
        Some(n) => if n <= u32::MAX {
            Some(n as u32)
        } else {
            None
        },
        None => None,
    }
}

/// A count, where there is one and it fits.
pub fn fit_count(n: Option<usize>) -> (r: Option<u32>)
    ensures
        r == fitting(n),
{
    match n {
        Some(n) => if n <= u32::MAX as usize {
            Some(n as u32)
        } else {
            None
        },
        None => None,
    }
}

/// How many tokens a prompt is; nothing if it cannot be said or does not fit.
pub fn prompt_tokens(prompt: &str) -> (r: Option<u32>)
    ensures
        r == fitting(cl100k_tokens(prompt@)),
{
    fit_count(count_cl100k(prompt))
}

/// What a repair is told of a function.
pub open spec fn tool_def(f: FunctionDefinition) -> Seq<char> {
    "- "@ + f.name@ + ": "@ + match json::printed(f.parameters) {
        Some(p) => p,
        None => Seq::empty(),
    }
}

/// What a repair is told of the first `n` tools.
pub open spec fn tool_def_lines(t: Seq<Tool>, n: int) -> Seq<Seq<char>>
    decreases n,
{
    if n <= 0 {
        Seq::empty()
    } else {
        match t[n - 1].function {
            Some(f) => tool_def_lines(t, n - 1).push(tool_def(f)),
            None => tool_def_lines(t, n - 1),
        }
    }
}

/// What a repair is told of the functions among the tools of a request.
pub fn tool_defs(given: &Option<Vec<Tool>>) -> (r: Option<String>)
    ensures
        match *given {
            Some(t) => r is Some && r->0@ == text::joined(
                tool_def_lines(t@, t@.len() as int),
                "\n"@,
                tool_def_lines(t@, t@.len() as int).len() as int,
            ),
            None => r is None,
        },
{
    match given {
        None => None,
        Some(list) => {
            let mut lines: Vec<String> = Vec::new();
            assert(text::strs(lines@) =~= Seq::empty());
            let mut i: usize = 0;
            while i < list.len()
                invariant
                    i <= list@.len(),
                    text::strs(lines@) == tool_def_lines(list@, i as int),
                decreases list@.len() - i,
            {
                if let Some(f) = &list[i].function {
                    let p = match json::print(&f.parameters) {
                        Some(p) => p,
                        None => String::new(),
                    };
                    assert(p@ =~= match json::printed(f.parameters) {
                        Some(p) => p,
                        None => Seq::empty(),
                    });
                    let line = text::cat4("- ", f.name.as_str(), ": ", p.as_str());
                    text::add_line(&mut lines, line.as_str());
                }
                i += 1;
            }
            Some(text::join(&lines, "\n"))
        },
    }
}

/// How the chunks of an answer are made.
#[derive(Debug)]
pub struct StreamCfg {
    pub include_usage: bool,
    pub include_obfuscation: bool,
    /// The texts at which the answer stops.
    pub stop: Vec<String>,
}

/// How the chunks of an answer are made: as the request wants them where it
/// wants chunks; for a whole answer with the usage and without padding.
pub fn stream_cfg(params: NormalizedParams, stream: bool) -> (r: StreamCfg)
    ensures
        r.include_usage == (!stream || params.include_usage),
        r.include_obfuscation == (stream && params.include_obfuscation),
        r.stop == params.stop,
{
    if stream {
        StreamCfg {
            include_usage: params.include_usage,
            include_obfuscation: params.include_obfuscation,
            stop: params.stop,
        }
    } else {
        StreamCfg { include_usage: true, include_obfuscation: false, stop: params.stop }
    }
}

/// All that is needed to have a request answered.
#[derive(Debug)]
pub struct ChatPlan {
    pub chat: ChatRequest,
    pub model: String,
    /// Whether the answer goes out in chunks, or else as a whole.
    pub stream: bool,
    pub cfg: StreamCfg,
    /// The size of the prompt; nothing if it cannot be said or does not fit.
    pub prompt_tokens: Option<u32>,
    /// What a repair is told of the tools.
    pub tools_info: String,
}

/// What a repair is told of the tools of a request.
pub open spec fn tools_text(req: ChatCompletionsRequest) -> Seq<char> {
    match req.tools {
        Some(t) => text::joined(
            tool_def_lines(t@, t@.len() as int),
            "\n"@,
            tool_def_lines(t@, t@.len() as int).len() as int,
        ),
        None => Seq::empty(),
    }
}

/// `r` is how a request whose functions are tools is to be answered, or why it
/// cannot be.
pub open spec fn plans(
    req: ChatCompletionsRequest,
    registry: Map<Seq<char>, Seq<char>>,
    files: Vec<FilePayload>,
    r: Result<ChatPlan, OpenAIAdapterError>,
) -> bool {
    match r {
        Err(e) => refusal(req, registry) is Some && e@ == AdapterErrorV::BadRequest(
            refusal(req, registry)->0,
        ),
        Ok(p) => {
            &&& refusal(req, registry) is None
            &&& is_chat_of(req, registry, p.chat)
            &&& p.chat.files == files
            &&& p.model == req.model
            &&& p.stream == req.stream
            &&& p.cfg.include_usage == (req.stream ==> (req.stream_options matches Some(o)
                && o.include_usage))
            &&& p.cfg.include_obfuscation == (req.stream && (req.stream_options matches Some(o)
                ==> o.include_obfuscation))
            &&& text::strs(p.cfg.stop@) == normalize::stop_texts(req)
            &&& p.prompt_tokens == fitting(cl100k_tokens(p.chat.prompt@))
            &&& p.tools_info@ == tools_text(req)
        },
    }
}

/// Makes of a request all that is needed to have it answered. The files that it
/// brings were taken out of it before; a link among its content asks for a
/// search.
pub fn plan_chat(
    req: ChatCompletionsRequest,
    registry: &StringHashMap<String>,
    files: Vec<FilePayload>,
    has_http_urls: bool,
) -> (r: Result<ChatPlan, OpenAIAdapterError>)
    ensures
        exists|up: ChatCompletionsRequest| #[trigger]
            upgrades(req, up) && plans(up, config::texts_of(registry@), files, r),
{
    let req = upgrade(req);
    let prepared = match prepare(&req, registry, files, has_http_urls) {
        Ok(p) => p,
        Err(e) => {
            return Err(e);
        },
    };
    let tools_info = match tool_defs(&req.tools) {
        Some(t) => t,
        None => String::new(),
    };
    assert(tools_info@ =~= tools_text(req));
    let prompt_tokens = prompt_tokens(prepared.chat.prompt.as_str());
    Ok(
        ChatPlan {
            chat: prepared.chat,
            model: req.model,
            stream: req.stream,
            cfg: stream_cfg(prepared.params, req.stream),
            prompt_tokens,
            tools_info,
        },
    )
}

/// What the back end is told in order to repair a block of tool calls.
pub open spec fn repair_text(tools_info: Seq<char>, broken: Seq<char>) -> Seq<char> {
    let intro = if tools_info.len() == 0 {
        Seq::empty()
    } else {
        "Định nghĩa công cụ khả dụng:\n"@ + tools_info + "\n\n"@
    };
    intro
        + "Hãy trích xuất nội dung trong code block sau và chuyển thành mảng JSON gọi công cụ hợp lệ.\nMỗi phần tử phải có trường \"name\" (chuỗi) và \"arguments\" (object).\nChỉ xuất chính mảng JSON, không thêm code fence hoặc giải thích.\nLưu ý: dấu nháy và ký tự xuống dòng trong giá trị chuỗi phải được escape bằng dấu gạch chéo ngược (ví dụ \\\" và \\n).\n\nNội dung cần sửa:\n~~~\n"@
        + broken + "\n~~~"@
}

/// The conversation in which the back end repairs a block of tool calls.
pub fn repair_request(tools_info: &str, broken: &str) -> (r: ChatRequest)
    ensures
        r.prompt@ == repair_text(tools_info@, broken@),
        !r.thinking_enabled,
        !r.search_enabled,
        r.model_type@ == "default"@,
        r.files@.len() == 0,
{
    let intro = if tools_info.is_empty() {
        String::new()
    } else {
        text::cat3("Định nghĩa công cụ khả dụng:\n", tools_info, "\n\n")
    };
    assert(intro@ =~= if tools_info@.len() == 0 {
        Seq::empty()
    } else {
        "Định nghĩa công cụ khả dụng:\n"@ + tools_info@ + "\n\n"@
    });
    let prompt = text::cat4(
        intro.as_str(),
        "Hãy trích xuất nội dung trong code block sau và chuyển thành mảng JSON gọi công cụ hợp lệ.\nMỗi phần tử phải có trường \"name\" (chuỗi) và \"arguments\" (object).\nChỉ xuất chính mảng JSON, không thêm code fence hoặc giải thích.\nLưu ý: dấu nháy và ký tự xuống dòng trong giá trị chuỗi phải được escape bằng dấu gạch chéo ngược (ví dụ \\\" và \\n).\n\nNội dung cần sửa:\n~~~\n",
        broken,
        "\n~~~",
    );
    ChatRequest {
        prompt,
        thinking_enabled: false,
        search_enabled: false,
        model_type: "default".to_owned(),
        files: Vec::new(),
    }
}

/// The id of the repair number `n` of a request.
pub fn repair_id(request_id: &str, n: u16) -> (r: String)
    ensures
        r@ == request_id@ + "-repair-"@ + text::decimal(n as nat),
{
    let d = text::decimal_of(n as u64);
    text::cat3(request_id, "-repair-", d.as_str())
}

/// How long to wait before a request is made again after the try number
/// `attempt`, counted from 0, failed: only while no account is free, twice as
/// long after each try, and not after the last.
pub open spec fn retry_wait(attempt: int, overloaded: bool) -> Option<int> {
    if overloaded && attempt + 1 < MAX_RETRIES {
        Some(BASE_DELAY_MS * vstd::arithmetic::power2::pow2(attempt as nat))
    } else {
        None
    }
}

/// How long to wait before a request is made again after the try number
/// `attempt`, counted from 0, failed.
pub fn retry_delay(attempt: usize, error: &CoreError) -> (r: Option<u64>)
    ensures
        match r {
            Some(ms) => retry_wait(attempt as int, *error is Overloaded) == Some(ms as int),
            None => retry_wait(attempt as int, *error is Overloaded) is None,
        },
{
    match error {
        CoreError::Overloaded => {
            if attempt < MAX_RETRIES - 1 {
                assert(attempt == 0);
                assert(1u64 << 0usize == 1) by (bit_vector);
                proof {
                    vstd::arithmetic::power2::lemma2_to64();
                }
                Some(BASE_DELAY_MS * (1u64 << attempt))
            } else {
                None
            }
        },
        _ => None,
    }
}

/// The names of some accounts that are shown.
pub open spec fn shown_ids(old: Seq<AccountStatus>) -> Seq<Seq<char>> {
    Seq::new(old.len(), |i: int| accounts::shown_name(old[i].email@, old[i].mobile@))
}

/// The positions, among the first `n` names, of those that are not in `known`.
pub open spec fn unknown_positions(
    names: Seq<Seq<char>>,
    known: Seq<Seq<char>>,
    n: int,
) -> Seq<int>
    decreases n,
{
    if n <= 0 {
        Seq::empty()
    } else if known.contains(names[n - 1]) {
        unknown_positions(names, known, n - 1)
    } else {
        unknown_positions(names, known, n - 1).push(n - 1)
    }
}

/// Those of the first `n` names that are not in `kept`, but for empty ones.
pub open spec fn dropped_names(
    names: Seq<Seq<char>>,
    kept: Seq<Seq<char>>,
    n: int,
) -> Seq<Seq<char>>
    decreases n,
{
    if n <= 0 {
        Seq::empty()
    } else if kept.contains(names[n - 1]) || names[n - 1].len() == 0 {
        dropped_names(names, kept, n - 1)
    } else {
        dropped_names(names, kept, n - 1).push(names[n - 1])
    }
}

/// Positions as models.
pub open spec fn ints(v: Seq<usize>) -> Seq<int> {
    Seq::new(v.len(), |i: int| v[i] as int)
}

/// What makes the accounts those of a configuration.
#[derive(Debug)]
pub struct SyncPlan {
    /// The positions of the accounts to add.
    pub add: Vec<usize>,
    /// The names of the accounts to remove.
    pub remove: Vec<String>,
}

fn is_listed(names: &Vec<String>, name: &str) -> (r: bool)
    ensures
        r == text::strs(names@).contains(name@),
{
    let mut i: usize = 0;
    while i < names.len()
        invariant
            i <= names@.len(),
            forall|k: int| 0 <= k < i ==> text::strs(names@)[k] != name@,
        decreases names@.len() - i,
    {
        if text::same(names[i].as_str(), name) {
            assert(text::strs(names@)[i as int] == name@);
            return true;
        }
        i += 1;
    }
    false
}

/// What makes the accounts that are there those of a configuration: first those
/// that are new are added, then those that it has no more are removed.
pub fn plan_sync(old: &Vec<AccountStatus>, new: &Vec<config::Account>) -> (r: SyncPlan)
    ensures
        ints(r.add@) == unknown_positions(
            config::account_keys(new@),
            shown_ids(old@),
            new@.len() as int,
        ),
        text::strs(r.remove@) == dropped_names(
            shown_ids(old@),
            config::account_keys(new@),
            old@.len() as int,
        ),
{
    let mut old_ids: Vec<String> = Vec::new();
    let mut i: usize = 0;
    while i < old.len()
        invariant
            i <= old@.len(),
            text::strs(old_ids@) == shown_ids(old@).take(i as int),
        decreases old@.len() - i,
    {
        let id = if old[i].email.as_str().is_empty() {
            old[i].mobile.as_str()
        } else {
            old[i].email.as_str()
        };
        text::add_line(&mut old_ids, id);
        i += 1;
        assert(shown_ids(old@).take(i as int) =~= shown_ids(old@).take(i - 1).push(
            shown_ids(old@)[i - 1],
        ));
    }
    assert(shown_ids(old@).take(old@.len() as int) =~= shown_ids(old@));
    let mut new_ids: Vec<String> = Vec::new();
    let mut add: Vec<usize> = Vec::new();
    assert(ints(add@) =~= Seq::empty());
    let mut j: usize = 0;
    while j < new.len()
        invariant
            j <= new@.len(),
            text::strs(old_ids@) == shown_ids(old@),
            text::strs(new_ids@) == config::account_keys(new@).take(j as int),
            ints(add@) == unknown_positions(
                config::account_keys(new@),
                shown_ids(old@),
                j as int,
            ),
        decreases new@.len() - j,
    {
        let id = if new[j].email.as_str().is_empty() {
            new[j].mobile.as_str()
        } else {
            new[j].email.as_str()
        };
        assert(id@ == config::account_keys(new@)[j as int]);
        if !is_listed(&old_ids, id) {
            let ghost was = add@;
            add.push(j);
            assert(ints(add@) =~= ints(was).push(j as int));
        }
        text::add_line(&mut new_ids, id);
        j += 1;
        assert(config::account_keys(new@).take(j as int) =~= config::account_keys(new@).take(
            j - 1,
        ).push(config::account_keys(new@)[j - 1]));
    }
    assert(config::account_keys(new@).take(new@.len() as int) =~= config::account_keys(new@));
    let mut remove: Vec<String> = Vec::new();
    assert(text::strs(remove@) =~= Seq::empty());
    let mut k: usize = 0;
    while k < old_ids.len()
        invariant
            k <= old_ids@.len(),
            old_ids@.len() == old@.len(),
            text::strs(old_ids@) == shown_ids(old@),
            text::strs(new_ids@) == config::account_keys(new@),
            text::strs(remove@) == dropped_names(
                shown_ids(old@),
                config::account_keys(new@),
                k as int,
            ),
        decreases old_ids@.len() - k,
    {
        assert(old_ids@[k as int]@ == shown_ids(old@)[k as int]);
        if !is_listed(&new_ids, old_ids[k].as_str()) && !old_ids[k].as_str().is_empty() {
            text::add_line(&mut remove, old_ids[k].as_str());
        }
        k += 1;
    }
    SyncPlan { add, remove }
}

proof fn lemma_unknown_positions(names: Seq<Seq<char>>, known: Seq<Seq<char>>, n: int, i: int)
    requires
        0 <= n <= names.len(),
    ensures
        unknown_positions(names, known, n).contains(i) <==> 0 <= i < n && !known.contains(
            names[i],
        ),
    decreases n,
{
    if n > 0 {
        lemma_unknown_positions(names, known, n - 1, i);
        let before = unknown_positions(names, known, n - 1);
        if !known.contains(names[n - 1]) {
            let all = before.push(n - 1);
            assert(all[all.len() - 1] == n - 1);
            if before.contains(i) {
                let k = choose|k: int| 0 <= k < before.len() && before[k] == i;
                assert(all[k] == i);
            }
            if all.contains(i) && i != n - 1 {
                let k = choose|k: int| 0 <= k < all.len() && all[k] == i;
                assert(before[k] == i);
            }
        }
    }
}

proof fn lemma_dropped_names(
    names: Seq<Seq<char>>,
    kept: Seq<Seq<char>>,
    n: int,
    name: Seq<char>,
)
    requires
        0 <= n <= names.len(),
    ensures
        dropped_names(names, kept, n).contains(name) <==> names.take(n).contains(name)
            && !kept.contains(name) && name.len() > 0,
    decreases n,
{
    if n > 0 {
        lemma_dropped_names(names, kept, n - 1, name);
        let before = dropped_names(names, kept, n - 1);
        let last = names[n - 1];
        assert(names.take(n) =~= names.take(n - 1).push(last));
        assert(names.take(n).contains(name) <==> names.take(n - 1).contains(name) || name == last)
            by {
            let t = names.take(n - 1);
            let u = t.push(last);
            if t.contains(name) {
                let k = choose|k: int| 0 <= k < t.len() && t[k] == name;
                assert(u[k] == name);
            }
            assert(u[n - 1] == last);
        }
        if !(kept.contains(last) || last.len() == 0) {
            let all = before.push(last);
            assert(all[all.len() - 1] == last);
            if before.contains(name) {
                let k = choose|k: int| 0 <= k < before.len() && before[k] == name;
                assert(all[k] == name);
            }
            if all.contains(name) && name != last {
                let k = choose|k: int| 0 <= k < all.len() && all[k] == name;
                assert(before[k] == name);
            }
        }
    }
}

/// Once the plan is carried out, exactly the accounts of the configuration are
/// there: a name is there if it was and is not removed, or is added. An account
/// without a name is never removed.
pub proof fn law_sync_reaches_the_target(
    old: Seq<AccountStatus>,
    new: Seq<config::Account>,
    name: Seq<char>,
)
    requires
        name.len() > 0,
    ensures
        ({
            let had = shown_ids(old);
            let wanted = config::account_keys(new);
            let removed = dropped_names(had, wanted, had.len() as int);
            let added = unknown_positions(wanted, had, wanted.len() as int);
            wanted.contains(name) <==> (had.contains(name) && !removed.contains(name)) || (exists|
                i: int,
            | #[trigger] added.contains(i) && wanted[i] == name)
        }),
{
    let had = shown_ids(old);
    let wanted = config::account_keys(new);
    let added = unknown_positions(wanted, had, wanted.len() as int);
    lemma_dropped_names(had, wanted, had.len() as int, name);
    assert(had.take(had.len() as int) =~= had);
    if wanted.contains(name) && !had.contains(name) {
        let i = choose|i: int| 0 <= i < wanted.len() && wanted[i] == name;
        lemma_unknown_positions(wanted, had, wanted.len() as int, i);
        assert(added.contains(i) && wanted[i] == name);
    }
    if exists|i: int| #[trigger] added.contains(i) && wanted[i] == name {
        let i = choose|i: int| #[trigger] added.contains(i) && wanted[i] == name;
        lemma_unknown_positions(wanted, had, wanted.len() as int, i);
    }
}

/// Functions of the older form become tools one by one where there are no
/// tools, and a function choice becomes a tool choice where there is none. What
/// the request has in the newer form counts, and nothing else changes.
pub proof fn law_older_forms_become_tools(
    req: ChatCompletionsRequest,
    up: ChatCompletionsRequest,
    i: int,
)
    requires
        upgrades(req, up),
    ensures
        up.messages == req.messages && up.model == req.model && up.stream == req.stream && up.stop
            == req.stop,
        req.tools matches Some(t) ==> (t@.len() > 0 ==> up.tools == req.tools),
        req.functions is None ==> up.tools == req.tools,
        (req.tools is None || req.tools->0@.len() == 0) && req.functions is Some
            && req.functions->0@.len() > 0 ==> {
            &&& up.tools matches Some(t) && t@.len() == req.functions->0@.len()
            &&& 0 <= i < req.functions->0@.len() ==> up.tools->0@[i].ty@ == "function"@
                && up.tools->0@[i].function == Some(req.functions->0@[i])
        },
        req.tool_choice is Some ==> up.tool_choice == req.tool_choice,
        req.tool_choice is None && req.function_call is None ==> up.tool_choice is None,
        req.tool_choice is None ==> (req.function_call matches Some(FunctionCallOption::Mode(m))
            ==> up.tool_choice == Some(ToolChoice::Mode(m))),
        req.tool_choice is None ==> (req.function_call matches Some(FunctionCallOption::Named(n))
            ==> (up.tool_choice matches Some(ToolChoice::Named(c)) && c.function == n)),
{
    if (req.tools is None || req.tools->0@.len() == 0) && req.functions is Some
        && req.functions->0@.len() > 0 {
        if 0 <= i < req.functions->0@.len() {
            assert(is_tool_of(up.tools->0@[i], req.functions->0@[i]));
        }
    }
}

/// A request is refused exactly where it is not in order, where its tools are
/// refused, or where its model is not known; any other is planned.
pub proof fn law_refused_or_planned(
    req: ChatCompletionsRequest,
    registry: Map<Seq<char>, Seq<char>>,
)
    ensures
        refusal(req, registry) is None <==> {
            &&& normalize::request_error(req) is None
            &&& tools::tool_context(req) is Ok
            &&& registry.contains_key(text::lowercase(req.model@))
        },
        raw_refusal(req, registry) is None <==> {
            &&& tools::tool_context(req) is Ok
            &&& registry.contains_key(text::lowercase(req.model@))
        },
        normalize::request_error(req) is Some ==> refusal(req, registry)
            == normalize::request_error(req),
        !registry.contains_key(text::lowercase(req.model@)) ==> raw_refusal(req, registry) == Some(
            "Mô hình không được hỗ trợ: "@ + req.model@,
        ),
{
}

/// A planned conversation says all that the request says: every message with
/// content is in its prompt, it goes to the model that the registry gives, and it
/// thinks unless that is declined.
pub proof fn law_planned_chat_says_everything(
    req: ChatCompletionsRequest,
    registry: Map<Seq<char>, Seq<char>>,
    chat: ChatRequest,
    i: int,
)
    requires
        is_chat_of(req, registry, chat),
    ensures
        0 <= i < req.messages@.len() && req.messages.deep_view()[i].content is Some ==> text::occurs(
            chat.prompt@,
            prompt::content_text(req.messages.deep_view()[i].content->0),
        ),
        registry.contains_key(text::lowercase(req.model@)) && chat.model_type@
            == registry[text::lowercase(req.model@)],
        req.reasoning_effort is None ==> chat.thinking_enabled,
        req.reasoning_effort matches Some(e) ==> (chat.thinking_enabled <==> e@ != "none"@),
        chat.search_enabled,
{
    let ctx = tools::tool_context(req)->Ok_0;
    if 0 <= i < req.messages@.len() && req.messages.deep_view()[i].content is Some {
        prompt::law_every_message_is_in_the_prompt(req, ctx, i);
    }
}

/// The parameters of every function that a request offers are in the prompt of
/// its conversation, as they are printed, with what the function is for.
pub proof fn law_planned_chat_tells_the_parameters(
    req: ChatCompletionsRequest,
    registry: Map<Seq<char>, Seq<char>>,
    chat: ChatRequest,
    list: Vec<Tool>,
    i: int,
    f: FunctionDefinition,
)
    requires
        is_chat_of(req, registry, chat),
        req.tools == Some(list),
        0 <= i < list@.len(),
        list@[i].ty@ == "function"@,
        list@[i].function == Some(f),
        !(req.tool_choice matches Some(ToolChoice::Mode(m)) && m@ == "none"@),
    ensures
        json::printed(f.parameters) matches Some(t) ==> text::occurs(chat.prompt@, t),
        text::occurs(chat.prompt@, "\"name\": \""@ + f.name@ + "\", \"arguments\": "@),
        f.description matches Some(t) ==> text::occurs(chat.prompt@, text::trimmed(t@)),
{
    let ctx = tools::tool_context(req)->Ok_0;
    tools::law_every_tool_is_defined(req, ctx, i);
    prompt::law_tool_context_is_told(req, ctx);
    let defs = ctx.defs_text->0;
    text::lemma_occurs_through(
        chat.prompt@,
        defs,
        "\"name\": \""@ + f.name@ + "\", \"arguments\": "@,
    );
    if let Some(t) = json::printed(f.parameters) {
        text::lemma_occurs_through(chat.prompt@, defs, t);
    }
    if let Some(t) = f.description {
        text::lemma_occurs_through(chat.prompt@, defs, text::trimmed(t@));
    }
}

/// A plan answers the request as it was made: in chunks or whole, for the same
/// model, with its files, its stop texts, and the usage and padding that it asked
/// for. A whole answer always has the usage and never a padding.
pub proof fn law_plan_follows_the_request(
    req: ChatCompletionsRequest,
    registry: Map<Seq<char>, Seq<char>>,
    files: Vec<FilePayload>,
    p: ChatPlan,
)
    requires
        plans(req, registry, files, Ok(p)),
    ensures
        p.model == req.model && p.stream == req.stream && p.chat.files == files,
        text::strs(p.cfg.stop@) == normalize::stop_texts(req),
        !req.stream ==> p.cfg.include_usage && !p.cfg.include_obfuscation,
        req.stream && req.stream_options is None ==> !p.cfg.include_usage
            && p.cfg.include_obfuscation,
        req.stream ==> (req.stream_options matches Some(o) ==> p.cfg.include_usage
            == o.include_usage && p.cfg.include_obfuscation == o.include_obfuscation),
        cl100k_tokens(p.chat.prompt@) matches Some(n) ==> (n <= u32::MAX ==> p.prompt_tokens
            == Some(n as u32)),
        is_chat_of(req, registry, p.chat),
{
}

/// The size of a prompt is told exactly where it is known and fits.
pub proof fn law_counts_that_fit(n: Option<usize>)
    ensures
        fitting(n) matches Some(k) ==> n == Some(k as usize),
        fitting(n) is None <==> n is None || n->0 > u32::MAX,
{
}

proof fn lemma_def_listed(t: Seq<Tool>, n: int, k: int) -> (j: int)
    requires
        0 <= k < n <= t.len(),
        t[k].function is Some,
    ensures
        0 <= j < tool_def_lines(t, n).len(),
        tool_def_lines(t, n)[j] == tool_def(t[k].function->0),
    decreases n,
{
    if k == n - 1 {
        tool_def_lines(t, n - 1).len() as int
    } else {
        lemma_def_listed(t, n - 1, k)
    }
}

/// A repair is told of every function of the request, with its name and its
/// parameters, and is given the whole text that it is to repair.
pub proof fn law_repair_is_told_everything(
    req: ChatCompletionsRequest,
    list: Vec<Tool>,
    k: int,
    f: FunctionDefinition,
    broken: Seq<char>,
)
    requires
        req.tools == Some(list),
        0 <= k < list@.len(),
        list@[k].function == Some(f),
    ensures
        text::occurs(
            repair_text(tools_text(req), broken),
            "- "@ + f.name@ + ": "@ + (match json::printed(f.parameters) {
                Some(p) => p,
                None => Seq::empty(),
            }),
        ),
        text::occurs(repair_text(tools_text(req), broken), "~~~\n"@ + broken + "\n~~~"@),
{
    let lines = tool_def_lines(list@, list@.len() as int);
    let j = lemma_def_listed(list@, list@.len() as int, k);
    text::lemma_joined_holds(lines, "\n"@, lines.len() as int, j);
    let info = tools_text(req);
    let line = tool_def(f);
    reveal_strlit("- ");
    assert(info.len() > 0) by {
        text::lemma_find_bounds(info, line, 0);
    }
    let intro = "Định nghĩa công cụ khả dụng:\n"@ + info + "\n\n"@;
    let asked =
        "Hãy trích xuất nội dung trong code block sau và chuyển thành mảng JSON gọi công cụ hợp lệ.\nMỗi phần tử phải có trường \"name\" (chuỗi) và \"arguments\" (object).\nChỉ xuất chính mảng JSON, không thêm code fence hoặc giải thích.\nLưu ý: dấu nháy và ký tự xuống dòng trong giá trị chuỗi phải được escape bằng dấu gạch chéo ngược (ví dụ \\\" và \\n).\n\nNội dung cần sửa:\n~~~\n"@;
    let whole = repair_text(info, broken);
    let front = "Định nghĩa công cụ khả dụng:\n"@;
    let back = "\n\n"@ + asked + broken + "\n~~~"@;
    assert(whole =~= front + info + back);
    text::lemma_occurs_between(front, info, back);
    text::lemma_occurs_through(whole, info, line);
    law_repair_shows_the_text(info, broken);
}

/// Whatever the tools, a repair is given the whole text between its fences.
pub proof fn law_repair_shows_the_text(info: Seq<char>, broken: Seq<char>)
    ensures
        text::occurs(repair_text(info, broken), "~~~\n"@ + broken + "\n~~~"@),
{
    let intro = if info.len() == 0 {
        Seq::empty()
    } else {
        "Định nghĩa công cụ khả dụng:\n"@ + info + "\n\n"@
    };
    reveal_strlit(
        "Hãy trích xuất nội dung trong code block sau và chuyển thành mảng JSON gọi công cụ hợp lệ.\nMỗi phần tử phải có trường \"name\" (chuỗi) và \"arguments\" (object).\nChỉ xuất chính mảng JSON, không thêm code fence hoặc giải thích.\nLưu ý: dấu nháy và ký tự xuống dòng trong giá trị chuỗi phải được escape bằng dấu gạch chéo ngược (ví dụ \\\" và \\n).\n\nNội dung cần sửa:\n~~~\n",
    );
    reveal_strlit("~~~\n");
    let asked =
        "Hãy trích xuất nội dung trong code block sau và chuyển thành mảng JSON gọi công cụ hợp lệ.\nMỗi phần tử phải có trường \"name\" (chuỗi) và \"arguments\" (object).\nChỉ xuất chính mảng JSON, không thêm code fence hoặc giải thích.\nLưu ý: dấu nháy và ký tự xuống dòng trong giá trị chuỗi phải được escape bằng dấu gạch chéo ngược (ví dụ \\\" và \\n).\n\nNội dung cần sửa:\n~~~\n"@;
    let cut = asked.len() - 4;
    assert(asked =~= asked.subrange(0, cut) + "~~~\n"@);
    let shown = "~~~\n"@ + broken + "\n~~~"@;
    let none = Seq::<char>::empty();
    let front = intro + asked.subrange(0, cut);
    assert(repair_text(info, broken) =~= front + shown + none);
    text::lemma_occurs_between(front, shown, none);
}

/// A request is made again only while no account is free, twice at most, and
/// with a wait that doubles each time.
pub proof fn law_retries_wait_longer(attempt: int)
    requires
        0 <= attempt,
    ensures
        attempt == 0 ==> retry_wait(attempt, true) == Some(2000int),
        attempt >= 1 ==> retry_wait(attempt, true) is None,
        retry_wait(attempt, false) is None,
{
    vstd::arithmetic::power2::lemma2_to64();
}

/// A conversation whose answer is handed on as it is says all that the request
/// says, goes to its model, and takes no files along.
pub proof fn law_raw_plan_says_everything(
    req: ChatCompletionsRequest,
    registry: Map<Seq<char>, Seq<char>>,
    chat: ChatRequest,
    i: int,
)
    requires
        plans_raw(req, registry, Ok(chat)),
    ensures
        chat.files@.len() == 0,
        0 <= i < req.messages@.len() && req.messages.deep_view()[i].content is Some ==> text::occurs(
            chat.prompt@,
            prompt::content_text(req.messages.deep_view()[i].content->0),
        ),
        registry.contains_key(text::lowercase(req.model@)) && chat.model_type@
            == registry[text::lowercase(req.model@)],
        req.reasoning_effort is None ==> chat.thinking_enabled,
{
    law_planned_chat_says_everything(req, registry, chat, i);
}

/// Nothing stands in both forms afterwards: what became a tool or a tool choice is
/// gone from where it stood, and what did not stays there. To bring a request into
/// the newer form once more changes nothing.
pub proof fn law_older_forms_are_gone(req: ChatCompletionsRequest, up: ChatCompletionsRequest)
    requires
        upgrades(req, up),
    ensures
        old_tools(req) ==> up.functions is None,
        !old_tools(req) ==> up.functions == req.functions,
        !old_tools(up),
        req.tool_choice is None ==> up.function_call is None,
        req.tool_choice is Some ==> up.function_call == req.function_call,
        upgrades(up, up),
{
}

} // verus!
