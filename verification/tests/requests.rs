use ds_free_api::config::DeepSeekConfig;
use ds_free_api::json::Json;
use ds_free_api::openai_adapter::prepare::{prepare, upgrade};
use ds_free_api::openai_adapter::types::{
    AllowedTools, AllowedToolsChoice, ChatCompletionsRequest, CustomTool, CustomToolFormat,
    FunctionCall, FunctionCallOption, FunctionDefinition, Grammar, Message, MessageContent,
    NamedCustomToolChoice, NamedFunction, NamedToolChoice, ResponseFormat, StopSequence,
    StreamOptions, Tool, ToolCall, ToolChoice, WebSearchOptions,
};
use ds_free_api::openai_adapter::OpenAIAdapterError;
use serde_json::Value;

fn body(text: &str) -> Value {
    serde_json::from_str(text).unwrap()
}

fn to_json(v: &Value) -> Json {
    match v {
        Value::Null => Json::Null,
        Value::Bool(b) => Json::Bool(*b),
        Value::Number(n) => Json::Number(n.to_string()),
        Value::String(s) => Json::Text(s.clone()),
        Value::Array(a) => Json::Array(a.iter().map(to_json).collect()),
        Value::Object(m) => Json::Object(m.iter().map(|(k, x)| (k.clone(), to_json(x))).collect()),
    }
}

fn text_of(v: &Value, key: &str) -> Option<String> {
    v.get(key).and_then(|x| x.as_str()).map(|s| s.to_string())
}

fn must(v: &Value, key: &str) -> String {
    text_of(v, key).unwrap_or_default()
}

fn function(v: &Value) -> FunctionDefinition {
    FunctionDefinition {
        name: must(v, "name"),
        description: text_of(v, "description"),
        parameters: v.get("parameters").map(to_json).unwrap_or(Json::Null),
        strict: v.get("strict").and_then(|x| x.as_bool()),
    }
}

fn custom(v: &Value) -> CustomTool {
    CustomTool {
        name: must(v, "name"),
        description: text_of(v, "description"),
        format: v.get("format").map(|f| {
            if f["type"] == "grammar" {
                CustomToolFormat::Grammar {
                    grammar: Grammar {
                        definition: must(&f["grammar"], "definition"),
                        syntax: must(&f["grammar"], "syntax"),
                    },
                }
            } else {
                CustomToolFormat::Text
            }
        }),
    }
}

fn tool(v: &Value) -> Tool {
    Tool {
        ty: must(v, "type"),
        function: v.get("function").map(function),
        custom: v.get("custom").map(custom),
    }
}

fn choice(v: &Value) -> ToolChoice {
    if let Some(mode) = v.as_str() {
        return ToolChoice::Mode(mode.to_string());
    }
    let ty = must(v, "type");
    if let Some(a) = v.get("allowed_tools") {
        ToolChoice::AllowedTools(AllowedToolsChoice {
            ty,
            allowed_tools: AllowedTools {
                mode: must(a, "mode"),
                tools: a
                    .get("tools")
                    .and_then(|t| t.as_array())
                    .map(|t| t.iter().map(to_json).collect()),
            },
        })
    } else if let Some(c) = v.get("custom") {
        ToolChoice::Custom(NamedCustomToolChoice {
            ty,
            custom: NamedFunction { name: must(c, "name") },
        })
    } else {
        ToolChoice::Named(NamedToolChoice {
            ty,
            function: NamedFunction { name: must(&v["function"], "name") },
        })
    }
}

fn call(v: &Value) -> ToolCall {
    ToolCall {
        id: must(v, "id"),
        ty: must(v, "type"),
        function: v.get("function").map(|f| FunctionCall {
            name: must(f, "name"),
            arguments: must(f, "arguments"),
        }),
        custom: None,
        index: 0,
    }
}

fn message(v: &Value) -> Message {
    Message {
        role: must(v, "role"),
        content: text_of(v, "content").map(MessageContent::Text),
        name: text_of(v, "name"),
        tool_call_id: text_of(v, "tool_call_id"),
        tool_calls: v
            .get("tool_calls")
            .and_then(|t| t.as_array())
            .map(|t| t.iter().map(call).collect()),
        function_call: None,
        refusal: None,
        audio: None,
    }
}

fn list<T>(v: &Value, key: &str, f: fn(&Value) -> T) -> Option<Vec<T>> {
    v.get(key).and_then(|x| x.as_array()).map(|a| a.iter().map(f).collect())
}

fn request(v: &Value) -> ChatCompletionsRequest {
    let mut req = ChatCompletionsRequest::new(
        must(v, "model"),
        list(v, "messages", message).unwrap_or_default(),
    );
    req.stream = v.get("stream").and_then(|x| x.as_bool()).unwrap_or(false);
    req.tools = list(v, "tools", tool);
    req.tool_choice = v.get("tool_choice").map(choice);
    req.functions = list(v, "functions", function);
    req.function_call = v.get("function_call").map(|f| match f.as_str() {
        Some(mode) => FunctionCallOption::Mode(mode.to_string()),
        None => FunctionCallOption::Named(NamedFunction { name: must(f, "name") }),
    });
    req.parallel_tool_calls = v.get("parallel_tool_calls").and_then(|x| x.as_bool());
    req.reasoning_effort = text_of(v, "reasoning_effort");
    req.web_search_options = v.get("web_search_options").map(|w| WebSearchOptions {
        search_context_size: text_of(w, "search_context_size"),
    });
    req.stream_options = v.get("stream_options").map(|o| StreamOptions {
        include_usage: o["include_usage"].as_bool().unwrap_or(false),
        include_obfuscation: o["include_obfuscation"].as_bool().unwrap_or(true),
    });
    req.stop = v.get("stop").map(|s| match s.as_str() {
        Some(one) => StopSequence::Single(one.to_string()),
        None => StopSequence::Multiple(
            s.as_array().unwrap().iter().map(|x| x.as_str().unwrap().to_string()).collect(),
        ),
    });
    req.response_format = v.get("response_format").map(|f| ResponseFormat {
        ty: must(f, "type"),
        json_schema: f.get("json_schema").map(to_json),
    });
    req
}

#[derive(Debug)]
struct Parsed {
    prompt: String,
    thinking_enabled: bool,
    search_enabled: bool,
    stream: bool,
    include_usage: bool,
    include_obfuscation: bool,
    stop: Vec<String>,
}

fn parse_json(v: Value) -> Result<Parsed, OpenAIAdapterError> {
    let req = upgrade(request(&v));
    let registry = DeepSeekConfig::default().model_registry();
    let p = prepare(&req, &registry, Vec::new(), false)?;
    Ok(Parsed {
        prompt: p.chat.prompt,
        thinking_enabled: p.chat.thinking_enabled,
        search_enabled: p.chat.search_enabled,
        stream: req.stream,
        include_usage: p.params.include_usage,
        include_obfuscation: p.params.include_obfuscation,
        stop: p.params.stop,
    })
}

#[test]
fn basic_chat() {
    let body = body(r#"{
        "model": "deepseek-default",
        "messages": [
            { "role": "system", "content": "Ban la mot tro ly huu ich." },
            { "role": "user", "content": "Xin chao" }
        ]
    }"#);
    let req = parse_json(body).unwrap();
    assert!(!req.prompt.is_empty());
}

#[test]
fn tool_conversation() {
    let body = body(r#"{
        "model": "deepseek-default",
        "messages": [
            { "role": "user", "content": "Thoi tiet Ha Noi the nao?" },
            {
                "role": "assistant",
                "content": null,
                "tool_calls": [
                    {
                        "id": "call_abc123",
                        "type": "function",
                        "function": { "name": "get_weather", "arguments": "{\"city\":\"Hanoi\"}" }
                    }
                ]
            },
            {
                "role": "tool",
                "tool_call_id": "call_abc123",
                "content": "Ha Noi hom nay nang, 25°C."
            },
            { "role": "user", "content": "Cam on" }
        ]
    }"#);
    let req = parse_json(body).unwrap();
    assert!(req.prompt.contains("get_weather"));
}

#[test]
fn reasoning_and_search_flags() {
    let body = body(r#"{
        "model": "deepseek-expert",
        "messages": [
            { "role": "user", "content": "Phan tich dien toan luong tu" }
        ],
        "reasoning_effort": "high",
        "web_search_options": { "search_context_size": "high" }
    }"#);
    let req = parse_json(body).unwrap();
    assert!(req.thinking_enabled);
    assert!(req.search_enabled);
}

#[test]
fn missing_model() {
    let body = body(r#"{
        "messages": [{ "role": "user", "content": "Xin chao" }]
    }"#);
    let err = parse_json(body).unwrap_err();
    assert!(matches!(err, OpenAIAdapterError::BadRequest(_)));
    assert!(err.message().contains("model"));
}

#[test]
fn missing_messages() {
    let body = body(r#"{
        "model": "deepseek-default"
    }"#);
    let err = parse_json(body).unwrap_err();
    assert!(matches!(err, OpenAIAdapterError::BadRequest(_)));
    assert!(err.message().contains("messages"));
}

#[test]
fn tool_missing_tool_call_id() {
    let body = body(r#"{
        "model": "deepseek-default",
        "messages": [
            { "role": "user", "content": "hi" },
            { "role": "tool", "content": "result" }
        ]
    }"#);
    let err = parse_json(body).unwrap_err();
    assert!(matches!(err, OpenAIAdapterError::BadRequest(_)));
    assert!(err.message().contains("tool_call_id"));
}

#[test]
fn function_missing_name() {
    let body = body(r#"{
        "model": "deepseek-default",
        "messages": [
            { "role": "user", "content": "hi" },
            { "role": "function", "content": "result" }
        ]
    }"#);
    let err = parse_json(body).unwrap_err();
    assert!(matches!(err, OpenAIAdapterError::BadRequest(_)));
    assert!(err.message().contains("name"));
}

#[test]
fn unsupported_model() {
    let body = body(r#"{
        "model": "gpt-4",
        "messages": [{ "role": "user", "content": "hello" }]
    }"#);
    let err = parse_json(body).unwrap_err();
    assert!(matches!(err, OpenAIAdapterError::BadRequest(_)));
    assert!(err.message().contains("không được hỗ trợ"));
}

#[test]
fn reasoning_effort_variants() {
    for (effort, expected) in [
        ("minimal", true),
        ("low", true),
        ("medium", true),
        ("high", true),
        ("xhigh", true),
        ("unknown", true),
        ("", true),
    ] {
        let mut body = body(r#"{
            "model": "deepseek-default",
            "messages": [{ "role": "user", "content": "hi" }]
        }"#);
        body["reasoning_effort"] = Value::String(effort.to_string());
        let req = parse_json(body).unwrap();
        assert_eq!(
            req.thinking_enabled, expected,
            "reasoning_effort={}",
            effort
        );
    }

    let body = body(r#"{
        "model": "deepseek-default",
        "messages": [{ "role": "user", "content": "hi" }]
    }"#);
    let req = parse_json(body).unwrap();
    assert!(
        req.thinking_enabled,
        "reasoning_effort absent should default to high"
    );
}

#[test]
fn search_enabled_by_default() {
    let body = body(r#"{
        "model": "deepseek-default",
        "messages": [{ "role": "user", "content": "hi" }]
    }"#);
    let req = parse_json(body).unwrap();
    assert!(req.search_enabled);
}

#[test]
fn stop_single() {
    let body = body(r#"{
        "model": "deepseek-default",
        "messages": [{ "role": "user", "content": "hi" }],
        "stop": "EOF"
    }"#);
    let req = parse_json(body).unwrap();
    assert_eq!(req.stop, vec!["EOF"]);
}

#[test]
fn stop_multiple() {
    let body = body(r#"{
        "model": "deepseek-default",
        "messages": [{ "role": "user", "content": "hi" }],
        "stop": ["STOP", "HALT"]
    }"#);
    let req = parse_json(body).unwrap();
    assert_eq!(req.stop, vec!["STOP", "HALT"]);
}

#[test]
fn stream_options() {
    let req = parse_json(body(r#"{
        "model": "deepseek-default",
        "messages": [{ "role": "user", "content": "hi" }]
    }"#))
    .unwrap();
    assert_eq!(req.stream, false);
    assert_eq!(req.include_usage, false);
    assert_eq!(req.include_obfuscation, true);

    let req2 = parse_json(body(r#"{
        "model": "deepseek-default",
        "messages": [{ "role": "user", "content": "hi" }],
        "stream_options": { "include_usage": true, "include_obfuscation": false }
    }"#))
    .unwrap();
    assert_eq!(req2.include_usage, true);
    assert_eq!(req2.include_obfuscation, false);
}

#[test]
fn tool_choice_none_ignores_tools() {
    let body = body(r#"{
        "model": "deepseek-default",
        "messages": [{ "role": "user", "content": "hi" }],
        "tools": [
            {
                "type": "function",
                "function": { "name": "f", "parameters": {} }
            }
        ],
        "tool_choice": "none"
    }"#);
    let req = parse_json(body).unwrap();
    assert!(!req.prompt.contains("Bạn có thể dùng các công cụ sau"));
}

#[test]
fn tool_choice_required_instruction() {
    let body = body(r#"{
        "model": "deepseek-default",
        "messages": [{ "role": "user", "content": "hi" }],
        "tools": [
            {
                "type": "function",
                "function": { "name": "f" }
            }
        ],
        "tool_choice": "required"
    }"#);
    let req = parse_json(body).unwrap();
    assert!(req.prompt.contains("bạn phải gọi một hoặc nhiều công cụ"));
}

#[test]
fn parallel_tool_calls_false_instruction() {
    let body = body(r#"{
        "model": "deepseek-default",
        "messages": [{ "role": "user", "content": "hi" }],
        "tools": [
            { "type": "function", "function": { "name": "f" } }
        ],
        "parallel_tool_calls": false
    }"#);
    let req = parse_json(body).unwrap();
    assert!(req.prompt.contains("mỗi lần chỉ được gọi một công cụ"));
}

#[test]
fn tool_choice_named_function() {
    let body = body(r#"{
        "model": "deepseek-default",
        "messages": [{ "role": "user", "content": "hi" }],
        "tools": [
            { "type": "function", "function": { "name": "get_weather" } }
        ],
        "tool_choice": { "type": "function", "function": { "name": "get_weather" } }
    }"#);
    let req = parse_json(body).unwrap();
    assert!(req.prompt.contains("bạn phải gọi công cụ 'get_weather'"));
}

#[test]
fn tool_choice_allowed_tools() {
    let body = body(r#"{
        "model": "deepseek-default",
        "messages": [{ "role": "user", "content": "hi" }],
        "tools": [
            { "type": "function", "function": { "name": "get_weather" } },
            { "type": "function", "function": { "name": "get_time" } }
        ],
        "tool_choice": {
            "type": "allowed_tools",
            "allowed_tools": {
                "mode": "required",
                "tools": [
                    { "type": "function", "function": { "name": "get_weather" } }
                ]
            }
        }
    }"#);
    let req = parse_json(body).unwrap();
    assert!(
        req.prompt
            .contains("bạn chỉ được chọn trong các công cụ được phép sau: get_weather")
    );
    assert!(req.prompt.contains("bạn phải gọi một hoặc nhiều công cụ"));
}

#[test]
fn tool_choice_custom() {
    let body = body(r#"{
        "model": "deepseek-default",
        "messages": [{ "role": "user", "content": "hi" }],
        "tools": [
            {
                "type": "custom",
                "custom": { "name": "my_custom", "format": { "type": "text" } }
            }
        ],
        "tool_choice": { "type": "custom", "custom": { "name": "my_custom" } }
    }"#);
    let req = parse_json(body).unwrap();
    assert!(req.prompt.contains("**my_custom** (custom):"));
    assert!(
        req.prompt
            .contains("bạn phải gọi công cụ tùy chỉnh 'my_custom'")
    );
}

#[test]
fn custom_tool_grammar_format() {
    let body = body(r#"{
        "model": "deepseek-default",
        "messages": [{ "role": "user", "content": "hi" }],
        "tools": [
            {
                "type": "custom",
                "custom": {
                    "name": "grammar_tool",
                    "description": " grammar based tool",
                    "format": {
                        "type": "grammar",
                        "grammar": {
                            "definition": "start: word+",
                            "syntax": "lark"
                        }
                    }
                }
            }
        ]
    }"#);
    let req = parse_json(body).unwrap();
    assert!(req.prompt.contains("grammar(syntax: lark)"));
}

#[test]
fn custom_tool_missing_format() {
    let body = body(r#"{
        "model": "deepseek-default",
        "messages": [{ "role": "user", "content": "hi" }],
        "tools": [
            {
                "type": "custom",
                "custom": { "name": "no_format" }
            }
        ]
    }"#);
    let req = parse_json(body).unwrap();
    assert!(req.prompt.contains("Cách gọi:"));
    assert!(req.prompt.contains("Không ràng buộc"));
}

#[test]
fn tool_empty_name() {
    let body = body(r#"{
        "model": "deepseek-default",
        "messages": [{ "role": "user", "content": "hi" }],
        "tools": [
            { "type": "function", "function": { "name": "" } }
        ]
    }"#);
    let err = parse_json(body).unwrap_err();
    assert!(matches!(err, OpenAIAdapterError::BadRequest(_)));
    assert!(err.message().contains("name"));
}

#[test]
fn tool_choice_required_without_tools() {
    let body = body(r#"{
        "model": "deepseek-default",
        "messages": [{ "role": "user", "content": "hi" }],
        "tool_choice": "required"
    }"#);
    let err = parse_json(body).unwrap_err();
    assert!(matches!(err, OpenAIAdapterError::BadRequest(_)));
}

#[test]
fn allowed_tools_bad_mode() {
    let body = body(r#"{
        "model": "deepseek-default",
        "messages": [{ "role": "user", "content": "hi" }],
        "tools": [
            { "type": "function", "function": { "name": "f" } }
        ],
        "tool_choice": {
            "type": "allowed_tools",
            "allowed_tools": { "mode": "invalid", "tools": [] }
        }
    }"#);
    let err = parse_json(body).unwrap_err();
    assert!(matches!(err, OpenAIAdapterError::BadRequest(_)));
}

#[test]
fn tools_injected_into_think_block() {
    let body = body(r#"{
        "model": "deepseek-default",
        "messages": [
            { "role": "user", "content": "Cau hoi thu nhat" },
            { "role": "assistant", "content": "Tra loi" },
            { "role": "user", "content": "Cau hoi thu hai" }
        ],
        "tools": [
            { "type": "function", "function": { "name": "calc" } }
        ]
    }"#);
    let req = parse_json(body).unwrap();
    let prompt = &req.prompt;
    assert!(
        prompt.contains(
            "<｜Assistant｜><think>Tôi vừa được hệ thống nhắc cần tuân thủ nội dung sau:"
        ),
        "Dinh nghia cong cu phai duoc inject vao block <think>"
    );
    assert!(prompt.contains("## Gọi công cụ"));
    assert!(prompt.contains("calc"));
    let think_pos = prompt.find("<｜Assistant｜><think>").unwrap();
    let last_user_pos = prompt.rfind("Cau hoi thu hai").unwrap();
    assert!(
        think_pos > last_user_pos,
        "Block <think> phai nam sau user message cuoi"
    );
}

#[test]
fn functions_legacy_to_tools() {
    let body = body(r#"{
        "model": "deepseek-default",
        "messages": [{ "role": "user", "content": "Thoi tiet Ha Noi?" }],
        "functions": [
            {
                "name": "get_weather",
                "description": "Lay thoi tiet",
                "parameters": { "type": "object", "properties": { "city": { "type": "string" } } }
            }
        ],
        "function_call": "auto"
    }"#);
    let req = parse_json(body).unwrap();
    assert!(req.prompt.contains("get_weather"));
    assert!(req.prompt.contains("Bạn có thể dùng các công cụ sau"));
}

#[test]
fn function_call_named_legacy() {
    let body = body(r#"{
        "model": "deepseek-default",
        "messages": [{ "role": "user", "content": "Tra thoi tiet" }],
        "functions": [
            { "name": "get_weather", "parameters": {} }
        ],
        "function_call": { "name": "get_weather" }
    }"#);
    let req = parse_json(body).unwrap();
    assert!(req.prompt.contains("bạn phải gọi công cụ 'get_weather'"));
}

#[test]
fn tools_priority_over_functions() {
    let body = body(r#"{
        "model": "deepseek-default",
        "messages": [{ "role": "user", "content": "hi" }],
        "tools": [
            { "type": "function", "function": { "name": "tool_a", "parameters": {} } }
        ],
        "functions": [
            { "name": "func_b", "parameters": {} }
        ],
        "tool_choice": "auto",
        "function_call": { "name": "func_b" }
    }"#);
    let req = parse_json(body).unwrap();
    assert!(req.prompt.contains("tool_a"));
    assert!(!req.prompt.contains("func_b"));
}

#[test]
fn response_format_json_object() {
    let body = body(r#"{
        "model": "deepseek-default",
        "messages": [{ "role": "user", "content": "Xuat JSON" }],
        "response_format": { "type": "json_object" }
    }"#);
    let req = parse_json(body).unwrap();
    assert!(
        req.prompt
            .contains("xuất trực tiếp một đối tượng JSON hợp lệ")
    );
}

#[test]
fn response_format_json_schema() {
    let body = body(r#"{
        "model": "deepseek-default",
        "messages": [{ "role": "user", "content": "Xuat co cau truc" }],
        "response_format": {
            "type": "json_schema",
            "json_schema": {
                "name": "person",
                "schema": { "type": "object", "properties": { "name": { "type": "string" } } }
            }
        }
    }"#);
    let req = parse_json(body).unwrap();
    assert!(req.prompt.contains("tuân theo định dạng sau"));
    assert!(req.prompt.contains("person"));
}

#[test]
fn response_format_text_no_injection() {
    let body = body(r#"{
        "model": "deepseek-default",
        "messages": [{ "role": "user", "content": "hi" }],
        "response_format": { "type": "text" }
    }"#);
    let req = parse_json(body).unwrap();
    assert!(!req.prompt.contains("Hãy xuất theo"));
    assert!(!req.prompt.contains("JSON"));
}
