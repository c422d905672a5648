use ds_free_api::config::{Account, Config, DeepSeekConfig};
use ds_free_api::ds_core::accounts::AccountStatus;
use ds_free_api::ds_core::CoreError;
use ds_free_api::json::Json;
use ds_free_api::openai_adapter::prepare::{
    fit_count, plan_sync, prepare_raw, prompt_tokens, repair_id, repair_request, retry_delay,
    tool_defs,
};
use ds_free_api::openai_adapter::request::normalize;
use ds_free_api::openai_adapter::request::prompt::{
    format_content, format_part, merge_messages, role_tag, write_call,
};
use ds_free_api::openai_adapter::request::tools::example_args;
use ds_free_api::openai_adapter::types::{
    ChatCompletionsRequest, ContentPart, FileContent, FunctionDefinition, ImageUrl, Message,
    MessageContent, ResponseFormat, StopSequence, StreamOptions, Tool,
};
use ds_free_api::openai_adapter::{OpenAIAdapter, OpenAIAdapterError};

fn message(role: &str, text: &str) -> Message {
    Message {
        role: role.into(),
        content: Some(MessageContent::Text(text.into())),
        name: None,
        tool_call_id: None,
        tool_calls: None,
        function_call: None,
        refusal: None,
        audio: None,
    }
}

fn request(model: &str, messages: Vec<Message>) -> ChatCompletionsRequest {
    ChatCompletionsRequest {
        model: model.into(),
        messages,
        stream: false,
        tools: None,
        tool_choice: None,
        functions: None,
        function_call: None,
        parallel_tool_calls: None,
        reasoning_effort: None,
        web_search_options: None,
        stream_options: None,
        stop: None,
        response_format: None,
        prompt_cache_key: None,
        metadata: None,
        user: None,
    }
}

fn part(ty: &str) -> ContentPart {
    ContentPart {
        ty: ty.into(),
        text: None,
        refusal: None,
        image_url: None,
        input_audio: None,
        file: None,
    }
}

fn function(name: &str, parameters: Json) -> Tool {
    Tool {
        ty: "function".into(),
        function: Some(FunctionDefinition {
            name: name.into(),
            description: None,
            parameters,
            strict: None,
        }),
        custom: None,
    }
}

#[test]
fn tokens_are_counted() {
    assert_eq!(prompt_tokens(""), Some(0));
    assert_eq!(prompt_tokens("hello world"), Some(2));
    assert_eq!(prompt_tokens("<|endoftext|>"), Some(1));
    assert_eq!(fit_count(Some(4_294_967_295)), Some(u32::MAX));
    assert_eq!(fit_count(Some(4_294_967_296)), None);
    assert_eq!(fit_count(None), None);
}

#[test]
fn raw_request_names_its_model() {
    let registry = DeepSeekConfig::default().model_registry();
    let chat =
        prepare_raw(&request("DeepSeek-Expert", vec![message("user", "hi")]), &registry).unwrap();
    assert_eq!(chat.model_type, "expert");
    assert!(chat.thinking_enabled && chat.search_enabled && chat.files.is_empty());
    assert!(chat.prompt.contains("<｜User｜>hi"));
    assert!(matches!(
        prepare_raw(&request("gpt-4", vec![]), &registry),
        Err(OpenAIAdapterError::BadRequest(m)) if m == "Mô hình không được hỗ trợ: gpt-4"
    ));
    let mut quiet = request("deepseek-default", vec![message("user", "hi")]);
    quiet.reasoning_effort = Some("none".into());
    assert!(!prepare_raw(&quiet, &registry).unwrap().thinking_enabled);
}

#[test]
fn missing_fields_are_named() {
    assert!(normalize::apply(&request("", vec![message("user", "x")])).is_err());
    assert!(normalize::apply(&request("m", vec![])).is_err());
    let params = normalize::apply(&request("m", vec![message("user", "x")])).unwrap();
    assert!(!params.include_usage && params.include_obfuscation && params.stop.is_empty());
}

#[test]
fn overloaded_back_end_is_asked_again() {
    assert_eq!(retry_delay(0, &CoreError::Overloaded), Some(2000));
    assert_eq!(retry_delay(1, &CoreError::Overloaded), None);
    assert_eq!(retry_delay(usize::MAX, &CoreError::Overloaded), None);
    assert_eq!(retry_delay(0, &CoreError::Stream("x".into())), None);
}

#[test]
fn repair_tells_what_is_broken() {
    let tools = vec![
        function("f", Json::Object(vec![("type".into(), Json::from_str("object"))])),
        Tool { ty: "custom".into(), function: None, custom: None },
        function("g", Json::Null),
    ];
    let info = tool_defs(&Some(tools)).unwrap();
    assert_eq!(info, "- f: {\"type\":\"object\"}\n- g: null");
    assert!(tool_defs(&None).is_none());
    let chat = repair_request(&info, "BROKEN");
    assert!(chat.prompt.starts_with("Định nghĩa công cụ khả dụng:\n- f: "));
    assert!(chat.prompt.ends_with("Nội dung cần sửa:\n~~~\nBROKEN\n~~~"));
    assert_eq!(chat.model_type, "default");
    assert!(!chat.thinking_enabled && !chat.search_enabled);
    assert!(repair_request("", "B").prompt.starts_with("Hãy trích xuất"));
    assert_eq!(repair_id("r1", 42), "r1-repair-42");
}

#[test]
fn accounts_follow_the_configuration() {
    let status = |email: &str, mobile: &str| AccountStatus {
        email: email.into(),
        mobile: mobile.into(),
        state: "idle".into(),
        active_count: 0,
        max_concurrent: 1,
        last_released_ms: 0,
        error_count: 0,
    };
    let account = |email: &str, mobile: &str| Account {
        email: email.into(),
        mobile: mobile.into(),
        area_code: String::new(),
        password: String::new(),
    };
    let plan = plan_sync(
        &vec![status("a", ""), status("", "1"), status("", "")],
        &vec![account("b", ""), account("a", ""), account("", "2")],
    );
    assert_eq!(plan.add, vec![0, 2]);
    assert_eq!(plan.remove, vec!["1"]);
}

fn image(url: &str, detail: Option<&str>) -> ContentPart {
    ContentPart {
        image_url: Some(ImageUrl { url: url.into(), detail: detail.map(String::from) }),
        ..part("image_url")
    }
}

fn file(text: Option<&str>) -> ContentPart {
    ContentPart {
        text: text.map(String::from),
        file: Some(FileContent {
            file_data: None,
            file_id: None,
            filename: Some("n.txt".into()),
        }),
        ..part("file")
    }
}

#[test]
fn parts_are_shown_in_the_prompt() {
    let text = ContentPart { text: Some("x".into()), ..part("text") };
    assert_eq!(format_part(&text), "x");
    assert_eq!(format_part(&part("text")), "");
    let refusal = ContentPart { refusal: Some("no".into()), ..part("refusal") };
    assert_eq!(format_part(&refusal), "no");
    assert_eq!(format_part(&part("image_url")), "[Ảnh]");
    assert_eq!(format_part(&image("data:x", None)), "[Ảnh: detail=auto]");
    assert_eq!(format_part(&image("data:x", Some("low"))), "[Ảnh: detail=low]");
    assert_eq!(
        format_part(&image("https://a.b/c", None)),
        "[Hãy truy cập liên kết này: https://a.b/c]"
    );
    assert_eq!(format_part(&part("input_audio")), "[Âm thanh: format=unknown]");
    assert_eq!(format_part(&part("file")), "[Tệp: filename=unknown]");
    assert_eq!(format_part(&file(Some(""))), "[Tệp: filename=n.txt]");
    assert_eq!(format_part(&file(Some("notes"))), "[Tệp: notes (filename=n.txt)]");
    assert_eq!(format_part(&part("video")), "[Loại nội dung chưa được hỗ trợ: video]");
    assert_eq!(format_content(&MessageContent::Text("t".into())), "t");
    assert_eq!(role_tag("user"), "<｜User｜>");
    assert_eq!(role_tag("ấn"), "<｜ấn｜>");
    assert_eq!(write_call("\"f\"", "{}"), "{\"name\": \"f\", \"arguments\": {}}");
}

#[test]
fn neighbours_of_one_role_are_merged() {
    let merged = merge_messages(&vec![
        message("system", "a"),
        message("user", "b"),
        message("user", "c"),
        message("assistant", "d"),
    ]);
    let roles: Vec<&str> = merged.iter().map(|m| m.role.as_str()).collect();
    assert_eq!(roles, vec!["system", "user", "assistant"]);
    assert!(matches!(&merged[1].content, Some(MessageContent::Text(t)) if t.contains('b') && t.contains('c')));
    assert_eq!(merge_messages(&merged).len(), 3);
}

#[test]
fn request_is_planned() {
    let adapter = OpenAIAdapter::new(&Config::minimal());
    let req = request("deepseek-default", vec![message("system", "be kind"), message("user", "hi")]);
    let plan = adapter.chat_completions(req, Vec::new(), false).unwrap();
    assert_eq!(
        plan.chat.prompt,
        "<｜System｜>be kind<｜end▁of▁sentence｜><｜User｜>hi<｜Assistant｜>\n"
    );
    assert_eq!(plan.chat.model_type, "default");
    assert!(plan.chat.thinking_enabled && plan.chat.search_enabled && plan.chat.files.is_empty());
    assert_eq!((plan.model.as_str(), plan.stream), ("deepseek-default", false));
    assert!(plan.cfg.include_usage && !plan.cfg.include_obfuscation && plan.cfg.stop.is_empty());
    assert_eq!(plan.prompt_tokens, prompt_tokens(&plan.chat.prompt));
    assert_eq!(plan.tools_info, "");

    let mut streamed = request("DeepSeek-Expert", vec![message("user", "hi")]);
    streamed.stream = true;
    streamed.stop = Some(StopSequence::Single("END".into()));
    streamed.stream_options =
        Some(StreamOptions { include_usage: false, include_obfuscation: true });
    streamed.functions = Some(vec![FunctionDefinition {
        name: "f".into(),
        description: None,
        parameters: Json::Object(Vec::new()),
        strict: None,
    }]);
    let plan = adapter.chat_completions(streamed, Vec::new(), true).unwrap();
    assert_eq!(plan.chat.model_type, "expert");
    assert!(!plan.cfg.include_usage && plan.cfg.include_obfuscation);
    assert_eq!(plan.cfg.stop, vec!["END"]);
    assert_eq!(plan.tools_info, "- f: {}");

    let unknown = request("gpt", vec![message("user", "hi")]);
    assert!(matches!(
        adapter.raw_chat_completions_stream(&unknown),
        Err(OpenAIAdapterError::BadRequest(_))
    ));
    assert!(matches!(
        adapter.chat_completions(unknown, Vec::new(), false),
        Err(OpenAIAdapterError::BadRequest(_))
    ));
}

#[test]
fn definitions_are_told_twice() {
    let adapter = OpenAIAdapter::new(&Config::minimal());
    let head = "### Định nghĩa công cụ";
    let opening = "<｜Assistant｜><think>Tôi vừa được hệ thống nhắc cần tuân thủ nội dung sau:\n\n";
    let prompt = |system: Option<&str>| {
        let mut messages = vec![message("user", "hi")];
        if let Some(t) = system {
            messages.insert(0, message("system", t));
        }
        let mut req = request("deepseek-default", messages);
        req.tools = Some(vec![function("calc", Json::Object(Vec::new()))]);
        adapter.chat_completions(req, Vec::new(), false).unwrap().chat.prompt
    };
    for (system, start) in [
        (None, "<｜System｜>\n\n## Gọi công cụ\n### Quy chuẩn định dạng\n"),
        (Some("be kind"), "<｜System｜>be kind\n\n## Gọi công cụ\n"),
        (Some("be kind\n"), "<｜System｜>be kind\n\n## Gọi công cụ\n"),
        (Some("be kind\nbe short"), "<｜System｜>be kind\nbe short\n\n## Gọi công cụ\n"),
        (Some("be kind\nbe short\n"), "<｜System｜>be kind\nbe short\n\n## Gọi công cụ\n"),
    ] {
        let p = prompt(system);
        assert!(p.starts_with(start), "{}", p);
        assert_eq!(p.matches(head).count(), 2);
        assert!(p.find(head) < p.find("<｜User｜>hi"));
        let last = p.rfind(opening).unwrap();
        let told = &p[last + opening.len()..];
        assert!(told.contains(head) && told.contains("- **calc** (function):"));
        assert!(!told.contains("</think>") && !told.contains("<｜User｜>"));
        assert!(p[..p.find("<｜User｜>hi").unwrap()].contains(&format!("{}<｜end", told)));
        let reminder = told.strip_suffix('\n').unwrap();
        assert_eq!(p.matches(reminder).count(), 2);
    }
    assert!(prompt(Some("rule")).contains("Bạn có thể dùng các công cụ sau"));
}

#[test]
fn prompt_ends_with_an_open_answer() {
    let adapter = OpenAIAdapter::new(&Config::minimal());
    let prompt = |roles: &[(&str, &str)]| {
        let messages = roles.iter().map(|(r, t)| message(r, t)).collect();
        let req = request("deepseek-default", messages);
        adapter.chat_completions(req, Vec::new(), false).unwrap().chat.prompt
    };
    assert!(prompt(&[("user", "a"), ("assistant", "b"), ("user", "c")])
        .ends_with("<｜User｜>c<｜Assistant｜>\n"));
    assert!(prompt(&[("user", "a"), ("assistant", "b")]).ends_with("<｜User｜>a<｜Assistant｜>b"));
}

#[test]
fn sample_arguments_are_json() {
    for name in [
        "Read", "Bash", "Write", "Edit", "Glob", "search_files", "get_weather", "get_time",
        "list_files", "other",
    ] {
        let args = example_args(name);
        let v: serde_json::Value = serde_json::from_str(&args).unwrap();
        assert!(v.is_object(), "{}", args);
    }
    assert_eq!(example_args("list_files"), "{\"path\": \".\"}");
    assert_eq!(example_args("Glob"), "{\"pattern\": \"**/*.rs\", \"path\": \".\"}");
    assert_eq!(example_args("search_files"), "{\"query\": \"TODO\", \"path\": \".\"}");
}

#[test]
fn wanted_form_is_told_twice() {
    let adapter = OpenAIAdapter::new(&Config::minimal());
    let mut req = request("deepseek-default", vec![message("user", "hi")]);
    req.response_format = Some(ResponseFormat { ty: "xml".into(), json_schema: None });
    let plan = adapter.chat_completions(req, Vec::new(), false).unwrap();
    assert_eq!(
        plan.chat.prompt,
        "<｜System｜>\n\n## Định dạng đầu ra\nHãy xuất theo định dạng xml.\n\
         <｜end▁of▁sentence｜><｜User｜>hi\
         <｜Assistant｜><think>Tôi vừa được hệ thống nhắc cần tuân thủ nội dung sau:\n\n\
         ## Định dạng đầu ra\nHãy xuất theo định dạng xml.\n"
    );
}
