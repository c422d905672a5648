use ds_free_api::config::ContextConfig;
use ds_free_api::json::Json;
use ds_free_api::openai_adapter::context::{
    content_to_text, hash_messages, plan_request, render_messages, split_text_chunks,
    summary_message, truncate_chars,
};
use ds_free_api::openai_adapter::summaries::{
    combine_summaries, piece_chat, piece_id, prune_cache, summary_pieces, summary_text,
    summary_workers, CacheEntry, ContextOptimizer,
};
use ds_free_api::openai_adapter::types::{
    AudioRef, ChatCompletionsRequest, ChatCompletionsResponse, Choice, ContentPart, FunctionCall,
    ImageUrl, Message, MessageContent, MessageResponse, ToolCall,
};
use ds_free_api::openai_adapter::OpenAIAdapterError;
use ds_free_api::table::Table;
use serde_json::Value;

fn body(text: &str) -> Value {
    serde_json::from_str(text).unwrap()
}

fn to_json(v: &Value) -> Json {
    match v {
        Value::Null => Json::Null,
        Value::Bool(b) => Json::Bool(*b),
        Value::Number(n) => Json::Number(n.to_string()),
        Value::String(s) => Json::Text(s.clone()),
        Value::Array(a) => Json::Array(a.iter().map(to_json).collect()),
        Value::Object(m) => Json::Object(m.iter().map(|(k, x)| (k.clone(), to_json(x))).collect()),
    }
}

fn text_of(v: &Value, key: &str) -> Option<String> {
    v.get(key).and_then(|x| x.as_str()).map(|s| s.to_string())
}

fn part(v: &Value) -> ContentPart {
    ContentPart {
        ty: text_of(v, "type").unwrap(),
        text: text_of(v, "text"),
        refusal: None,
        image_url: v.get("image_url").map(|i| ImageUrl {
            url: text_of(i, "url").unwrap(),
            detail: None,
        }),
        input_audio: None,
        file: None,
    }
}

fn message(v: &Value) -> Message {
    Message {
        role: text_of(v, "role").unwrap(),
        content: match v.get("content") {
            Some(Value::String(s)) => Some(MessageContent::Text(s.clone())),
            Some(Value::Array(a)) => Some(MessageContent::Parts(a.iter().map(part).collect())),
            _ => None,
        },
        name: None,
        tool_call_id: None,
        tool_calls: v.get("tool_calls").and_then(|t| t.as_array()).map(|t| {
            t.iter()
                .map(|c| ToolCall {
                    id: text_of(c, "id").unwrap(),
                    ty: text_of(c, "type").unwrap(),
                    function: Some(FunctionCall {
                        name: text_of(&c["function"], "name").unwrap(),
                        arguments: text_of(&c["function"], "arguments").unwrap(),
                    }),
                    custom: None,
                    index: 0,
                })
                .collect()
        }),
        function_call: None,
        refusal: None,
        audio: v.get("audio").map(|a| AudioRef { id: text_of(a, "id").unwrap() }),
    }
}

fn request(messages: Value) -> ChatCompletionsRequest {
    let list = messages.as_array().unwrap().iter().map(message).collect();
    let mut req = ChatCompletionsRequest::new("deepseek-default".to_string(), list);
    req.stream = true;
    req.metadata = Some(to_json(&body(r#"{"conversation_id": "conv-1"}"#)));
    req
}

fn test_config() -> ContextConfig {
    ContextConfig {
        enabled: true,
        trigger_chars: 40,
        prewarm_chars: 20,
        keep_last_messages: 2,
        chunk_chars: 16,
        summary_workers: 2,
        summary_max_chars: 120,
        cache_ttl_secs: 60,
        background_delay_ms: 0,
        summary_model_type: "default".to_string(),
    }
}

#[test]
fn short_context_has_no_plan() {
    let req = request(body(r#"[
        {"role": "user", "content": "short"},
        {"role": "assistant", "content": "ok"},
        {"role": "user", "content": "next"}
    ]"#));

    assert!(plan_request(&req, &test_config()).is_none());
}

#[test]
fn long_context_plans_old_prefix_only() {
    let req = request(body(r#"[
        {"role": "system", "content": "system rule"},
        {"role": "user", "content": "xxxxxxxxxxxxxxxxxxxxxxxxx"},
        {"role": "assistant", "content": "yyyyyyyyyyyyyyyyyyyyyyyyy"},
        {"role": "user", "content": "recent user"},
        {"role": "assistant", "content": "recent assistant"}
    ]"#));
    let plan = plan_request(&req, &test_config()).unwrap();

    assert_eq!(plan.cache_key, "metadata:conv-1");
    assert_eq!(plan.systems.len(), 1);
    assert_eq!(plan.prefix_count, 2);
    assert_eq!(plan.prefix.len(), 2);
    assert_eq!(plan.non_system.len(), 4);
}

#[test]
fn prompt_cache_key_overrides_metadata_key() {
    let mut req = request(body(r#"[
        {"role": "user", "content": "xxxxxxxxxxxxxxxxxxxxxxxxx"},
        {"role": "assistant", "content": "yyyyyyyyyyyyyyyyyyyyyyyyy"},
        {"role": "user", "content": "recent user"},
        {"role": "assistant", "content": "recent assistant"}
    ]"#));
    req.prompt_cache_key = Some("stable-chat".to_string());
    let plan = plan_request(&req, &test_config()).unwrap();

    assert_eq!(plan.cache_key, "prompt_cache:stable-chat");
}

#[test]
fn multimodal_prefix_is_not_summarized() {
    let req = request(body(r#"[
        {
            "role": "user",
            "content": [
                {
                    "type": "image_url",
                    "image_url": {"url": "https://example.com/image.png"}
                }
            ]
        },
        {"role": "assistant", "content": "yyyyyyyyyyyyyyyyyyyyyyyyy"},
        {"role": "user", "content": "recent user"},
        {"role": "assistant", "content": "recent assistant"}
    ]"#));

    assert!(plan_request(&req, &test_config()).is_none());
}

#[test]
fn assistant_tool_calls_in_prefix_disable_summary_plan() {
    let req = request(body(r#"[
        {
            "role": "assistant",
            "content": "calling tool",
            "tool_calls": [
                {
                    "id": "call_1",
                    "type": "function",
                    "function": {"name": "lookup", "arguments": "{}"}
                }
            ]
        },
        {"role": "user", "content": "yyyyyyyyyyyyyyyyyyyyyyyyy"},
        {"role": "user", "content": "recent user"},
        {"role": "assistant", "content": "recent assistant"}
    ]"#));

    assert!(plan_request(&req, &test_config()).is_none());
}

#[test]
fn message_level_audio_in_prefix_disables_summary_plan() {
    let req = request(body(r#"[
        {
            "role": "user",
            "content": "xxxxxxxxxxxxxxxxxxxxxxxxx",
            "audio": {"id": "audio-1"}
        },
        {"role": "assistant", "content": "yyyyyyyyyyyyyyyyyyyyyyyyy"},
        {"role": "user", "content": "recent user"},
        {"role": "assistant", "content": "recent assistant"}
    ]"#));

    assert!(plan_request(&req, &test_config()).is_none());
}

#[test]
fn thread_id_metadata_is_used_for_cache_key() {
    let mut req = request(body(r#"[
        {"role": "user", "content": "xxxxxxxxxxxxxxxxxxxxxxxxx"},
        {"role": "assistant", "content": "yyyyyyyyyyyyyyyyyyyyyyyyy"},
        {"role": "user", "content": "recent user"},
        {"role": "assistant", "content": "recent assistant"}
    ]"#));
    req.metadata = Some(to_json(&body(r#"{"thread_id": "thread-42"}"#)));

    let plan = plan_request(&req, &test_config()).unwrap();

    assert_eq!(plan.cache_key, "metadata:thread-42");
}

#[test]
fn text_only_parts_prefix_can_be_summarized() {
    let req = request(body(r#"[
        {
            "role": "user",
            "content": [
                {"type": "text", "text": "xxxxxxxxxxxx"},
                {"type": "text", "text": "yyyyyyyyyyyy"}
            ]
        },
        {"role": "assistant", "content": "zzzzzzzzzzzzzzzzzzzzzzzzz"},
        {"role": "user", "content": "recent user"},
        {"role": "assistant", "content": "recent assistant"}
    ]"#));

    let plan = plan_request(&req, &test_config()).unwrap();

    assert_eq!(plan.prefix_count, 2);
}

#[test]
fn implicit_cache_key_is_used_without_metadata_or_prompt_cache_key() {
    let mut req = request(body(r#"[
        {"role": "system", "content": "system rule"},
        {"role": "user", "content": "xxxxxxxxxxxxxxxxxxxxxxxxx"},
        {"role": "assistant", "content": "yyyyyyyyyyyyyyyyyyyyyyyyy"},
        {"role": "user", "content": "recent user"},
        {"role": "assistant", "content": "recent assistant"}
    ]"#));
    req.metadata = None;

    let plan = plan_request(&req, &test_config()).unwrap();

    assert!(plan.cache_key.starts_with("implicit:"));
    let digits = &plan.cache_key["implicit:".len()..];
    assert_eq!(digits.len(), 64);
    assert!(digits.chars().all(|c| "0123456789abcdef".contains(c)));
}

#[test]
fn implicit_cache_key_ignores_recent_tail_but_changes_with_user() {
    let mut req_a = request(body(r#"[
        {"role": "system", "content": "system rule"},
        {"role": "user", "content": "xxxxxxxxxxxxxxxxxxxxxxxxx"},
        {"role": "assistant", "content": "yyyyyyyyyyyyyyyyyyyyyyyyy"},
        {"role": "user", "content": "recent user a"},
        {"role": "assistant", "content": "recent assistant a"}
    ]"#));
    req_a.metadata = None;
    req_a.user = Some("user-a".to_string());

    let mut req_b = request(body(r#"[
        {"role": "system", "content": "system rule"},
        {"role": "user", "content": "xxxxxxxxxxxxxxxxxxxxxxxxx"},
        {"role": "assistant", "content": "yyyyyyyyyyyyyyyyyyyyyyyyy"},
        {"role": "user", "content": "recent user b"},
        {"role": "assistant", "content": "recent assistant b"}
    ]"#));
    req_b.metadata = None;
    req_b.user = Some("user-a".to_string());

    let mut req_c = request(body(r#"[
        {"role": "system", "content": "system rule"},
        {"role": "user", "content": "xxxxxxxxxxxxxxxxxxxxxxxxx"},
        {"role": "assistant", "content": "yyyyyyyyyyyyyyyyyyyyyyyyy"},
        {"role": "user", "content": "recent user c"},
        {"role": "assistant", "content": "recent assistant c"}
    ]"#));
    req_c.metadata = None;
    req_c.user = Some("user-c".to_string());

    let key_a = plan_request(&req_a, &test_config()).unwrap().cache_key;
    let key_b = plan_request(&req_b, &test_config()).unwrap().cache_key;
    let key_c = plan_request(&req_c, &test_config()).unwrap().cache_key;

    assert_eq!(key_a, key_b);
    assert_ne!(key_a, key_c);
}

#[test]
fn prefix_chars_below_prewarm_threshold_skips_plan() {
    let mut cfg = test_config();
    cfg.prewarm_chars = 100;
    let req = request(body(r#"[
        {"role": "user", "content": "xxxxxxxxxxxxxxxxxxxxxxxxx"},
        {"role": "assistant", "content": "yyyyyyyyyyyyyyyyyyyyyyyyy"},
        {"role": "user", "content": "recent user"},
        {"role": "assistant", "content": "recent assistant"}
    ]"#));

    assert!(plan_request(&req, &cfg).is_none());
}

#[test]
fn content_to_text_joins_text_parts_in_order() {
    let content = MessageContent::Parts(vec![
        ContentPart {
            ty: "text".to_string(),
            text: Some("first".to_string()),
            image_url: None,
            input_audio: None,
            file: None,
            refusal: None,
        },
        ContentPart {
            ty: "text".to_string(),
            text: Some("second".to_string()),
            image_url: None,
            input_audio: None,
            file: None,
            refusal: None,
        },
    ]);

    assert_eq!(content_to_text(&content), "first\nsecond");
}

#[test]
fn split_text_chunks_keeps_all_text() {
    let chunks = split_text_chunks("abcdef", 2);

    assert_eq!(chunks, vec!["ab", "cd", "ef"]);
}

#[test]
fn keep_last_messages_covering_all_non_system_skips_plan() {
    let mut cfg = test_config();
    cfg.keep_last_messages = 4;
    let req = request(body(r#"[
        {"role": "system", "content": "system rule"},
        {"role": "user", "content": "xxxxxxxxxxxxxxxxxxxxxxxxx"},
        {"role": "assistant", "content": "yyyyyyyyyyyyyyyyyyyyyyyyy"},
        {"role": "user", "content": "recent user"},
        {"role": "assistant", "content": "recent assistant"}
    ]"#));

    assert!(plan_request(&req, &cfg).is_none());
}

#[test]
fn truncate_chars_appends_marker_when_trimmed() {
    let out = truncate_chars("abcdef", 3);

    assert_eq!(out, "abc\n[truncated]");
}

fn user(text: &str) -> Message {
    Message {
        role: "user".to_string(),
        content: Some(MessageContent::Text(text.to_string())),
        name: None,
        tool_call_id: None,
        tool_calls: None,
        function_call: None,
        refusal: None,
        audio: None,
    }
}

fn long_request(tail: &str) -> ChatCompletionsRequest {
    let mut req = request(body(
        r#"[
        {"role": "system", "content": "system rule"},
        {"role": "user", "content": "xxxxxxxxxxxxxxxxxxxxxxxxx"},
        {"role": "assistant", "content": "yyyyyyyyyyyyyyyyyyyyyyyyy"},
        {"role": "user", "content": "recent user"}
    ]"#,
    ));
    req.messages.push(user(tail));
    req
}

fn content(m: &Message) -> String {
    match &m.content {
        Some(c) => content_to_text(c),
        None => String::new(),
    }
}

#[test]
fn digest_of_messages_is_sha256_in_hex() {
    // SHA-256 of the bytes "user", 0, "hi", 255.
    let d = hash_messages(&vec![user("hi")], 1);
    assert_eq!(d.len(), 64);
    assert!(d.chars().all(|c| c.is_ascii_hexdigit() && !c.is_ascii_uppercase()));
    assert_eq!(d, hash_messages(&vec![user("hi"), user("more")], 1));
    assert_ne!(d, hash_messages(&vec![user("ho")], 1));
    // The digest of no messages is that of no bytes.
    assert_eq!(
        hash_messages(&Vec::new(), 0),
        "e3b0c44298fc1c149afbf4c8996fb92427ae41e4649b934ca495991b7852b855"
    );
}

#[test]
fn rendering_puts_each_message_on_a_line() {
    let mut silent = user("");
    silent.content = None;
    assert_eq!(render_messages(&vec![user("a"), silent]), "user: a\nuser: \n");
}

#[test]
fn chunks_of_no_size_have_one_character() {
    assert_eq!(split_text_chunks("añb", 0), vec!["a", "ñ", "b"]);
    assert!(split_text_chunks("", 3).is_empty());
    assert_eq!(split_text_chunks("abcde", 2), vec!["ab", "cd", "e"]);
}

#[test]
fn short_text_is_not_truncated() {
    assert_eq!(truncate_chars("abc", 3), "abc");
    assert_eq!(truncate_chars("", 0), "");
    assert_eq!(truncate_chars("ab", 0), "\n[truncated]");
}

#[test]
fn summary_stands_in_a_system_message() {
    let m = summary_message("short", 100);
    assert_eq!(m.role, "system");
    assert_eq!(content(&m), "Tom tat ngu canh truoc do (da nen de tang toc):\nshort");
}

#[test]
fn first_request_asks_for_a_summary_and_the_next_uses_it() {
    let mut opt = ContextOptimizer::new(test_config());
    let mut req = long_request("first");
    let job = opt.apply(&mut req, 0).unwrap();
    assert_eq!(req.messages.len(), 5);
    assert_eq!(job.cache_key, "metadata:conv-1");
    assert_eq!(job.prefix_count, 2);
    // While it is being made nobody else makes it.
    assert!(opt.apply(&mut long_request("again"), 0).is_none());
    opt.finish_summary(&job, Some("the summary".to_string()), 1);
    let mut req = long_request("later");
    assert!(opt.apply(&mut req, 1_000_000_000).is_none());
    assert_eq!(req.messages.len(), 4);
    assert_eq!(req.messages[0].role, "system");
    assert!(content(&req.messages[1]).ends_with("the summary"));
    assert_eq!(content(&req.messages[2]), "recent user");
    assert_eq!(content(&req.messages[3]), "later");
}

#[test]
fn failed_summary_is_asked_for_again() {
    let mut opt = ContextOptimizer::new(test_config());
    let job = opt.apply(&mut long_request("a"), 0).unwrap();
    opt.finish_summary(&job, None, 1);
    assert!(opt.apply(&mut long_request("b"), 2).is_some());
}

#[test]
fn old_summary_is_dropped() {
    let mut opt = ContextOptimizer::new(test_config());
    let job = opt.apply(&mut long_request("a"), 0).unwrap();
    opt.finish_summary(&job, Some("s".to_string()), 0);
    let mut req = long_request("b");
    assert!(opt.apply(&mut req, 61_000_000_000).is_some());
    assert_eq!(req.messages.len(), 5);
}

#[test]
fn changed_prefix_makes_a_summary_useless() {
    let mut opt = ContextOptimizer::new(test_config());
    let job = opt.apply(&mut long_request("a"), 0).unwrap();
    opt.finish_summary(&job, Some("s".to_string()), 0);
    let mut req = long_request("b");
    req.messages[1] = user("zzzzzzzzzzzzzzzzzzzzzzzzz");
    assert!(opt.apply(&mut req, 0).is_some());
    assert_eq!(req.messages.len(), 5);
}

#[test]
fn nothing_happens_while_switched_off() {
    let mut cfg = test_config();
    cfg.enabled = false;
    let mut opt = ContextOptimizer::new(test_config());
    opt.reload(cfg);
    assert!(opt.apply(&mut long_request("a"), 0).is_none());
}

fn entry(created_ns: u64) -> CacheEntry {
    CacheEntry {
        summary: "s".to_string(),
        created_ns,
        covered_count: 1,
        covered_hash: "h".to_string(),
    }
}

#[test]
fn pruning_keeps_the_youngest() {
    let second = 1_000_000_000;
    let mut cache = Table::new();
    cache.insert("old".to_string(), entry(0));
    cache.insert("a".to_string(), entry(50 * second));
    cache.insert("b".to_string(), entry(70 * second));
    cache.insert("c".to_string(), entry(90 * second));
    prune_cache(&mut cache, 60, 2, 100 * second);
    assert_eq!(cache.len(), 2);
    assert!(cache.contains("b"));
    assert!(cache.contains("c"));
    assert!(!cache.contains("a"));
    assert!(!cache.contains("old"));
}

#[test]
fn pruning_keeps_all_that_fit() {
    let mut cache = Table::new();
    cache.insert("a".to_string(), entry(0));
    cache.insert("b".to_string(), entry(0));
    prune_cache(&mut cache, 1, 2, 1_999_999_999);
    assert_eq!(cache.len(), 2);
}

#[test]
fn pieces_and_workers_follow_the_settings() {
    let cfg = test_config();
    let pieces = summary_pieces(&vec![user("0123456789"), user("abcdefghij")], &cfg);
    assert_eq!(pieces.concat(), "user: 0123456789\nuser: abcdefghij\n");
    assert_eq!(pieces[0], "user: 0123456789");
    assert_eq!(summary_workers(&cfg, 5), 2);
    assert_eq!(summary_workers(&cfg, 1), 1);
    let mut none = test_config();
    none.summary_workers = 0;
    assert_eq!(summary_workers(&none, 5), 1);
}

#[test]
fn piece_is_summed_up_without_thinking() {
    let chat = piece_chat("old text", &test_config()).unwrap();
    assert!(chat.prompt.contains("Max 800 characters."));
    assert!(chat.prompt.contains("Old context:\nold text"));
    assert!(!chat.thinking_enabled);
    assert!(!chat.search_enabled);
    assert_eq!(chat.model_type, "default");
    assert_eq!(piece_id("req-1", 3), "req-1-ctx-3");
}

#[test]
fn summaries_are_put_in_order() {
    let parts = vec![Ok((1, " two ".to_string())), Ok((0, "one".to_string()))];
    assert_eq!(combine_summaries(parts).unwrap(), "Chunk 1:\none\n\nChunk 2:\ntwo\n\n");
    assert_eq!(combine_summaries(vec![Ok((0, " only ".to_string()))]).unwrap(), " only ");
    let failed = combine_summaries(vec![
        Ok((0, "one".to_string())),
        Err(OpenAIAdapterError::Overloaded),
    ]);
    assert!(matches!(failed, Err(OpenAIAdapterError::Overloaded)));
}

fn answer(content: Option<&str>) -> ChatCompletionsResponse {
    ChatCompletionsResponse {
        id: "id".to_string(),
        created: 0,
        model: "m".to_string(),
        choices: vec![Choice {
            index: 0,
            message: MessageResponse {
                content: content.map(|s| s.to_string()),
                reasoning_content: None,
                tool_calls: None,
            },
            finish_reason: None,
        }],
        usage: None,
    }
}

#[test]
fn blank_summary_is_an_error() {
    assert_eq!(summary_text(&answer(Some("text"))).unwrap(), "text");
    for a in [answer(Some("  \n")), answer(None)] {
        let e = summary_text(&a).unwrap_err();
        assert_eq!(e.message(), "internal error: empty context summary");
    }
}
