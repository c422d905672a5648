use ds_free_api::anthropic_compat::response::{finish_reason_map, map_id};
use ds_free_api::anthropic_compat::types::{
    ContentBlockDelta, MessagesResponse, MessagesResponseChunk, ResponseContentBlock, ToolUnion,
};
use ds_free_api::anthropic_compat::{types, AnthropicCompatError};
use ds_free_api::ds_core::CoreError;
use ds_free_api::json::Json;
use ds_free_api::openai_adapter::response::state::DsFrame;
use ds_free_api::openai_adapter::response::{
    aggregate, completion_id, find_stop_char, find_stop_pos, obfuscate, pad_chunk, padding_len, sse_frame, Repair,
    RepairAction, RepairText, StopDetect, TOOL_CALL_END, TOOL_CALL_START,
};
use ds_free_api::openai_adapter::types::{
    ChatCompletionsResponseChunk, ChunkChoice, Delta, FunctionCall, ToolCall, Usage,
};
use ds_free_api::openai_adapter::OpenAIAdapterError;
use ds_free_api::server::error::{ErrorBody, ServerError};

fn chunk(delta: Delta, finish: Option<&str>) -> ChatCompletionsResponseChunk {
    ChatCompletionsResponseChunk {
        id: "chatcmpl-1".into(),
        created: 5,
        model: "m".into(),
        choices: vec![ChunkChoice { index: 0, delta, finish_reason: finish.map(String::from) }],
        usage: None,
    }
}

fn content(text: &str) -> ChatCompletionsResponseChunk {
    chunk(Delta { content: Some(text.into()), ..Delta::default() }, None)
}

fn usage_chunk() -> ChatCompletionsResponseChunk {
    ChatCompletionsResponseChunk {
        choices: vec![],
        usage: Some(Usage { prompt_tokens: 1, completion_tokens: 2, total_tokens: 3 }),
        ..content("")
    }
}

fn call(name: &str) -> ToolCall {
    ToolCall {
        id: "call_1".into(),
        ty: "function".into(),
        function: Some(FunctionCall { name: name.into(), arguments: "{}".into() }),
        custom: None,
        index: 0,
    }
}

fn text_in(c: &ChatCompletionsResponseChunk) -> Option<&str> {
    c.choices[0].delta.content.as_deref()
}

#[test]
fn ids_and_frames_have_their_form() {
    assert_eq!(completion_id(1), "chatcmpl-0000000000000001");
    assert_eq!(completion_id(u64::MAX), "chatcmpl-ffffffffffffffff");
    assert_eq!(sse_frame(&b"{}".to_vec()), b"data: {}\n\n".to_vec());
}

#[test]
fn answer_is_cut_at_the_first_stop() {
    let mut stop = StopDetect::new(vec!["END".into(), "###".into()]);
    assert!(stop.can_take("one "));
    assert_eq!(text_in(&stop.on_chunk(content("one ")).unwrap()), Some("one "));
    assert!(stop.can_take("tăo ### END"));
    let cut = stop.on_chunk(content("tăo ### END")).unwrap();
    assert_eq!(text_in(&cut), Some("tăo "));
    assert_eq!(cut.choices[0].finish_reason.as_deref(), Some("stop"));
    assert!(stop.on_chunk(content("more")).is_none());
    assert!(stop.on_chunk(usage_chunk()).is_some());
    assert!(stop.on_chunk(chunk(Delta::default(), Some("tool_calls"))).is_some());
    assert!(stop.on_chunk(chunk(Delta::default(), Some("stop"))).is_none());
}

#[test]
fn stop_at_the_start_leaves_no_text() {
    let mut stop = StopDetect::new(vec!["END".into()]);
    let cut = stop.on_chunk(content("END")).unwrap();
    assert_eq!(text_in(&cut), None);
    assert_eq!(cut.choices[0].finish_reason.as_deref(), Some("stop"));
}

#[test]
fn stop_that_was_partly_sent_is_not_taken() {
    let mut stop = StopDetect::new(vec!["END".into()]);
    stop.on_chunk(content("EN"));
    assert!(!stop.can_take("D"));
    assert!(stop.can_take("X"));
}

#[test]
fn without_stops_all_goes_out() {
    let mut stop = StopDetect::new(vec![]);
    assert_eq!(text_in(&stop.on_chunk(content("END")).unwrap()), Some("END"));
    assert_eq!(find_stop_pos("ab", &vec!["b".into(), "a".into()]), Some(0));
    assert_eq!(find_stop_pos("ab", &vec!["c".into()]), None);
    assert_eq!(find_stop_pos("é!", &vec!["!".into()]), Some(2));
    assert_eq!(find_stop_char("é!", &vec!["!".into()]), Some(1));
}

#[test]
fn chunks_are_padded_to_one_size() {
    assert_eq!(padding_len(0), 495);
    assert_eq!(padding_len(494), 1);
    assert_eq!(padding_len(495), 16);
    assert_eq!(padding_len(5000), 16);
    let padded = obfuscate(content("x"), 200);
    assert_eq!(padded.choices[0].delta.obfuscation.as_ref().map(|p| p.len()), Some(295));
    assert_eq!(text_in(&padded), Some("x"));
    assert!(obfuscate(usage_chunk(), 200).choices.is_empty());
    let padded = pad_chunk(content("x"), "pad".into());
    assert_eq!(padded.choices[0].delta.obfuscation.as_deref(), Some("pad"));
}

#[test]
fn broken_calls_are_repaired_once() {
    let mut repair = Repair::new("m".into(), true);
    assert!(matches!(repair.next(), RepairAction::PollUpstream));
    assert!(matches!(repair.on_upstream(Some(Ok(content("a")))),
        RepairAction::Emit(c) if text_in(&c) == Some("a")));
    assert!(matches!(
        repair.on_upstream(Some(Err(OpenAIAdapterError::Overloaded))),
        RepairAction::Fail(OpenAIAdapterError::Overloaded)
    ));
    let broken = OpenAIAdapterError::ToolCallRepairNeeded("bad".into());
    assert!(matches!(repair.on_upstream(Some(Err(broken))),
        RepairAction::StartRepair(t) if t == "bad"));
    assert!(matches!(repair.next(), RepairAction::PollRepair));
    let alive = repair.keepalive();
    assert_eq!(alive.id, "chatcmpl-keepalive");
    assert_eq!(alive.choices[0].delta.tool_calls.as_ref().map(|c| c.len()), Some(1));
    match repair.on_repaired(Ok(vec![call("f")]), "id".into(), 9) {
        RepairAction::Emit(c) => {
            assert_eq!((c.id.as_str(), c.created, c.model.as_str()), ("id", 9, "m"));
            assert_eq!(c.choices[0].finish_reason.as_deref(), Some("tool_calls"));
            assert_eq!(c.choices[0].delta.tool_calls.as_ref().unwrap()[0].id, "call_1");
        }
        other => panic!("{:?}", other),
    }
    assert!(matches!(repair.next(), RepairAction::End));
}

#[test]
fn failed_repair_is_reported() {
    let mut repair = Repair::new("m".into(), true);
    repair.on_upstream(Some(Err(OpenAIAdapterError::ToolCallRepairNeeded("bad".into()))));
    let outcome = repair.on_repaired(Err(OpenAIAdapterError::Overloaded), "id".into(), 9);
    assert!(matches!(outcome, RepairAction::Fail(OpenAIAdapterError::Internal(m))
        if m == "Sửa thất bại: service overloaded"));
    assert!(matches!(repair.next(), RepairAction::Fail(OpenAIAdapterError::Internal(m))
        if m.is_empty()));

    let mut repair = Repair::new("m".into(), false);
    let broken = OpenAIAdapterError::ToolCallRepairNeeded("bad".into());
    assert!(matches!(repair.on_upstream(Some(Err(broken))),
        RepairAction::Fail(OpenAIAdapterError::Internal(m)) if m == "no repair function"));
    let mut repair = Repair::new("m".into(), true);
    assert!(matches!(repair.on_upstream(None), RepairAction::End));
}

#[test]
fn whole_answer_is_put_together() {
    let whole = aggregate(
        vec![
            Ok(chunk(Delta { role: Some("assistant".into()), ..Delta::default() }, None)),
            Ok(chunk(
                Delta { reasoning_content: Some("think".into()), ..Delta::default() },
                None,
            )),
            Ok(content("hello ")),
            Ok(content("world")),
            Ok(chunk(Delta::default(), Some("stop"))),
            Ok(usage_chunk()),
        ],
        "deepseek-default".into(),
    )
    .unwrap();
    assert_eq!(whole.id, "chatcmpl-1");
    assert_eq!(whole.model, "deepseek-default");
    let message = &whole.choices[0].message;
    assert_eq!(message.content.as_deref(), Some("hello world"));
    assert_eq!(message.reasoning_content.as_deref(), Some("think"));
    assert!(message.tool_calls.is_none());
    assert_eq!(whole.choices[0].finish_reason.as_deref(), Some("stop"));
    assert_eq!(whole.usage.map(|u| u.total_tokens), Some(3));
}

#[test]
fn calls_are_why_an_answer_ends() {
    let whole = aggregate(
        vec![
            Ok(chunk(Delta::default(), Some("stop"))),
            Ok(chunk(Delta { tool_calls: Some(vec![call("f")]), ..Delta::default() }, None)),
        ],
        "m".into(),
    )
    .unwrap();
    assert_eq!(whole.choices[0].finish_reason.as_deref(), Some("tool_calls"));
    assert_eq!(whole.choices[0].message.content.as_deref(), Some(""));
    let none = aggregate(vec![], "m".into()).unwrap();
    assert!(none.choices[0].message.content.is_none());
    let items = vec![Ok(content("a")), Err(OpenAIAdapterError::Overloaded)];
    assert!(matches!(aggregate(items, "m".into()), Err(OpenAIAdapterError::Overloaded)));
}

#[test]
fn repaired_text_is_read() {
    let mut t = RepairText::new(4);
    assert!(t.on_frame(&DsFrame::ContentDelta(" ab".into())).is_ok());
    assert!(t.on_frame(&DsFrame::ThinkDelta("not this".into())).is_ok());
    assert_eq!(t.wrapped(true), "ab");
    assert_eq!(t.wrapped(false), format!("{}ab{}", TOOL_CALL_START, TOOL_CALL_END));
    assert!(t.outcome(Some(vec![])).is_ok());
    assert!(matches!(t.outcome(None), Err(OpenAIAdapterError::Internal(m))
        if m == "Model sửa trả kết quả không parse được thành tool call:  ab"));
    assert!(matches!(t.on_frame(&DsFrame::ContentDelta("cd".into())),
        Err(OpenAIAdapterError::Internal(m)) if m == "Model sửa trả output quá dài, bỏ sửa"));
    let mut t = RepairText::new(1000);
    t.on_frame(&DsFrame::ContentDelta(" [] ".into())).unwrap();
    assert!(matches!(t.outcome(Some(vec![])), Err(OpenAIAdapterError::Internal(m))
        if m == "Model sửa trả kết quả rỗng"));
    let mut t = RepairText::new(1000);
    t.on_frame(&DsFrame::ContentDelta("ă".repeat(101))).unwrap();
    assert!(t.can_report());
    t.text.insert(0, 'x');
    assert!(!t.can_report());
}

#[test]
fn errors_reach_the_other_side() {
    assert_eq!(OpenAIAdapterError::from_core(CoreError::Overloaded).status_code(), 429);
    assert_eq!(
        OpenAIAdapterError::from_core(CoreError::ProofOfWorkFailed("x".into())).message(),
        "internal error: proof of work failed: x"
    );
    let provider = OpenAIAdapterError::from_core(CoreError::ProviderError("x".into()));
    assert_eq!((provider.status_code(), provider.message()), (502, "provider error: x".into()));
    let stream = OpenAIAdapterError::from_core(CoreError::Stream("x".into()));
    assert_eq!((stream.status_code(), stream.message()), (500, "internal error: x".into()));
    assert_eq!(OpenAIAdapterError::BadRequest("x".into()).status_code(), 400);
    assert_eq!(
        OpenAIAdapterError::from_json("x").message(),
        "internal error: json serialization failed: x"
    );
    assert_eq!(
        OpenAIAdapterError::ToolCallRepairNeeded("x".into()).message(),
        "tool_calls repair needed: x"
    );

    let bad = AnthropicCompatError::from_adapter(OpenAIAdapterError::BadRequest("x".into()));
    assert_eq!((bad.status_code(), bad.message()), (400, "bad request: x".into()));
    let busy = AnthropicCompatError::from_adapter(OpenAIAdapterError::Overloaded);
    assert_eq!((busy.status_code(), busy.message()), (429, "service overloaded".into()));
    let inner = AnthropicCompatError::from_adapter(OpenAIAdapterError::ProviderError("x".into()));
    assert_eq!((inner.status_code(), inner.message()), (500, "internal error: x".into()));
}

#[test]
fn errors_go_out_in_their_form() {
    let kinds = [
        (
            ServerError::Adapter(OpenAIAdapterError::BadRequest("x".into())),
            (400, "invalid_request_error", "bad_request", "bad request: x"),
        ),
        (
            ServerError::Adapter(OpenAIAdapterError::Overloaded),
            (429, "server_error", "overloaded", "service overloaded"),
        ),
        (
            ServerError::Adapter(OpenAIAdapterError::ProviderError("x".into())),
            (502, "server_error", "provider_error", "provider error: x"),
        ),
        (
            ServerError::Adapter(OpenAIAdapterError::Internal("x".into())),
            (500, "server_error", "internal_error", "internal error: x"),
        ),
        (
            ServerError::Unauthorized,
            (401, "authentication_error", "invalid_api_token", "API token không hợp lệ"),
        ),
        (
            ServerError::NotFound("m".into()),
            (404, "invalid_request_error", "model_not_found", "Mô hình 'm' không tồn tại"),
        ),
    ];
    for (error, (status, error_type, code, message)) in kinds {
        let r = error.response();
        assert_eq!(r.status, status);
        assert_eq!(r.retry_after.is_some(), status == 429);
        match r.body {
            ErrorBody::OpenAI(b) => {
                assert_eq!(b.error.error_type, error_type);
                assert_eq!(b.error.code, code);
                assert_eq!(b.error.message, message);
            }
            other => panic!("{:?}", other),
        }
    }
    let r = ServerError::Anthropic(AnthropicCompatError::Overloaded).response();
    assert_eq!((r.status, r.retry_after), (429, Some(30)));
    match r.body {
        ErrorBody::Anthropic(b) => {
            assert_eq!(b.error_type, "overloaded_error");
            assert_eq!(b.message, "service overloaded");
        }
        other => panic!("{:?}", other),
    }
}

#[test]
fn names_differ_on_the_other_side() {
    assert_eq!(finish_reason_map("stop"), "end_turn");
    assert_eq!(finish_reason_map("tool_calls"), "tool_use");
    assert_eq!(finish_reason_map("length"), "length");
    assert_eq!(map_id("chatcmpl-1"), "msg_1");
    assert_eq!(map_id("call_1"), "toolu_1");
    assert_eq!(map_id("x"), "msg_x");
}

fn sent(c: MessagesResponseChunk) -> String {
    String::from_utf8(c.to_sse_bytes().unwrap()).unwrap()
}

#[test]
fn events_are_written_as_json() {
    assert_eq!(
        sent(MessagesResponseChunk::ContentBlockStop { index: 3 }),
        "event: content_block_stop\ndata: {\"index\":3,\"type\":\"content_block_stop\"}\n\n"
    );
    assert_eq!(
        sent(MessagesResponseChunk::MessageStop),
        "event: message_stop\ndata: {\"type\":\"message_stop\"}\n\n"
    );
    assert_eq!(
        sent(MessagesResponseChunk::ContentBlockDelta {
            index: 0,
            delta: ContentBlockDelta::Text { text: "a\"b".into() },
        }),
        "event: content_block_delta\ndata: {\"delta\":{\"text\":\"a\\\"b\",\"type\":\"text_delta\"},\"index\":0,\"type\":\"content_block_delta\"}\n\n"
    );
    let delta = MessagesResponseChunk::MessageDelta {
        stop_reason: Some("end_turn".into()),
        stop_sequence: None,
        output_tokens: Some(7),
    };
    assert_eq!(delta.output_tokens(), Some(7));
    assert_eq!(delta.event_name(), "message_delta");
    assert_eq!(
        sent(delta),
        "event: message_delta\ndata: {\"delta\":{\"stop_reason\":\"end_turn\",\"stop_sequence\":null},\"type\":\"message_delta\",\"usage\":{\"output_tokens\":7}}\n\n"
    );
    let start = MessagesResponseChunk::MessageStart {
        message: MessagesResponse {
            id: "msg_1".into(),
            ty: "message".into(),
            role: "assistant".into(),
            model: "m".into(),
            content: vec![ResponseContentBlock::ToolUse {
                id: "t".into(),
                name: "f".into(),
                input: Json::Object(vec![("n".into(), Json::Number("1".into()))]),
            }],
            stop_reason: None,
            stop_sequence: None,
            usage: types::Usage { input_tokens: 1, output_tokens: 0 },
        },
    };
    let text = sent(start);
    assert!(text.starts_with("event: message_start\ndata: {\"message\":{"));
    let v: serde_json::Value =
        serde_json::from_str(text.split("data: ").nth(1).unwrap().trim()).unwrap();
    assert_eq!(v["type"], "message_start");
    assert_eq!(v["message"]["type"], "message");
    assert_eq!(v["message"]["content"][0]["type"], "tool_use");
    assert_eq!(v["message"]["content"][0]["input"]["n"], 1);
    assert_eq!(v["message"]["usage"]["input_tokens"], 1);
    let block = MessagesResponseChunk::ContentBlockStart {
        index: 0,
        content_block: ResponseContentBlock::Text { text: "x".into() },
    };
    assert!(sent(block).contains("\"content_block\":{\"text\":\"x\",\"type\":\"text\"}"));
}

#[test]
fn value_that_is_no_number_is_not_written() {
    let bad = MessagesResponseChunk::ContentBlockStart {
        index: 0,
        content_block: ResponseContentBlock::ToolUse {
            id: "t".into(),
            name: "f".into(),
            input: Json::Number("one".into()),
        },
    };
    assert!(bad.to_sse_bytes().is_none());
}

#[test]
fn tools_are_read_from_json() {
    let object = |members: Vec<(&str, Json)>| {
        Json::Object(members.into_iter().map(|(k, v)| (k.to_string(), v)).collect())
    };
    match ToolUnion::from_json(object(vec![
        ("name", Json::from_str("f")),
        ("strict", Json::Bool(true)),
    ])) {
        Ok(ToolUnion::Custom { name, description, input_schema, strict }) => {
            assert_eq!(name, "f");
            assert_eq!(description, None);
            assert!(matches!(input_schema, Json::Null));
            assert_eq!(strict, Some(true));
        }
        other => panic!("{:?}", other),
    }
    assert!(matches!(
        ToolUnion::from_json(object(vec![("type", Json::from_str("bash_20250124"))])),
        Ok(ToolUnion::Other)
    ));
    assert!(matches!(ToolUnion::from_json(object(vec![("type", Json::from_str("custom"))])),
        Err(e) if e == "missing field `name`"));
    assert!(matches!(ToolUnion::from_json(Json::Null),
        Err(e) if e == "tool must be an object"));
}
