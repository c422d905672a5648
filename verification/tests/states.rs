use ds_free_api::openai_adapter::response::state::{
    DsFrame, DsState, Fragment, SseEvent, StateStream,
};

#[test]
fn append_content_with_explicit_append() {
    let mut state = DsState::default();
    state.fragments.push(Fragment {
        ty: "RESPONSE".into(),
        content: "".into(),
    });
    let evt = SseEvent {
        event: None,
        data: r#"{"p":"response/fragments/-1/content","o":"APPEND","v":"hello"}"#.into(),
    };
    let frames = state.apply_event(&evt);
    assert!(matches!(&frames[0], DsFrame::ContentDelta(s) if s == "hello"));
}

#[test]
fn append_content_with_bare_v_after_path_set() {
    let mut state = DsState::default();
    state.fragments.push(Fragment {
        ty: "RESPONSE".into(),
        content: "hello".into(),
    });
    state.current_path = Some("response/fragments/-1/content".into());
    state.current_op = Some("APPEND".into());
    let evt = SseEvent {
        event: None,
        data: r#"{"v":" world"}"#.into(),
    };
    let frames = state.apply_event(&evt);
    assert!(matches!(&frames[0], DsFrame::ContentDelta(s) if s == " world"));
}

#[test]
fn snapshot_then_append() {
    let mut state = DsState::default();
    let evt = SseEvent {
        event: None,
        data: r#"{"v":{"response":{"fragments":[{"type":"THINK","content":"hi"}]}}}"#.into(),
    };
    let frames = state.apply_event(&evt);
    assert!(matches!(&frames[0], DsFrame::ThinkDelta(s) if s == "hi"));
}

#[test]
fn ready_event() {
    let mut state = DsState::default();
    let frames = state.apply_event(&SseEvent {
        event: Some("ready".into()),
        data: "{}".into(),
    });
    assert!(matches!(frames[0], DsFrame::Role));
}

#[test]
fn batch_accumulated_token_usage() {
    let mut state = DsState::default();
    let evt = SseEvent {
        event: None,
        data: r#"{"p":"response","o":"BATCH","v":[{"p":"accumulated_token_usage","v":41},{"p":"quasi_status","v":"FINISHED"}]}"#.into(),
    };
    let frames = state.apply_event(&evt);
    assert!(matches!(
        &frames[0],
        DsFrame::Usage(u) if *u == 41
    ));
}

#[test]
fn batch_fragment_level_with_path_prepending() {
    let mut state = DsState::default();
    state.fragments.push(Fragment {
        ty: "RESPONSE".into(),
        content: "hello".into(),
    });
    let evt = SseEvent {
        event: None,
        data: r#"{"p":"response/fragments/-1","o":"BATCH","v":[{"p":"content","o":"APPEND","v":"[reference:3]"},{"p":"references","o":"SET","v":[{"id":5,"type":"TOOL_OPEN"}]}]}"#.into(),
    };
    let frames = state.apply_event(&evt);
    assert_eq!(frames.len(), 1);
    assert!(matches!(&frames[0], DsFrame::ContentDelta(s) if s == "[reference:3]"));
    assert_eq!(
        state.fragments.last().unwrap().content,
        "hello[reference:3]"
    );
}

#[test]
fn batch_fragment_bare_v_array_continues_batch() {
    let mut state = DsState::default();
    state.fragments.push(Fragment {
        ty: "RESPONSE".into(),
        content: "hello world".into(),
    });
    state.current_path = Some("response/fragments/-1".into());
    state.current_op = Some("BATCH".into());
    let evt = SseEvent {
        event: None,
        data: r#"{"v":[{"p":"content","o":"APPEND","v":"[reference:1]"},{"p":"references","v":[{"id":6,"type":"TOOL_OPEN"}]}]}"#.into(),
    };
    let frames = state.apply_event(&evt);
    assert_eq!(frames.len(), 1);
    assert!(matches!(&frames[0], DsFrame::ContentDelta(s) if s == "[reference:1]"));
    assert_eq!(
        state.fragments.last().unwrap().content,
        "hello world[reference:1]"
    );
}

#[test]
fn incomplete_status_with_finish_event() {
    let mut state = DsState::default();
    let evt = SseEvent {
        event: None,
        data: r#"{"p":"response/status","v":"INCOMPLETE"}"#.into(),
    };
    let frames = state.apply_event(&evt);
    assert_eq!(frames.len(), 1);
    assert!(matches!(&frames[0], DsFrame::Status(s) if s == "INCOMPLETE"));
}

#[test]
fn batch_decomposition_preserves_outer_path() {
    let mut state = DsState::default();
    state.current_path = Some("response/fragments/-1".into());
    state.current_op = Some("BATCH".into());
    let evt = SseEvent {
        event: None,
        data: r#"{"v":[{"p":"content","o":"APPEND","v":"x"}]}"#.into(),
    };
    state.apply_event(&evt);
    assert_eq!(state.current_path.as_deref(), Some("response/fragments/-1"));
    assert_eq!(state.current_op.as_deref(), Some("BATCH"));
}

#[test]
fn complex_tool_search_with_think_and_response() {
    let mut state = DsState::default();

    let evt = SseEvent {
        event: None,
        data: r#"{"v":{"response":{"fragments":[{"type":"THINK","content":"suy nghi"}]}}}"#
            .into(),
    };
    state.apply_event(&evt);
    assert_eq!(state.fragments.len(), 1);

    let evt = SseEvent {
        event: None,
        data: r#"{"p":"response/fragments","o":"APPEND","v":[{"id":3,"type":"TOOL_SEARCH","content":null,"queries":[{"query":"q"}],"results":[]}]}"#.into(),
    };
    let frames = state.apply_event(&evt);
    assert!(frames.is_empty());
    assert_eq!(state.fragments.len(), 2);
    assert_eq!(state.fragments[1].ty, "TOOL_SEARCH");

    let evt = SseEvent {
        event: None,
        data: r#"{"p":"response/fragments","o":"APPEND","v":[{"id":4,"type":"TOOL_OPEN","status":"WIP","result":{"url":"https://x.com","title":"t","snippet":"s"},"reference":{"id":3,"type":"TOOL_SEARCH"}}]}"#.into(),
    };
    let frames = state.apply_event(&evt);
    assert!(frames.is_empty());
    assert_eq!(state.fragments.len(), 3);

    let evt = SseEvent {
        event: None,
        data:
            r#"{"p":"response/fragments","o":"APPEND","v":[{"type":"THINK","content":"tiep tuc"}]}"#
                .into(),
    };
    let frames = state.apply_event(&evt);
    assert_eq!(frames.len(), 1);
    assert!(matches!(&frames[0], DsFrame::ThinkDelta(s) if s == "tiep tuc"));
    assert_eq!(state.fragments.len(), 4);

    let evt = SseEvent {
        event: None,
        data:
            r#"{"p":"response/fragments","o":"APPEND","v":[{"type":"RESPONSE","content":""}]}"#
                .into(),
    };
    let frames = state.apply_event(&evt);
    assert!(frames.is_empty());
    assert_eq!(state.fragments.len(), 5);

    let evt = SseEvent {
        event: None,
        data: r#"{"p":"response/fragments/-1/content","o":"APPEND","v":"hello"}"#.into(),
    };
    let frames = state.apply_event(&evt);
    assert!(matches!(&frames[0], DsFrame::ContentDelta(s) if s == "hello"));

    let evt = SseEvent {
        event: None,
        data: r#"{"p":"response/status","v":"FINISHED"}"#.into(),
    };
    let frames = state.apply_event(&evt);
    assert!(matches!(&frames[0], DsFrame::Status(s) if s == "FINISHED"));
}

fn event(data: &str) -> SseEvent {
    SseEvent { event: None, data: data.to_string() }
}

#[test]
fn frames_of_one_event_come_one_by_one() {
    let mut s = StateStream::new(());
    let first = s.on_event(&event(
        r#"{"v":{"response":{"fragments":[{"type":"THINK","content":"a"},{"type":"RESPONSE","content":"b"}]}}}"#,
    ));
    assert!(matches!(first, Some(DsFrame::ThinkDelta(t)) if t == "a"));
    assert!(matches!(s.next_pending(), Some(DsFrame::ContentDelta(t)) if t == "b"));
    assert!(s.next_pending().is_none());
}

#[test]
fn text_that_is_not_json_brings_nothing() {
    let mut state = DsState::default();
    assert!(state.apply_event(&event("not json")).is_empty());
    assert!(state.apply_event(&event("")).is_empty());
    assert!(state.fragments.is_empty());
}
