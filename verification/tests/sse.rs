use ds_free_api::server::stream::SseBody;

#[test]
fn sse_body_returns_500_when_header_name_is_invalid() {
    let response = SseBody::new(()).with_header("bad\nname", "value").head();

    assert_eq!(response.status, 500);
    assert_eq!(
        response.headers,
        vec![("content-type".to_string(), "application/json".to_string())]
    );
    assert_eq!(
        response.body.as_deref(),
        Some(
            r#"{"error":{"message":"internal server error","type":"server_error","code":"internal_error"}}"#
        )
    );
}

#[test]
fn sse_body_returns_200_for_valid_headers() {
    let response = SseBody::new(()).with_header("x-test", "ok").head();

    assert_eq!(response.status, 200);
    assert_eq!(
        response
            .headers
            .iter()
            .find(|h| h.0 == "x-test")
            .map(|h| h.1.as_str()),
        Some("ok")
    );
    assert_eq!(response.headers[0].1, "text/event-stream");
    assert_eq!(response.headers.len(), 5);
    assert!(response.body.is_none());
}

#[test]
fn header_rules_hold_for_every_byte() {
    for b in 0u8..128 {
        let c = (b as char).to_string();
        let name = b.is_ascii_alphanumeric() || "!#$%&'*+-.^_`|~".contains(b as char);
        let value = (b >= 32 && b != 127) || b == 9;
        assert_eq!(SseBody::new(()).with_header(&c, "v").head().status == 200, name, "{}", b);
        assert_eq!(SseBody::new(()).with_header("n", &c).head().status == 200, value, "{}", b);
    }
    assert_eq!(SseBody::new(()).with_header("", "v").head().status, 500);
    assert_eq!(SseBody::new(()).with_header("n", "").head().status, 200);
    assert_eq!(SseBody::new(()).with_header("é", "v").head().status, 500);
    assert_eq!(SseBody::new(()).with_header("n", "é").head().status, 200);
    assert_eq!(SseBody::new(()).with_header(&"n".repeat(65_535), "v").head().status, 200);
    assert_eq!(SseBody::new(()).with_header(&"n".repeat(65_536), "v").head().status, 500);
}

#[test]
fn many_headers_are_taken_up_to_a_limit() {
    let body = |n: usize, distinct: bool| {
        let mut b = SseBody::new(());
        for i in 0..n {
            let name = if distinct { format!("x-{}", i) } else { "x".to_string() };
            b.extra_headers.push((name, "v".to_string()));
        }
        b
    };
    assert_eq!(body(6_550, true).head().status, 200);
    assert_eq!(body(25_000, false).head().status, 200);
    assert_eq!(body(25_000, false).head().headers.len(), 25_004);
    assert_eq!(body(25_000, true).head().status, 500);
    assert_eq!(body(1, true).head_if(false).status, 500);
}
