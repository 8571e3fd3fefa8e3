use kfm_na::json::Json;
use kfm_na::brain::{
    http_error_detail_of, build_chat_request, error_event_from_http, events_from_upstream_sse, ChatEvent,
    OpenAiTranslator, RunAccumulator, SseParser,
};

#[test]
fn sse_frames_survive_any_cut() {
    let wire = b": comment\r\ndata: {\"a\":1}\r\n\r\n\ndata:x\ndata: y\n\nevent: e\ndata: tail";
    let mut whole = SseParser::new();
    whole.feed(wire);
    let all = whole.drain_frames();
    assert_eq!(all, vec!["{\"a\":1}".to_string(), "x\ny".to_string()]);
    for cut in 0..wire.len() {
        let mut p = SseParser::new();
        p.feed(&wire[..cut]);
        let mut got = p.drain_frames();
        p.feed(&wire[cut..]);
        got.extend(p.drain_frames());
        assert_eq!(got, all, "cut at {cut}");
    }
}

#[test]
fn sse_next_frame_waits_for_blank_line() {
    let mut p = SseParser::new();
    p.feed(b"data: half");
    assert_eq!(p.next_frame(), None);
    p.feed(b"\n");
    assert_eq!(p.next_frame(), None);
    p.feed(b"\n\n\n");
    assert_eq!(p.next_frame(), Some("half".to_string()));
    assert_eq!(p.next_frame(), None);
}

fn text(t: &str) -> ChatEvent {
    ChatEvent::TextDelta { index: 0, text: t.to_string() }
}

#[test]
fn translator_lazy_start_and_stop() {
    let mut tr = OpenAiTranslator::new();
    assert_eq!(tr.translate_payload(r#"{"choices":[{"delta":{"role":"assistant"}}]}"#), vec![]);
    assert_eq!(
        tr.translate_payload(r#"{"choices":[{"delta":{"reasoning_content":"hm","content":"Hi"}}]}"#),
        vec![
            ChatEvent::MessageStart,
            ChatEvent::ContentBlockStart { index: 0, tool_use: None },
            ChatEvent::ThinkingDelta { index: 0, text: "hm".to_string() },
            text("Hi"),
        ]
    );
    assert_eq!(
        tr.translate_payload(r#"{"choices":[{"delta":{"content":"!"},"finish_reason":"stop"}]}"#),
        vec![text("!"), ChatEvent::ContentBlockStop { index: 0 }, ChatEvent::MessageStop]
    );
    assert_eq!(tr.translate_payload("  [DONE] "), vec![ChatEvent::Done]);
}

#[test]
fn translator_silent_and_bad_frames() {
    let mut tr = OpenAiTranslator::new();
    assert_eq!(tr.translate_payload(r#"{"choices":[],"usage":{"total_tokens":3}}"#), vec![]);
    assert_eq!(tr.translate_payload(r#"{"x":1}"#), vec![]);
    assert_eq!(tr.translate_payload(r#"{"choices":[{"finish_reason":"stop"}]}"#), vec![]);
    let out = tr.translate_payload("{oops");
    assert_eq!(out.len(), 1);
    match &out[0] {
        ChatEvent::Error { content } => assert!(content.starts_with("上游帧 JSON 解析失败: ")),
        other => panic!("{other:?}"),
    }
}

#[test]
fn accumulator_relocates_thinking_only_reply() {
    let mut a = RunAccumulator::new();
    a.apply(&ChatEvent::ThinkingDelta { index: 0, text: "ans".into() });
    a.apply(&ChatEvent::MessageStop);
    assert_eq!(a.final_text(), "ans");
    assert_eq!(a.thinking(), "");
    assert!(a.relocated());
    let mut b = RunAccumulator::new();
    b.apply(&ChatEvent::ThinkingDelta { index: 0, text: "th".into() });
    b.apply(&text("t1"));
    b.apply(&text("t2"));
    b.apply(&ChatEvent::Done);
    assert_eq!(b.final_text(), "t1t2");
    assert_eq!(b.thinking(), "th");
    assert!(!b.relocated());
}

#[test]
fn http_error_event_prefers_message() {
    match error_event_from_http(401, r#"{"error":{"message":"bad key"}}"#) {
        ChatEvent::Error { content } => assert_eq!(content, "API 请求失败: 401 — bad key"),
        _ => panic!(),
    }
    let long: String = std::iter::repeat('é').take(301).collect();
    match error_event_from_http(502, &long) {
        ChatEvent::Error { content } => {
            assert_eq!(content, format!("API 请求失败: 502 — {}", &long[..600]));
        }
        _ => panic!(),
    }
    match error_event_from_http(500, "plain") {
        ChatEvent::Error { content } => assert_eq!(content, "API 请求失败: 500 — plain"),
        _ => panic!(),
    }
}

#[test]
fn chat_request_body_is_the_streaming_shape() {
    let body = build_chat_request("k2", &[("user".into(), "hi \"x\"".into())]);
    let v: serde_json::Value = serde_json::from_str(&body).unwrap();
    assert_eq!(v["model"], "k2");
    assert_eq!(v["stream"], true);
    assert_eq!(v["stream_options"]["include_usage"], true);
    assert_eq!(v["messages"][0]["role"], "user");
    assert_eq!(v["messages"][0]["content"], "hi \"x\"");
    assert_eq!(v.as_object().unwrap().len(), 4);
}

#[test]
fn upstream_sse_text_to_events() {
    let raw = "data: {\"choices\":[{\"delta\":{\"content\":\"a\"}}]}\n\ndata: [DONE]\n\n";
    assert_eq!(
        events_from_upstream_sse(raw),
        vec![
            ChatEvent::MessageStart,
            ChatEvent::ContentBlockStart { index: 0, tool_use: None },
            text("a"),
            ChatEvent::Done,
        ]
    );
}

#[test]
fn chunk_events_from_parsed_chunk() {
    let delta = Json::Object(vec![("content".to_string(), Json::Str("hi".to_string()))]);
    let choice = Json::Object(vec![("delta".to_string(), delta)]);
    let chunk = Json::Object(vec![("choices".to_string(), Json::Array(vec![choice]))]);
    let mut t = OpenAiTranslator::new();
    let evs = t.chunk_events(&chunk);
    assert_eq!(evs.len(), 3);
    assert_eq!(evs[0], ChatEvent::MessageStart);
    assert_eq!(evs[2], ChatEvent::TextDelta { index: 0, text: "hi".to_string() });
    let empty = Json::Object(vec![("choices".to_string(), Json::Array(vec![]))]);
    assert!(t.chunk_events(&empty).is_empty());
    assert!(t.chunk_events(&Json::Null).is_empty());
}

#[test]
fn http_error_detail_from_parse_outcome() {
    let msg = Json::Object(vec![("message".to_string(), Json::Str("quota".to_string()))]);
    let body = Json::Object(vec![("error".to_string(), msg)]);
    assert_eq!(http_error_detail_of(&Ok(body), "ignored"), "quota");
    assert_eq!(http_error_detail_of(&Ok(Json::Null), "raw body"), "raw body");
    assert_eq!(http_error_detail_of(&Err("bad".to_string()), "raw body"), "raw body");
    let long = "x".repeat(400);
    assert_eq!(http_error_detail_of(&Err("bad".to_string()), &long), "x".repeat(300));
}
