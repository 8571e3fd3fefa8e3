use kfm_na::ai_chat::AiChatState;
use kfm_na::brain::ChatEvent;

fn td(t: &str) -> ChatEvent {
    ChatEvent::TextDelta { index: 0, text: t.into() }
}

#[test]
fn chat_stream_becomes_message() {
    let mut c = AiChatState::new();
    let h = c.user_send("hi");
    assert_eq!(h, vec![("user".to_string(), "hi".to_string())]);
    c.apply(&ChatEvent::MessageStart);
    c.apply(&ChatEvent::ThinkingDelta { index: 0, text: "hmm".into() });
    assert!(c.thinking_live());
    c.apply(&td("Hel"));
    assert!(!c.thinking_live());
    c.apply(&td("lo"));
    assert!(c.is_streaming());
    assert_eq!(c.snap().last().unwrap(), &(false, "Hello".to_string(), "hmm".to_string()));
    c.apply(&ChatEvent::MessageStop);
    assert!(!c.is_streaming());
    let h = c.user_send("again");
    assert_eq!(
        h,
        vec![
            ("user".to_string(), "hi".to_string()),
            ("assistant".to_string(), "Hello".to_string()),
            ("user".to_string(), "again".to_string()),
        ]
    );
    assert_eq!(c.generation(), 7);
}

#[test]
fn chat_thinking_only_reply_is_relocated_and_errors_are_messages() {
    let mut c = AiChatState::new();
    c.apply(&ChatEvent::ThinkingDelta { index: 0, text: "only".into() });
    c.apply(&ChatEvent::Done);
    assert_eq!(c.snap(), vec![(false, "only".to_string(), String::new())]);
    c.apply(&ChatEvent::MessageStart);
    c.apply(&ChatEvent::Error { content: "boom".into() });
    assert_eq!(c.snap().last().unwrap(), &(false, "【错误】boom".to_string(), String::new()));
    assert_eq!(c.snap().len(), 2);
}
