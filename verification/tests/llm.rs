use acos::json::JsonValue;
use acos::llm::{
    assistant_message, to_openai_messages, tool_result_message, user_message, ChatResponse,
    LlmToolCall, MessageContent, Provider,
};

#[test]
fn chat_response_has_tool_calls() {
    let resp = ChatResponse { text: String::new(), tool_calls: vec![] };
    assert!(!resp.has_tool_calls());
    let resp = ChatResponse {
        text: "".into(),
        tool_calls: vec![LlmToolCall {
            id: "tool_1".into(),
            name: "read_file".into(),
            input: JsonValue::Object(vec![("path".into(), JsonValue::Str("data.csv".into()))]),
        }],
    };
    assert!(resp.has_tool_calls());
}

#[test]
fn provider_from_env_defaults_to_anthropic() {
    assert_eq!(Provider::from_setting(None), Provider::Anthropic);
}

#[test]
fn provider_from_env_parses_openai() {
    assert_eq!(Provider::from_setting(Some("openai")), Provider::OpenAi);
    assert_eq!(Provider::from_setting(Some("anthropic")), Provider::Anthropic);
}

#[test]
fn messages_carry_role_and_text() {
    let m = user_message("hello");
    assert_eq!(m.role, "user");
    assert!(matches!(m.content, MessageContent::Text(ref t) if t == "hello"));
    let m = assistant_message("hi");
    assert_eq!(m.role, "assistant");
    let m = tool_result_message("tool_1", "file contents here");
    assert_eq!(m.role, "user");
    match m.content {
        MessageContent::Blocks(b) => {
            assert_eq!(b.len(), 1);
            assert_eq!(b[0].block_type, "tool_result");
            assert_eq!(b[0].tool_use_id.as_deref(), Some("tool_1"));
            assert_eq!(b[0].content.as_deref(), Some("file contents here"));
        }
        _ => panic!("expected blocks"),
    }
}

#[test]
fn openai_messages_start_with_system() {
    let msgs = vec![user_message("q"), tool_result_message("call_1", "r")];
    let out = to_openai_messages("sys", &msgs);
    assert_eq!(out[0].role, "system");
    assert_eq!(out[0].content.as_deref(), Some("sys"));
    assert_eq!(out[1].role, "user");
    assert_eq!(out[1].content.as_deref(), Some("q"));
    assert_eq!(out.last().unwrap().role, "tool");
    assert_eq!(out.last().unwrap().tool_call_id.as_deref(), Some("call_1"));
}
