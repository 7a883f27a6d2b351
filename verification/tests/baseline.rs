use acos::baseline::{
    plan_tool_call, tool_call_from_json, tool_call_payload, AgentConfig, EvidenceItem, EvidenceLog,
    ToolCall, ToolRequest,
};
use acos::json::JsonValue;

fn to_json(v: &serde_json::Value) -> JsonValue {
    match v {
        serde_json::Value::Null => JsonValue::Null,
        serde_json::Value::Bool(b) => JsonValue::Bool(*b),
        serde_json::Value::Number(n) => JsonValue::Number(n.to_string()),
        serde_json::Value::String(s) => JsonValue::Str(s.clone()),
        serde_json::Value::Array(a) => JsonValue::Array(a.iter().map(to_json).collect()),
        serde_json::Value::Object(m) => {
            JsonValue::Object(m.iter().map(|(k, v)| (k.clone(), to_json(v))).collect())
        }
    }
}

/// Reads a tool call from model output: the tagged payload, parsed as JSON.
fn parse_tool_call(text: &str) -> Option<ToolCall> {
    let payload = tool_call_payload(text)?;
    let value: serde_json::Value = serde_json::from_str(&payload).ok()?;
    tool_call_from_json(to_json(&value))
}

#[test]
fn parse_tool_call_valid() {
    let text = "Let me read the file. <tool_call>{\"name\": \"read_file\", \"arguments\": {\"path\": \"data.csv\"}}</tool_call>";
    let call = parse_tool_call(text).unwrap();
    assert_eq!(call.name, "read_file");
    assert!(matches!(&call.arguments, JsonValue::Object(m) if matches!(&m[0], (k, JsonValue::Str(v)) if k == "path" && v == "data.csv")));
}

#[test]
fn parse_tool_call_no_call() {
    let text = "Here is my final report.\n\n# Summary\n...";
    assert!(parse_tool_call(text).is_none());
}

#[test]
fn parse_tool_call_invalid_json() {
    let text = "<tool_call>not valid json</tool_call>";
    assert!(parse_tool_call(text).is_none());
}

#[test]
fn payload_is_the_text_between_tags() {
    assert_eq!(tool_call_payload("x<tool_call>abc</tool_call>y").as_deref(), Some("abc"));
    assert_eq!(tool_call_payload("<tool_call>abc").as_deref(), None);
}

#[test]
fn tool_call_needs_name_and_arguments() {
    let obj = JsonValue::Object(vec![("name".into(), JsonValue::Str("x".into()))]);
    assert!(tool_call_from_json(obj).is_none());
    assert!(tool_call_from_json(JsonValue::Str("x".into())).is_none());
}

#[test]
fn agent_config_defaults() {
    let c = AgentConfig::default();
    assert_eq!(c.max_turns, 20);
    assert_eq!(c.max_tokens, 4096);
}

fn call(name: &str, args: Vec<(&str, &str)>) -> ToolCall {
    ToolCall {
        name: name.into(),
        arguments: JsonValue::Object(
            args.into_iter().map(|(k, v)| (k.to_string(), JsonValue::Str(v.to_string()))).collect(),
        ),
    }
}

#[test]
fn read_file_missing_path() {
    match plan_tool_call(&call("read_file", vec![])) {
        Err(r) => {
            assert!(!r.success);
            assert_eq!(r.output, "read_file: missing 'path'");
        }
        Ok(_) => panic!("expected a failed result"),
    }
}

#[test]
fn tool_calls_become_requests() {
    assert!(matches!(plan_tool_call(&call("read_file", vec![("path", "a.csv")])), Ok(ToolRequest::ReadFile { path }) if path == "a.csv"));
    assert!(matches!(plan_tool_call(&call("write_file", vec![("path", "o.md")])), Ok(ToolRequest::WriteFile { path, content }) if path == "o.md" && content.is_empty()));
    assert!(matches!(plan_tool_call(&call("execute_python", vec![("code", "print(1)")])), Ok(ToolRequest::ExecutePython { code }) if code == "print(1)"));
    assert!(matches!(plan_tool_call(&call("execute_python", vec![])), Err(r) if r.output == "execute_python: missing 'code'"));
    assert!(matches!(plan_tool_call(&call("fly", vec![])), Err(r) if !r.success && r.output == "unknown tool: fly"));
}

#[test]
fn evidence_log_numbers_items_in_order() {
    let mut log = EvidenceLog::new("task-1", "t0".into());
    log.add(EvidenceItem::llm_call("m", 10, 20, "t1".into()));
    log.add(EvidenceItem::tool_call("read_file", true, 5, "t2".into()));
    let seqs: Vec<u64> = log.items().iter().map(|i| i.seq).collect();
    assert_eq!(seqs, vec![1, 2, 3]);
    let items = log.finish("completed", "t3".into());
    let seqs: Vec<u64> = items.iter().map(|i| i.seq).collect();
    assert_eq!(seqs, vec![1, 2, 3, 4]);
    assert_eq!(items[0].event_type, "run.started");
    assert_eq!(items[3].event_type, "run.finished");
}

#[test]
fn default_evidence_log_starts_at_zero() {
    let mut log = EvidenceLog::default();
    log.add(EvidenceItem::artifact_stored("report", "r.md", 7, "t".into()));
    assert_eq!(log.items()[0].seq, 0);
}

#[test]
fn a_closing_tag_before_the_opening_one_is_no_tool_call() {
    assert_eq!(tool_call_payload("</tool_call><tool_call>"), None);
    assert_eq!(tool_call_payload("<tool_call></tool_call>").as_deref(), Some(""));
    assert_eq!(tool_call_payload("no tags"), None);
}
