use acos::json::JsonValue;
use acos::probe::{analyze_behavioral_requirements, days_to_date, get_arg, iso_timestamp, Verdict};
use acos::types::{
    CirNode, CirNodeKind, CirProgram, ControlSpec, LoopKind, LoopSpec, ProgramId, RetryPolicy,
    RetryStrategy, TaskId,
};

fn node(kind: CirNodeKind, id: &str, capability: Option<&str>, inputs: Vec<(&str, &str)>) -> CirNode {
    CirNode {
        kind,
        node_id: id.into(),
        capability: capability.map(|c| c.to_string()),
        output: None,
        input_types: vec![],
        children: vec![],
        else_children: vec![],
        inputs: inputs.into_iter().map(|(k, v)| (k.to_string(), JsonValue::Str(v.to_string()))).collect(),
        control: None,
    }
}

fn program(nodes: Vec<CirNode>) -> CirProgram {
    CirProgram { id: ProgramId::new(), task_id: TaskId::new(), entry: vec!["root".into()], nodes, effects: vec![] }
}

#[test]
fn verdict_symbols() {
    assert_eq!(Verdict::Pass.symbol(), "✓");
    assert_eq!(Verdict::Fail.symbol(), "✗");
    assert_eq!(Verdict::Partial.symbol(), "~");
}

#[test]
fn get_arg_returns_the_following_value() {
    let args: Vec<String> = vec!["probe".into(), "--runs".into(), "3".into(), "--out".into()];
    assert_eq!(get_arg(&args, "--runs").as_deref(), Some("3"));
    assert_eq!(get_arg(&args, "--out"), None);
    assert_eq!(get_arg(&args, "--task"), None);
}

#[test]
fn days_to_date_is_approximate_calendar() {
    assert_eq!(days_to_date(0), "1970-01-01");
    assert_eq!(days_to_date(365 + 31), "1971-02-02");
    assert_eq!(days_to_date(364), "1970-13-05");
}

#[test]
fn iso_timestamp_formats_seconds() {
    assert_eq!(iso_timestamp(0), "1970-01-01T00:00:00Z");
    assert_eq!(iso_timestamp(86400 + 3661), "1970-01-02T01:01:01Z");
}

#[test]
fn behavioral_analysis_of_a_full_program() {
    let mut lp = node(CirNodeKind::LoopMap, "each", None, vec![]);
    lp.control = Some(ControlSpec {
        condition: None,
        loop_spec: Some(LoopSpec {
            kind: LoopKind::ForEach,
            condition: None,
            max_iterations: Some(10),
            input: Some("${files}".into()),
            item_var: Some("item".into()),
        }),
        retry: None,
    });
    let mut read = node(CirNodeKind::PrimitiveInvocation, "read", Some("read_file"), vec![("path", "a.csv")]);
    read.control = Some(ControlSpec {
        condition: None,
        loop_spec: None,
        retry: Some(RetryPolicy { max_attempts: 2, backoff_ms: 0, strategy: RetryStrategy::Fixed, retry_on: vec![] }),
    });
    let py = node(CirNodeKind::PrimitiveInvocation, "py", Some("execute_python"), vec![("code", "open('b.csv')")]);
    let write = node(CirNodeKind::PrimitiveInvocation, "write", Some("write_file"), vec![("path", "out.md")]);
    let p = program(vec![lp, read, py, write]);
    let declared: Vec<String> = vec!["a.csv".into(), "b.csv".into()];
    let a = analyze_behavioral_requirements(&p, &declared);
    assert_eq!(a.node_count, 4);
    assert_eq!(a.primitive_count, 3);
    assert_eq!(a.loop_count, 1);
    assert_eq!(a.condition_count, 0);
    assert_eq!(a.retry_count, 1);
    assert_eq!(a.binding_total, 2);
    assert_eq!(a.binding_matched, 2);
    assert_eq!(a.checks.len(), 7);
    assert_eq!(a.pass_count, 7);
    assert_eq!(a.checks[0].detail, "2/2 declared paths referenced");
    assert_eq!(
        a.checks[1].detail,
        "analysis caps: {\"read_file\", \"execute_python\", \"write_file\"}"
    );
    assert_eq!(a.checks[2].detail, "conditions=0, python=true");
    assert_eq!(a.checks[3].detail, "write_file present");
    assert_eq!(a.checks[4].detail, "4 nodes, 3 primitives");
    assert_eq!(a.checks[5].detail, "1 loops, 0 conds, 1 retries");
    assert_eq!(a.checks[6].detail, "all paths declared");
}

#[test]
fn behavioral_analysis_flags_undeclared_paths() {
    let r1 = node(CirNodeKind::PrimitiveInvocation, "r1", Some("read_file"), vec![("path", "a.csv")]);
    let r2 = node(CirNodeKind::PrimitiveInvocation, "r2", Some("read_file"), vec![("path", "/tmp/x.csv")]);
    let p = program(vec![r1, r2]);
    let declared: Vec<String> = vec!["a.csv".into(), "b.csv".into()];
    let a = analyze_behavioral_requirements(&p, &declared);
    assert_eq!(a.binding_matched, 1);
    assert_eq!(a.checks[0].verdict, Verdict::Partial);
    assert_eq!(a.checks[0].detail, "1/2 declared paths referenced");
    assert_eq!(a.checks[1].verdict, Verdict::Fail);
    assert_eq!(a.checks[1].detail, "only read/write");
    assert_eq!(a.checks[3].detail, "no output");
    assert_eq!(a.checks[6].verdict, Verdict::Partial);
    assert_eq!(a.checks[6].detail, "undeclared: [\"/tmp/x.csv\"]");
    assert_eq!(a.pass_count, 0);
}
