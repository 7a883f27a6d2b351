use acos::compiler::{extract_json_object, validate_cir, validate_cir_bounded};
use acos::error::{AcosError, CompilerError};
use acos::json::JsonValue;
use acos::types::{
    CirNode, CirNodeKind, CirProgram, ConditionSpec, ControlSpec, EffectDecl, EffectKind, LoopKind,
    LoopSpec, OutputSpec, ProgramId, RetryPolicy, RetryStrategy, TaskId,
};

fn node(kind: CirNodeKind, id: &str, capability: Option<&str>) -> CirNode {
    CirNode {
        kind,
        node_id: id.to_string(),
        capability: capability.map(|c| c.to_string()),
        output: None,
        input_types: vec![],
        children: vec![],
        else_children: vec![],
        inputs: vec![],
        control: None,
    }
}

fn output(name: &str, type_label: &str) -> Option<OutputSpec> {
    Some(OutputSpec { name: name.to_string(), type_label: type_label.to_string(), fields: vec![] })
}

fn program(entry: &[&str], nodes: Vec<CirNode>, effects: Vec<EffectDecl>) -> CirProgram {
    CirProgram {
        id: ProgramId::new(),
        task_id: TaskId::new(),
        entry: entry.iter().map(|s| s.to_string()).collect(),
        nodes,
        effects,
    }
}

fn validate(p: &CirProgram) -> Result<(), CompilerError> {
    validate_cir_bounded(p).expect("validation ends")
}

/// The program of the minimal valid CIR document: a sequence over one read.
fn minimal_valid_program() -> CirProgram {
    let mut root = node(CirNodeKind::Sequence, "root", None);
    root.children = vec!["step_0".to_string()];
    let mut step = node(CirNodeKind::PrimitiveInvocation, "step_0", Some("read_file"));
    step.output = output("raw_0", "String");
    step.inputs = vec![("path".to_string(), JsonValue::Str("/tmp/test.txt".to_string()))];
    program(
        &["root"],
        vec![root, step],
        vec![EffectDecl { kind: EffectKind::FsRead, description: "read file".to_string(), reversible: true }],
    )
}

const MINIMAL_VALID_CIR: &str = r#"{
            "id": "test-id",
            "taskId": "task-id",
            "entry": ["root"],
            "nodes": [
                {"kind": "sequence", "nodeId": "root", "capability": null, "output": null, "children": ["step_0"], "inputs": {}},
                {"kind": "primitive_invocation", "nodeId": "step_0", "capability": "read_file", "output": {"name": "raw_0", "typeName": "String", "fields": []}, "children": [], "inputs": {"path": "/tmp/test.txt"}}
            ],
            "effects": [
                {"kind": "fs_read", "description": "read file", "reversible": true}
            ]
        }"#;

#[test]
fn extract_json_strips_markdown_fences() {
    let wrapped = "```json\n{\"a\": 1}\n```";
    assert_eq!(extract_json_object(wrapped), "{\"a\": 1}");
}

#[test]
fn extract_json_handles_commentary() {
    let text = "Here is the plan:\n{\"x\": 42}\nDone.";
    assert_eq!(extract_json_object(text), "{\"x\": 42}");
}

#[test]
fn robustness_case_1_valid_cir_passes() {
    assert_eq!(extract_json_object(MINIMAL_VALID_CIR), MINIMAL_VALID_CIR);
    let p = minimal_valid_program();
    assert!(validate(&p).is_ok(), "valid CIR should pass validation");
    assert_eq!(p.entry, vec!["root"]);
    assert_eq!(p.nodes.len(), 2);
}

#[test]
fn robustness_case_2_markdown_fence_stripped() {
    let fenced = format!("```json\n{}```", MINIMAL_VALID_CIR);
    assert_eq!(extract_json_object(&fenced), MINIMAL_VALID_CIR);
    assert!(validate(&minimal_valid_program()).is_ok());
}

#[test]
fn robustness_case_3_commentary_stripped() {
    let with_context =
        format!("Here is my analysis plan:\n\n{}\n\nThis should work.", MINIMAL_VALID_CIR);
    assert_eq!(extract_json_object(&with_context), MINIMAL_VALID_CIR);
    assert!(validate(&minimal_valid_program()).is_ok());
}

#[test]
fn robustness_case_7_unknown_capability() {
    let mut root = node(CirNodeKind::Sequence, "root", None);
    root.children = vec!["step_0".to_string()];
    let mut step = node(CirNodeKind::PrimitiveInvocation, "step_0", Some("teleport"));
    step.output = output("x", "String");
    let p = program(&["root"], vec![root, step], vec![]);
    let r = validate(&p);
    assert!(
        matches!(r, Err(CompilerError::UnknownCapability { ref node_id, ref capability }) if node_id == "step_0" && capability == "teleport")
    );
}

#[test]
fn robustness_case_8_invalid_node_reference() {
    let mut root = node(CirNodeKind::Sequence, "root", None);
    root.children = vec!["nonexistent".to_string()];
    let p = program(&["root"], vec![root], vec![]);
    let r = validate(&p);
    assert!(
        matches!(r, Err(CompilerError::InvalidReference { ref node_id, ref referenced }) if node_id == "root" && referenced == "nonexistent")
    );
}

#[test]
fn robustness_case_9_while_without_max_iterations() {
    let mut root = node(CirNodeKind::Sequence, "root", None);
    root.children = vec!["loop_0".to_string()];
    let mut lp = node(CirNodeKind::LoopMap, "loop_0", None);
    lp.control = Some(ControlSpec {
        condition: None,
        loop_spec: Some(LoopSpec {
            kind: LoopKind::While,
            condition: Some("true".to_string()),
            max_iterations: None,
            input: None,
            item_var: None,
        }),
        retry: None,
    });
    let p = program(&["root"], vec![root, lp], vec![]);
    let r = validate(&p);
    assert!(matches!(r, Err(CompilerError::InvalidControlSemantics { ref node_id, .. }) if node_id == "loop_0"));
}

#[test]
fn validate_rejects_loop_without_max_iterations() {
    let mut lp = node(CirNodeKind::LoopMap, "loop", None);
    lp.control = Some(ControlSpec {
        condition: None,
        loop_spec: Some(LoopSpec {
            kind: LoopKind::While,
            condition: Some("1 == 1".to_string()),
            max_iterations: None,
            input: None,
            item_var: None,
        }),
        retry: None,
    });
    let p = program(&["loop"], vec![lp], vec![]);
    let err = validate(&p).unwrap_err();
    assert!(matches!(err, CompilerError::InvalidControlSemantics { .. }));
}

#[test]
fn validate_rejects_retry_zero_attempts() {
    let mut n = node(CirNodeKind::PrimitiveInvocation, "p", Some("read_file"));
    n.control = Some(ControlSpec {
        condition: None,
        loop_spec: None,
        retry: Some(RetryPolicy {
            max_attempts: 0,
            backoff_ms: 1,
            strategy: RetryStrategy::Fixed,
            retry_on: vec![],
        }),
    });
    let p = program(&["p"], vec![n], vec![]);
    let err = validate(&p).unwrap_err();
    assert!(matches!(err, CompilerError::InvalidControlSemantics { .. }));
}

#[test]
fn validate_rejects_else_children_on_non_conditional() {
    let mut n = node(CirNodeKind::PrimitiveInvocation, "p", Some("read_file"));
    n.else_children = vec!["x".to_string()];
    let p = program(&["p"], vec![n], vec![]);
    let err = validate(&p).unwrap_err();
    assert!(matches!(err, CompilerError::InvalidControlSemantics { .. }));
}

fn search_node() -> CirNode {
    let mut search = node(CirNodeKind::PrimitiveInvocation, "search", Some("search"));
    search.output = output("out_search", "String");
    search
}

fn conditional(id: &str, expression: &str, children: Vec<String>) -> CirNode {
    let mut cond = node(CirNodeKind::Conditional, id, None);
    cond.children = children;
    cond.control = Some(ControlSpec {
        condition: Some(ConditionSpec { expression: expression.to_string() }),
        loop_spec: None,
        retry: None,
    });
    cond
}

#[test]
fn validate_accepts_valid_conditional() {
    let then_node = node(CirNodeKind::PrimitiveInvocation, "then", Some("read_file"));
    let cond = conditional("check", "exists(out_search)", vec!["then".to_string()]);
    let p = program(&["search", "check"], vec![search_node(), then_node, cond], vec![]);
    assert!(validate(&p).is_ok());
}

#[test]
fn validate_rejects_condition_with_undeclared_identifier() {
    let cond = conditional("check", "exists(nonexistent_var)", vec![]);
    let p = program(&["search", "check"], vec![search_node(), cond], vec![]);
    let err = validate(&p).unwrap_err();
    assert!(matches!(err, CompilerError::InvalidReference { .. }));
}

#[test]
fn validate_rejects_no_op_program() {
    let root = node(CirNodeKind::Sequence, "root", None);
    let p = program(&["root"], vec![root], vec![]);
    let err = validate(&p).unwrap_err();
    assert!(matches!(err, CompilerError::NoOpProgram));
}

#[test]
fn validate_rejects_unreachable_nodes() {
    let mut run = node(CirNodeKind::PrimitiveInvocation, "run", Some("execute_python"));
    run.output = output("result", "String");
    run.inputs = vec![("code".to_string(), JsonValue::Str("print('x')".to_string()))];
    let mut write = node(CirNodeKind::PrimitiveInvocation, "write_report", Some("write_file"));
    write.inputs = vec![("path".to_string(), JsonValue::Str("report.md".to_string()))];
    let p = program(&["run"], vec![run, write], vec![]);
    let err = validate(&p).unwrap_err();
    assert!(
        matches!(err, CompilerError::UnreachableNodes { ref node_ids } if node_ids == &vec!["write_report".to_string()])
    );
}

#[test]
fn compiler_error_display_formats_correctly() {
    let err = CompilerError::UnknownCapability { node_id: "n1".into(), capability: "fly".into() };
    let msg = err.to_text();
    assert!(msg.contains("n1"));
    assert!(msg.contains("fly"));
}

#[test]
fn compiler_error_converts_to_acos_error() {
    let err = CompilerError::MissingRequiredField { field: "entry".into() };
    let acos_err: AcosError = err.into();
    assert!(matches!(acos_err, AcosError::CompilerFailure { .. }));
}

// ── Further cases ───────────────────────────────────────────────────────────

#[test]
fn compiler_error_texts_are_exact() {
    let err = CompilerError::UnknownCapability { node_id: "n1".into(), capability: "fly".into() };
    assert_eq!(err.to_text(), "node 'n1' uses unknown capability 'fly'");
    let e = CompilerError::RepairExhausted {
        attempts: 3,
        last_error: Box::new(CompilerError::NoOpProgram),
    };
    assert_eq!(
        e.to_text(),
        "repair exhausted after 3 attempts; last error: no-op program: the CIR contains no executable node"
    );
    let e = CompilerError::UnreachableNodes { node_ids: vec!["a".into(), "b".into()] };
    assert_eq!(e.to_text(), "unreachable nodes: a, b are not reachable from any entry node");
}

#[test]
fn compiler_failure_carries_error_text() {
    let acos_err: AcosError = CompilerError::MissingRequiredField { field: "entry".into() }.into();
    match acos_err {
        AcosError::CompilerFailure { message } => assert_eq!(message, "missing required field: entry"),
        _ => panic!("expected a compiler failure"),
    }
}

#[test]
fn validate_cir_reports_compiler_failure() {
    let root = node(CirNodeKind::Sequence, "root", None);
    let p = program(&["root"], vec![root], vec![]);
    match validate_cir(&p) {
        Err(AcosError::CompilerFailure { message }) => {
            assert_eq!(message, "no-op program: the CIR contains no executable node")
        }
        _ => panic!("expected a compiler failure"),
    }
    assert!(validate_cir(&minimal_valid_program()).is_ok());
}

#[test]
fn entry_must_name_a_node() {
    let p = program(&["missing"], vec![node(CirNodeKind::PrimitiveInvocation, "a", Some("read_file"))], vec![]);
    assert!(matches!(validate(&p), Err(CompilerError::InvalidReference { ref node_id, ref referenced }) if node_id == "<entry>" && referenced == "missing"));
}

#[test]
fn extract_json_without_braces_returns_trimmed_text() {
    assert_eq!(extract_json_object("  no json here  "), "no json here");
}

#[test]
fn rejects_unresolved_binding() {
    let mut consumer = node(CirNodeKind::PrimitiveInvocation, "cons", Some("execute_python"));
    consumer.inputs = vec![("code".to_string(), JsonValue::Str("data = ${processed_data}".to_string()))];
    let mut root = node(CirNodeKind::Sequence, "root", None);
    root.children = vec!["cons".to_string()];
    let p = program(&["root"], vec![root, consumer], vec![]);
    let err = acos::contract::validate_data_contract(&p).unwrap_err();
    assert!(matches!(err, CompilerError::UnresolvedBinding { ref binding, .. } if binding == "processed_data"));
}

#[test]
fn a_bad_condition_reports_the_parser_message() {
    let cond = conditional("check", "out_search ? 1", vec![]);
    let p = program(&["search", "check"], vec![search_node(), cond], vec![]);
    match validate(&p) {
        Err(CompilerError::InvalidControlSemantics { node_id, message }) => {
            assert_eq!(node_id, "check");
            assert_eq!(
                message,
                "invalid condition expression: validation failure: unexpected character '?'"
            );
        }
        other => panic!("unexpected result: {:?}", other.is_ok()),
    }
}
