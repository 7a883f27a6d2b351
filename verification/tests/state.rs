use acos::json::JsonValue;
use acos::runtime::{apply_proposal, resolve_ref, resolve_ref_token, RecoveryProposal, Rendered};
use acos::state::MemoryStore;
use acos::types::{ArtifactId, CirNode, CirNodeKind, CirProgram, ProgramId, RunId, TaskId, TypedValue, ValueType};
use acos::error::AcosError;

#[test]
fn events_are_numbered_per_run() {
    let mut store = MemoryStore::new();
    let a = RunId::new();
    let b = RunId::new();
    assert_eq!(store.append(a, "run.started".into(), JsonValue::Null), 1);
    assert_eq!(store.append(b, "run.started".into(), JsonValue::Null), 1);
    assert_eq!(store.append(a, "primitive.end".into(), JsonValue::Bool(true)), 2);
    let evs = store.events_for(a);
    assert_eq!(evs.len(), 2);
    assert_eq!(evs[0].event_type, "run.started");
    assert_eq!(evs[1].seq, 2);
    assert_eq!(store.events_for(b).len(), 1);
}

#[test]
fn artifacts_read_back() {
    let mut store = MemoryStore::new();
    let run = RunId::new();
    let id = store.put(run, "report".into(), b"hello".to_vec());
    assert_eq!(store.get(id).ok().unwrap(), &b"hello".to_vec());
    assert_eq!(store.get_by_name(run, "report").ok().unwrap(), &b"hello".to_vec());
    assert_eq!(store.artifact_names(run), vec!["report".to_string()]);
    assert!(store.artifact_names(RunId::new()).is_empty());
}

#[test]
fn missing_artifacts_are_reported() {
    let store = MemoryStore::new();
    let id = ArtifactId(0x67e5504410b1426f9247bb680e5fe0c8);
    match store.get(id) {
        Err(AcosError::ValidationFailure { message }) => {
            assert_eq!(message, "artifact ArtifactId(67e55044-10b1-426f-9247-bb680e5fe0c8) not found")
        }
        _ => panic!("expected not found"),
    }
    let run = RunId(0x67e5504410b1426f9247bb680e5fe0c8);
    match store.get_by_name(run, "x") {
        Err(AcosError::ValidationFailure { message }) => assert_eq!(
            message,
            "artifact 'x' not found for run RunId(67e55044-10b1-426f-9247-bb680e5fe0c8)"
        ),
        _ => panic!("expected not found"),
    }
}

fn env() -> Vec<(String, TypedValue)> {
    let vr = JsonValue::Object(vec![
        ("issues".into(), JsonValue::Array(vec![JsonValue::Str("a".into())])),
        ("total_issues".into(), JsonValue::Number("3".into())),
    ]);
    vec![
        ("vr".into(), TypedValue { value_type: ValueType::Record, payload: vr }),
        ("name".into(), TypedValue { value_type: ValueType::Scalar, payload: JsonValue::Str("q1".into()) }),
    ]
}

fn render(pieces: &[Rendered<'_>]) -> String {
    let mut out = String::new();
    for p in pieces {
        match p {
            Rendered::Text(t) => out.push_str(t),
            Rendered::Json(JsonValue::Number(n)) => out.push_str(n),
            Rendered::Json(_) => out.push_str("<json>"),
        }
    }
    out
}

#[test]
fn dotted_path_resolves_nested_field() {
    let env = env();
    assert_eq!(render(&resolve_ref("${vr.total_issues}", &env)), "3");
    assert_eq!(render(&resolve_ref("prefix ${vr.total_issues} suffix", &env)), "prefix 3 suffix");
}

#[test]
fn dotted_path_missing_field_keeps_ref_unchanged() {
    let env = env();
    assert_eq!(render(&resolve_ref("${vr.nonexistent}", &env)), "${vr.nonexistent}");
}

#[test]
fn string_bindings_render_as_text() {
    let env = env();
    assert!(matches!(resolve_ref_token("$name", &env), Rendered::Text(t) if t == "q1"));
    assert!(matches!(resolve_ref_token("${vr}", &env), Rendered::Json(JsonValue::Object(_))));
    assert_eq!(render(&resolve_ref("read ${name}.csv and ${missing}", &env)), "read q1.csv and ${missing}");
}

fn node(id: &str, cap: &str) -> CirNode {
    CirNode {
        kind: CirNodeKind::PrimitiveInvocation,
        node_id: id.into(),
        capability: Some(cap.into()),
        output: None,
        input_types: vec![],
        children: vec![],
        else_children: vec![],
        inputs: vec![],
        control: None,
    }
}

#[test]
fn committing_a_proposal_replaces_the_node() {
    let mut p = CirProgram {
        id: ProgramId::new(),
        task_id: TaskId::new(),
        entry: vec!["a".into()],
        nodes: vec![node("a", "search"), node("b", "write_file")],
        effects: vec![],
    };
    apply_proposal(&mut p, RecoveryProposal {
        replace_node: "a".into(),
        subgraph: vec![node("a", "read_file")],
        reason: "r".into(),
    });
    let ids: Vec<&str> = p.nodes.iter().map(|n| n.node_id.as_str()).collect();
    assert_eq!(ids, vec!["b", "a"]);
    assert_eq!(p.nodes[1].capability.as_deref(), Some("read_file"));
}
