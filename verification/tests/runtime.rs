use acos::json::JsonValue;
use acos::runtime::{
    is_single_reference, loop_step, reference_name_of, resolve_dotted, resolve_path, split_template,
    recent_events, FailureContext, LoopStep, OfflineFallbackRule, RecoveryAction, RecoveryDriver,
    TemplatePiece, MAX_RECOVERY_ATTEMPTS, retry_step, RetryStep,
};
use acos::traits::Event;
use acos::types::{
    CirNode, CirNodeKind, CirProgram, FailureClass, LoopKind, OutputSpec, ProgramId, RunId, TaskId,
    TypedValue, ValueType,
};

fn program_with_search() -> CirProgram {
    CirProgram {
        id: ProgramId::new(),
        task_id: TaskId::new(),
        entry: vec!["root".into()],
        nodes: vec![CirNode {
            kind: CirNodeKind::PrimitiveInvocation,
            node_id: "root".into(),
            capability: Some("search".into()),
            output: Some(OutputSpec { name: "results".into(), type_label: "String".into(), fields: vec![] }),
            input_types: vec![],
            children: vec![],
            else_children: vec![],
            inputs: vec![],
            control: None,
        }],
        effects: vec![],
    }
}

fn failure(node_id: &str, class: FailureClass) -> FailureContext {
    FailureContext {
        run_id: RunId::new(),
        node_id: node_id.into(),
        error_class: class,
        error_message: "boom".into(),
        attempts: 0,
        recent_events: vec![],
    }
}

#[test]
fn offline_fallback_rule_matches_transient_classes() {
    let rule = OfflineFallbackRule { fallback_path: "fallback.txt".into() };
    assert!(rule.matches(&failure("root", FailureClass::Timeout)));
    assert!(rule.matches(&failure("root", FailureClass::TransientNetworkError)));
    assert!(!rule.matches(&failure("root", FailureClass::Unknown)));
    assert!(!rule.matches(&failure("root", FailureClass::InvalidInput)));
}

#[test]
fn offline_fallback_rule_proposes_read_file_replacement() {
    let rule = OfflineFallbackRule { fallback_path: "fallback.txt".into() };
    let program = program_with_search();
    let proposal = rule.propose(&failure("root", FailureClass::Timeout), &program).unwrap();
    assert_eq!(proposal.replace_node, "root");
    let root = proposal.subgraph.first().unwrap();
    assert_eq!(root.node_id, "root");
    assert_eq!(root.capability.as_deref(), Some("read_file"));
    assert!(matches!(&root.inputs[0], (k, JsonValue::Str(v)) if k == "path" && v == "fallback.txt"));
    assert_eq!(root.output.as_ref().map(|o| o.name.as_str()), Some("results"));
    assert_eq!(proposal.reason, "boom: falling back to local file 'fallback.txt'");
}

#[test]
fn offline_fallback_rule_proposes_nothing_for_missing_node() {
    let rule = OfflineFallbackRule { fallback_path: "x".into() };
    assert!(rule.propose(&failure("missing", FailureClass::Timeout), &program_with_search()).is_none());
}

fn env_with_doc() -> Vec<(String, TypedValue)> {
    let doc = JsonValue::Object(vec![
        ("meta".into(), JsonValue::Object(vec![("title".into(), JsonValue::Str("Q1".into()))])),
        ("count".into(), JsonValue::Number("3".into())),
    ]);
    vec![("doc".into(), TypedValue { value_type: ValueType::Record, payload: doc })]
}

#[test]
fn dotted_reference_walks_fields() {
    let env = env_with_doc();
    assert!(matches!(resolve_dotted("${doc.meta.title}", &env), Some(JsonValue::Str(s)) if s == "Q1"));
    assert!(matches!(resolve_dotted("${doc.count}", &env), Some(JsonValue::Number(n)) if n == "3"));
}

#[test]
fn dotted_path_missing_field_is_unresolved() {
    let env = env_with_doc();
    assert!(resolve_dotted("${doc.meta.author}", &env).is_none());
    assert!(resolve_dotted("${other.x}", &env).is_none());
    assert!(resolve_dotted("doc.meta", &env).is_none());
}

#[test]
fn condition_paths_resolve_or_report_empty_path() {
    let env = env_with_doc();
    let segs: Vec<String> = vec!["doc".into(), "meta".into(), "title".into()];
    assert!(matches!(resolve_path(&segs, &env), Ok(Some(JsonValue::Str(s))) if s == "Q1"));
    let unbound: Vec<String> = vec!["nope".into()];
    assert!(matches!(resolve_path(&unbound, &env), Ok(None)));
    match resolve_path(&vec![], &env) {
        Err(acos::error::AcosError::ValidationFailure { message }) => {
            assert_eq!(message, "empty path in condition")
        }
        _ => panic!("expected a validation failure"),
    }
}

#[test]
fn references_are_recognised() {
    assert!(is_single_reference("${a.b}"));
    assert!(is_single_reference("$name"));
    assert!(!is_single_reference("$a b"));
    assert!(!is_single_reference("plain"));
    assert_eq!(reference_name_of("${raw_0}").as_deref(), Some("raw_0"));
}

#[test]
fn templates_split_into_text_and_references() {
    let pieces = split_template("read ${a} and ${b.c}!");
    assert_eq!(pieces.len(), 5);
    assert!(matches!(&pieces[0], TemplatePiece::Text(t) if t == "read "));
    assert!(matches!(&pieces[1], TemplatePiece::Reference(t) if t == "${a}"));
    assert!(matches!(&pieces[2], TemplatePiece::Text(t) if t == " and "));
    assert!(matches!(&pieces[3], TemplatePiece::Reference(t) if t == "${b.c}"));
    assert!(matches!(&pieces[4], TemplatePiece::Text(t) if t == "!"));
}

#[test]
fn a_loop_whose_condition_always_holds_stops_at_its_limit() {
    let mut done = 0u32;
    let mut steps = 0;
    loop {
        match loop_step(LoopKind::While, done, Some(3), true) {
            LoopStep::Iterate(n) => {
                assert_eq!(n, done + 1);
                done = n;
            }
            LoopStep::LimitReached => break,
            LoopStep::Exit => panic!("the condition holds"),
        }
        steps += 1;
        assert!(steps <= 3);
    }
    assert_eq!(done, 3);
    assert!(matches!(loop_step(LoopKind::Until, 0, Some(3), true), LoopStep::Exit));
    assert!(matches!(loop_step(LoopKind::While, 0, None, false), LoopStep::Exit));
}

fn event(seq: u64) -> Event {
    Event { seq, run_id: RunId(7), event_type: format!("e{seq}"), payload: JsonValue::Null }
}

#[test]
fn failure_contexts_carry_the_five_newest_events_newest_first() {
    let events: Vec<Event> = (1..=7).map(event).collect();
    let recent = recent_events(events);
    let seqs: Vec<u64> = recent.iter().map(|e| e.seq).collect();
    assert_eq!(seqs, vec![7, 6, 5, 4, 3]);
    let few = recent_events(vec![event(1), event(2)]);
    assert_eq!(few.iter().map(|e| e.seq).collect::<Vec<u64>>(), vec![2, 1]);
}

#[test]
fn recovery_tries_the_rule_then_the_model_and_stops_at_the_limit() {
    let mut d = RecoveryDriver::new(true, true);
    assert_eq!(d.on_failure(), RecoveryAction::AskRule);
    assert_eq!(d.on_rule_outcome(false), RecoveryAction::AskModel);
    assert_eq!(d.on_model_outcome(true), RecoveryAction::Rerun);
    assert_eq!(d.attempts, 1);
    for _ in 1..MAX_RECOVERY_ATTEMPTS {
        assert_eq!(d.on_failure(), RecoveryAction::AskRule);
        assert_eq!(d.on_rule_outcome(true), RecoveryAction::Rerun);
    }
    assert_eq!(d.attempts, MAX_RECOVERY_ATTEMPTS);
    assert_eq!(d.on_failure(), RecoveryAction::Fail);
    let mut m = RecoveryDriver::new(false, true);
    assert_eq!(m.on_failure(), RecoveryAction::AskModel);
    assert_eq!(m.on_model_outcome(false), RecoveryAction::Fail);
    assert_eq!(RecoveryDriver::new(false, false).on_failure(), RecoveryAction::Fail);
    let mut r = RecoveryDriver::new(true, false);
    assert_eq!(r.on_rule_outcome(false), RecoveryAction::Fail);
}

#[test]
fn retries_follow_the_policy_and_stop_at_its_limit() {
    let any: Vec<FailureClass> = vec![];
    assert_eq!(retry_step(1, 3, &any, FailureClass::Timeout, true), RetryStep::Retry(2));
    assert_eq!(retry_step(2, 3, &any, FailureClass::Timeout, true), RetryStep::Retry(3));
    assert_eq!(retry_step(3, 3, &any, FailureClass::Timeout, true), RetryStep::Exhausted);
    assert_eq!(retry_step(1, 1, &any, FailureClass::Timeout, true), RetryStep::Fail);
    assert_eq!(retry_step(1, 0, &any, FailureClass::Timeout, true), RetryStep::Fail);
    let only_timeouts = vec![FailureClass::Timeout];
    assert_eq!(retry_step(1, 3, &only_timeouts, FailureClass::Unknown, true), RetryStep::Fail);
    assert_eq!(retry_step(2, 3, &only_timeouts, FailureClass::Unknown, true), RetryStep::Exhausted);
    assert_eq!(retry_step(1, 3, &only_timeouts, FailureClass::Timeout, false), RetryStep::Fail);
    let mut attempt = 1;
    let mut runs = 1;
    while let RetryStep::Retry(n) = retry_step(attempt, 4, &any, FailureClass::Timeout, true) {
        attempt = n;
        runs += 1;
    }
    assert_eq!(runs, 4);
}
