use acos::json::JsonValue;
use acos::traits::Event;
use acos::types::RunId;
use acos::verify::{
    check_evidence, check_structural, VerificationFinding, VerificationLayer, VerificationReport,
};

#[test]
fn structural_empty_artifact_fails() {
    let findings = check_structural(None, &vec![]);
    assert_eq!(findings.len(), 1);
    assert!(!findings[0].passed);
    assert!(findings[0].message.contains("missing"));
}

#[test]
fn structural_whitespace_artifact_fails() {
    let findings = check_structural(Some(b""), &vec!["summary".to_string()]);
    assert!(findings.iter().any(|f| !f.passed && f.message.contains("empty")));
}

#[test]
fn structural_required_section_missing() {
    let sections = vec!["summary".to_string(), "details".to_string()];
    let findings = check_structural(Some(b"# Summary\nThis is a report."), &sections);
    let summary: Vec<_> = findings.iter().filter(|f| f.message.contains("summary")).collect();
    let details: Vec<_> = findings.iter().filter(|f| f.message.contains("details")).collect();
    assert!(summary.iter().all(|f| f.passed));
    assert!(details.iter().any(|f| !f.passed));
}

fn event(seq: u64, event_type: &str, payload: JsonValue) -> Event {
    Event { seq, run_id: RunId::new(), event_type: event_type.into(), payload }
}

#[test]
fn evidence_full_run_passes() {
    let events = vec![
        event(1, "run.started", JsonValue::Object(vec![])),
        event(2, "primitive.end", JsonValue::Object(vec![("ok".into(), JsonValue::Bool(true))])),
        event(3, "run.finished", JsonValue::Object(vec![])),
    ];
    let findings = check_evidence(&events);
    assert!(findings.iter().all(|f| f.passed));
}

#[test]
fn evidence_without_finish_fails() {
    let events = vec![event(1, "run.started", JsonValue::Object(vec![]))];
    let findings = check_evidence(&events);
    assert_eq!(findings.len(), 3);
    assert!(findings[0].passed);
    assert!(!findings[1].passed);
    assert!(!findings[2].passed);
}

#[test]
fn report_layers_partition_findings() {
    let report = VerificationReport {
        findings: vec![
            VerificationFinding { passed: true, layer: VerificationLayer::Structure, message: "a".into() },
            VerificationFinding { passed: false, layer: VerificationLayer::Evidence, message: "b".into() },
        ],
    };
    assert!(!report.all_passed());
    assert!(report.layer_passed(VerificationLayer::Structure));
    assert!(!report.layer_passed(VerificationLayer::Evidence));
    assert!(!report.layer_passed(VerificationLayer::Semantic));
    assert_eq!(report.layer_findings(VerificationLayer::Evidence).len(), 1);
}
