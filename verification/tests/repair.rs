use acos::error::{AcosError, CompilerError};
use acos::repair::{RepairNext, RepairSession, MAX_REPAIR_ATTEMPTS};
use acos::traits::DiagnosticLevel;

fn rejected() -> Result<(String, usize), CompilerError> {
    Err(CompilerError::NoOpProgram)
}

#[test]
fn first_pass_success_records_no_repairs() {
    let mut s = RepairSession::new("prompt".into(), MAX_REPAIR_ATTEMPTS);
    let next = s.on_reply("prompt".into(), "{}".into(), Ok(("p-1".into(), 2)), 5, 7, "m");
    assert!(matches!(next, RepairNext::Succeeded));
    assert_eq!(s.trace.initial_response, "{}");
    assert_eq!(s.trace.timing.initial_llm_ms, 5);
    assert_eq!(s.trace.timing.total_ms, 7);
    assert!(s.trace.repair_attempts.is_empty());
    assert_eq!(s.diagnostics.len(), 2);
    assert_eq!(s.diagnostics[1].message, "compile.succeeded: model planner generated program p-1 (2 nodes) via m");
}

#[test]
fn repairs_are_numbered_and_bounded() {
    let mut s = RepairSession::new("prompt".into(), 2);
    let next = s.on_reply("prompt".into(), "bad".into(), rejected(), 1, 1, "m");
    assert!(matches!(next, RepairNext::Repair { attempt: 1, .. }));
    assert_eq!(s.trace.initial_error.as_deref(), Some("no-op program: the CIR contains no executable node"));
    let next = s.on_reply("r1".into(), "bad1".into(), rejected(), 2, 3, "m");
    assert!(matches!(next, RepairNext::Repair { attempt: 2, .. }));
    let next = s.on_reply("r2".into(), "bad2".into(), rejected(), 3, 9, "m");
    match next {
        RepairNext::Failed { error: AcosError::CompilerFailure { message } } => assert_eq!(
            message,
            "repair exhausted after 2 attempts; last error: no-op program: the CIR contains no executable node"
        ),
        _ => panic!("expected exhaustion"),
    }
    let attempts: Vec<u32> = s.trace.repair_attempts.iter().map(|e| e.attempt).collect();
    assert_eq!(attempts, vec![1, 2]);
    assert_eq!(s.trace.repair_attempts[1].response, "bad2");
    assert_eq!(s.trace.timing.repair_llm_ms, 5);
    assert_eq!(s.trace.timing.total_ms, 9);
    let last = s.diagnostics.last().unwrap();
    assert_eq!(last.level, DiagnosticLevel::Error);
    assert!(last.message.starts_with("compile.failed: repair exhausted after 2 attempts"));
    assert!(s.diagnostics.iter().any(|d| d.message == "compile.repair.started: attempt 1/2"));
}

#[test]
fn repair_success_after_rejection() {
    let mut s = RepairSession::new("prompt".into(), 3);
    s.on_reply("prompt".into(), "bad".into(), rejected(), 1, 1, "m");
    let next = s.on_reply("r1".into(), "good".into(), Ok(("p-2".into(), 3)), 2, 4, "m");
    assert!(matches!(next, RepairNext::Succeeded));
    assert_eq!(s.trace.repair_attempts.len(), 1);
    assert!(s.trace.repair_attempts[0].validation_error.is_none());
    assert_eq!(s.diagnostics.last().unwrap().message, "compile.repair.succeeded on attempt 1: program p-2 (3 nodes)");
}

#[test]
fn model_error_ends_the_compile() {
    let mut s = RepairSession::new("prompt".into(), 3);
    s.on_reply("prompt".into(), "bad".into(), rejected(), 1, 1, "m");
    let e = s.on_llm_error(AcosError::ExternalSystemFailure { message: "down".into(), system: None }, "r1".into(), 4, 6);
    assert!(matches!(e, AcosError::ExternalSystemFailure { .. }));
    assert_eq!(s.trace.repair_attempts.len(), 1);
    assert_eq!(s.trace.repair_attempts[0].response, "");
    assert_eq!(s.trace.final_error.as_deref(), Some("external system failure: down (system=None)"));
}

#[test]
fn zero_repairs_fail_at_once() {
    let mut s = RepairSession::new("prompt".into(), 0);
    let next = s.on_reply("prompt".into(), "bad".into(), rejected(), 1, 1, "m");
    assert!(matches!(next, RepairNext::Failed { .. }));
    assert!(s.trace.repair_attempts.is_empty());
}
