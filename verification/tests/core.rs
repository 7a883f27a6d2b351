use acos::error::AcosError;
use acos::expr::{collect_identifiers, parse};
use acos::schema::validate_task_spec;
use acos::types::{TaskId, TaskSpec};

#[test]
fn collect_identifiers_returns_roots() {
    let e = parse("exists(a) && b.x > 1 && !exists(c)").ok().unwrap();
    let mut ids = collect_identifiers(&e);
    ids.sort();
    assert_eq!(ids, vec!["a", "b", "c"]);
}

#[test]
fn rejects_bare_identifier_condition() {
    assert!(parse("doc").is_err());
    assert!(parse("doc > ").is_err());
}

fn task(api_version: &str, goal: &str) -> TaskSpec {
    TaskSpec {
        api_version: api_version.into(),
        id: TaskId::new(),
        goal: goal.into(),
        inputs: vec![],
        outputs: vec![],
        optimization: None,
        approval: None,
    }
}

#[test]
fn task_spec_requires_version_and_goal() {
    assert!(validate_task_spec(&task("acos.io/v1", "do something")).is_ok());
    assert!(matches!(validate_task_spec(&task("", "do something")), Err(AcosError::ValidationFailure { message }) if message == "task.api_version is required"));
    assert!(matches!(validate_task_spec(&task("acos.io/v1", "  \n")), Err(AcosError::ValidationFailure { message }) if message == "task.spec.goal is required"));
}

#[test]
fn compensation_failures_need_a_human() {
    let e = AcosError::CompensationFailure { message: "x".into(), effect: None };
    assert!(e.requires_human_intervention());
    assert!(!AcosError::Internal { message: "x".into() }.requires_human_intervention());
    assert_eq!(e.to_text(), "compensation failure: x (effect=None)");
}

#[test]
fn fresh_identifiers_are_version_4_uuids() {
    for v in [
        acos::types::RunId::new().0,
        acos::types::ProgramId::new().0,
        acos::types::TaskId::new().0,
        acos::types::PrimitiveId::new().0,
        acos::types::ArtifactId::new().0,
    ] {
        assert_eq!((v >> 76) & 0xf, 4);
        assert_eq!((v >> 62) & 0x3, 2);
    }
    assert_ne!(acos::types::RunId::new(), acos::types::RunId::new());
}

fn parse_message(text: &str) -> String {
    match parse(text) {
        Err(AcosError::ValidationFailure { message }) => message,
        _ => panic!("expected a validation failure"),
    }
}

#[test]
fn parse_errors_name_the_first_problem() {
    assert_eq!(parse_message("a = 1"), "expected '=='");
    assert_eq!(parse_message("a & b"), "expected '&&'");
    assert_eq!(parse_message("a | b"), "expected '||'");
    assert_eq!(parse_message("a > 1.2.3"), "invalid number '1.2.3'");
    assert_eq!(parse_message("a ? b"), "unexpected character '?'");
    assert_eq!(parse_message("doc > "), "malformed condition expression");
    assert_eq!(parse_message("exists(a) exists(b)"), "unexpected token after expression");
}
