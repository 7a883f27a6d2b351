use acos::bench::{
    apply_require_model, judge_execution, list_source_items, needs_verification, rejection_expected,
    selected, status_to_string,
    substitute_workspace, substitute_workspace_in_program, BenchArgs, BenchRegistry, BenchReport,
    CaseResult, CaseStatus, Expected, FlakySearchPrimitive,
};
use acos::json::JsonValue;
use acos::compiler::validate_cir_bounded;
use acos::rule::RuleCompiler;
use acos::traits::RunStatus;
use acos::types::{CirNode, CirNodeKind, CirProgram, FailureClass, ProgramId, TaskId, TaskInput, TaskSpec};

fn case(status: CaseStatus) -> CaseResult {
    CaseResult {
        id: "c".into(),
        suite: "s".into(),
        status,
        compile: None,
        execution: None,
        recovery: None,
        recovery_detail: None,
        verification: None,
        note: String::new(),
    }
}

#[test]
fn report_counts_partition_the_cases() {
    let mut r = BenchReport::new();
    r.cases.push(case(CaseStatus::Pass));
    r.cases.push(case(CaseStatus::Fail));
    r.cases.push(case(CaseStatus::Pass));
    r.cases.push(case(CaseStatus::Skip));
    assert_eq!(r.total(), 4);
    assert_eq!(r.passed(), 2);
    assert_eq!(r.failed(), 1);
    assert_eq!(r.skipped(), 1);
    assert_eq!(r.passed() + r.failed() + r.skipped(), r.total());
    assert_eq!(CaseStatus::Skip.as_text(), "SKIP");
}

#[test]
fn workspace_tokens_are_substituted() {
    assert_eq!(substitute_workspace("{workspace}/a/{workspace}", "/w"), "/w/a//w");
    assert_eq!(substitute_workspace("none", "/w"), "none");
}

#[test]
fn run_statuses_have_words() {
    assert_eq!(status_to_string(RunStatus::Completed), "success");
    assert_eq!(status_to_string(RunStatus::Failed), "failed");
    assert_eq!(status_to_string(RunStatus::Compensated), "compensated");
}

fn expected() -> Expected {
    Expected { compile: None, execution: None, verification: None, recovery: None, final_status: None, validation: None }
}

#[test]
fn judging_executions() {
    let r = judge_execution(&expected(), true, "success", None, Some(true), false);
    assert!(matches!(r.0, CaseStatus::Pass));
    assert_eq!(r.1, "ok");
    let r = judge_execution(&expected(), false, "failed", None, None, false);
    assert!(matches!(r.0, CaseStatus::Fail));
    assert_eq!(r.1, "execution expected true, got false");
    let mut e = expected();
    e.recovery = Some("model".into());
    let r = judge_execution(&e, false, "failed", None, None, false);
    assert!(matches!(r.0, CaseStatus::Skip));
    assert_eq!(r.1, "model not configured");
    let mut e = expected();
    e.final_status = Some("success".into());
    let r = judge_execution(&e, true, "failed", None, None, true);
    assert_eq!(r.1, "final_status expected success, got failed");
}

#[test]
fn flaky_search_fails_then_succeeds() {
    let mut p = FlakySearchPrimitive::new(2, FailureClass::Timeout);
    assert!(p.attempt().is_err());
    assert!(p.attempt().is_err());
    assert!(p.attempt().is_ok());
    let reg = BenchRegistry::new();
    assert!(!reg.list().is_empty());
}

#[test]
fn rule_compiler_generates_read_summarize_write() {
    let task = TaskSpec {
        api_version: "acos.io/v1".into(),
        id: TaskId::new(),
        goal: "analyze csv files".into(),
        inputs: vec![
            TaskInput { input_type: "File".into(), path: "a.csv".into(), format: None },
            TaskInput { input_type: "File".into(), path: "b.csv".into(), format: None },
        ],
        outputs: vec![],
        optimization: None,
        approval: None,
    };
    let result = RuleCompiler::new().compile(&task).ok().expect("compile");
    let prog = result.program;
    let kinds: Vec<_> = prog.nodes.iter().map(|n| n.kind).collect();
    assert!(kinds.contains(&CirNodeKind::Sequence));
    assert!(kinds.contains(&CirNodeKind::Parallel));
    assert!(kinds.contains(&CirNodeKind::PrimitiveInvocation));
    assert_eq!(prog.nodes.len(), 6);
    assert_eq!(prog.entry, vec!["root"]);
    assert!(matches!(validate_cir_bounded(&prog), Some(Ok(()))));
}

#[test]
fn rule_compiler_refuses_tasks_without_files() {
    let task = TaskSpec {
        api_version: "acos.io/v1".into(),
        id: TaskId::new(),
        goal: "g".into(),
        inputs: vec![TaskInput { input_type: "Url".into(), path: "http://x".into(), format: None }],
        outputs: vec![],
        optimization: None,
        approval: None,
    };
    assert!(RuleCompiler::new().compile(&task).is_err());
}

#[test]
fn report_table_pads_columns() {
    let mut r = BenchReport::new();
    let mut c = case(CaseStatus::Pass);
    c.id = "cond_01".into();
    c.execution = Some(true);
    c.recovery = Some("retry".into());
    c.note = "ok".into();
    r.cases.push(c);
    let lines = r.table_lines();
    assert_eq!(lines.len(), 6);
    assert_eq!(lines[0], "ACOS Benchmark v0.1");
    assert_eq!(
        lines[1],
        format!("{:<28} {:<6} {:<8} {:<8} {:<8} {:<16} {}", "Case", "Result", "Compile", "Execute", "Recover", "Detail", "Note")
    );
    assert_eq!(lines[2], "-".repeat(76));
    assert_eq!(
        lines[3],
        format!("{:<28} {:<6} {:<8} {:<8} {:<8} {:<16} {}", "cond_01", "PASS", "-", "PASS", "retry", "-", "ok")
    );
    assert_eq!(lines[5], "1 cases / 1 passed / 0 failed / 0 skipped");
}

#[test]
fn workspace_tokens_are_substituted_in_string_inputs_only() {
    let node = CirNode {
        kind: CirNodeKind::PrimitiveInvocation,
        node_id: "read".into(),
        capability: Some("read_file".into()),
        output: None,
        input_types: vec![],
        children: vec![],
        else_children: vec![],
        inputs: vec![
            ("path".into(), JsonValue::Str("{workspace}/in.txt".into())),
            ("limit".into(), JsonValue::Number("3".into())),
        ],
        control: None,
    };
    let mut p = CirProgram {
        id: ProgramId(1),
        task_id: TaskId(2),
        entry: vec!["read".into()],
        nodes: vec![node],
        effects: vec![],
    };
    substitute_workspace_in_program(&mut p, "/tmp/ws");
    assert_eq!(p.nodes.len(), 1);
    assert_eq!(p.nodes[0].node_id, "read");
    assert!(matches!(&p.nodes[0].inputs[0].1, JsonValue::Str(s) if s == "/tmp/ws/in.txt"));
    assert!(matches!(&p.nodes[0].inputs[1].1, JsonValue::Number(n) if n == "3"));
}

#[test]
fn expected_rejections_match_by_substring() {
    let mut e = expected();
    assert!(!rejection_expected(&e, "loop must set max_iterations"));
    e.validation = Some("max_iterations".into());
    assert!(rejection_expected(&e, "While loop must set max_iterations (termination guarantee)"));
    assert!(!rejection_expected(&e, "retry.max_attempts must be >= 1"));
}

#[test]
fn cases_are_selected_by_suite_and_id() {
    let mut a = BenchArgs { fixtures_dir: "fixtures".into(), suite: None, case: None, require_model: false };
    assert!(selected(&a, "loop", "l1"));
    a.suite = Some("loop".into());
    assert!(selected(&a, "loop", "l1"));
    assert!(!selected(&a, "retry", "l1"));
    a.case = Some("l2".into());
    assert!(!selected(&a, "loop", "l1"));
    assert!(selected(&a, "loop", "l2"));
}

#[test]
fn require_model_turns_skips_into_failures() {
    let mut c = case(CaseStatus::Skip);
    apply_require_model(&mut c, false);
    assert_eq!(c.status, CaseStatus::Skip);
    apply_require_model(&mut c, true);
    assert_eq!(c.status, CaseStatus::Fail);
    assert_eq!(c.note, "require_model: skipped case treated as failure");
    let mut d = case(CaseStatus::Skip);
    d.note = "model not configured".into();
    apply_require_model(&mut d, true);
    assert_eq!(d.note, "model not configured");
    let mut p = case(CaseStatus::Pass);
    apply_require_model(&mut p, true);
    assert_eq!(p.status, CaseStatus::Pass);
}

#[test]
fn verification_is_consulted_only_after_a_matching_run() {
    let mut e = expected();
    assert!(needs_verification(&e, true, "success"));
    assert!(!needs_verification(&e, false, "failed"));
    e.final_status = Some("success".into());
    assert!(needs_verification(&e, true, "success"));
    assert!(!needs_verification(&e, true, "compensated"));
}

#[test]
fn list_source_yields_three_items() {
    assert_eq!(list_source_items(), vec!["alpha".to_string(), "beta".to_string(), "gamma".to_string()]);
}

#[test]
fn rule_program_validates_for_many_files() {
    let mut inputs = vec![];
    for i in 0..12 {
        inputs.push(TaskInput { input_type: "file".into(), path: format!("in{i}.csv"), format: None });
        inputs.push(TaskInput { input_type: "url".into(), path: format!("http://h/{i}"), format: None });
    }
    let task = TaskSpec {
        api_version: "acos.io/v1".into(),
        id: TaskId::new(),
        goal: "g".into(),
        inputs,
        outputs: vec![],
        optimization: None,
        approval: None,
    };
    let prog = RuleCompiler::new().compile(&task).ok().expect("compile").program;
    assert_eq!(prog.nodes.len(), 16);
    assert_eq!(prog.nodes[11].node_id, "read_11");
    assert!(matches!(validate_cir_bounded(&prog), Some(Ok(()))));
}

#[test]
fn rule_program_with_a_reference_in_a_path_fails_validation() {
    let task = TaskSpec {
        api_version: "acos.io/v1".into(),
        id: TaskId::new(),
        goal: "g".into(),
        inputs: vec![TaskInput { input_type: "FILE".into(), path: "${missing}.csv".into(), format: None }],
        outputs: vec![],
        optimization: None,
        approval: None,
    };
    let prog = RuleCompiler::new().compile(&task).ok().expect("compile").program;
    assert!(matches!(validate_cir_bounded(&prog), Some(Err(_))));
}

#[test]
fn a_rejection_passes_only_when_the_fixture_expects_it() {
    let mut exp = expected();
    let (status, note) = acos::bench::judge_rejection(&exp, "compiler failure: x");
    assert!(matches!(status, CaseStatus::Fail));
    assert_eq!(note, "validate_cir failed: compiler failure: x");
    exp.validation = Some("failure".into());
    let (status, note) = acos::bench::judge_rejection(&exp, "compiler failure: x");
    assert!(matches!(status, CaseStatus::Pass));
    assert_eq!(note, "expected validation failure: compiler failure: x");
}
