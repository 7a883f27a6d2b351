use acos::cir::{
    any_primitive, check_children, check_else_children, check_entry, validate_capabilities,
    validate_control_semantics, validate_effects,
};
use acos::contract::validate_data_contract;
use acos::reach::check_reachability;
use acos::json::JsonValue;
use acos::lower::{compile_plan, lower_plan, plan_uses_inputs};
use acos::plan::{
    validate_plan, validate_step, BindingRef, ControlDecl, DataFlowDecl, PlanIR, PlanStep, RetrySpec, StepKind,
    StepOutput, INPUTS_SOURCE, ITEM_VAR,
};
use acos::probe::count_step_kind;
use acos::types::{CirNode, CirNodeKind, CirProgram, ProgramId, TaskId, TaskInput, TaskOutput, TaskSpec};

fn step(name: &str, kind: StepKind) -> PlanStep {
    PlanStep {
        name: name.into(),
        kind,
        description: None,
        capability: None,
        code: None,
        over: None,
        condition: None,
        input_bindings: vec![],
        output: None,
        body: vec![],
        retry: None,
        write_path: None,
    }
}

fn python(name: &str, code: &str, output: Option<StepOutput>) -> PlanStep {
    let mut s = step(name, StepKind::Primitive);
    s.capability = Some("execute_python".into());
    s.code = Some(code.into());
    s.output = output;
    s
}

fn out(name: &str, ty: &str) -> StepOutput {
    StepOutput { name: name.into(), type_label: ty.into(), fields: vec![] }
}

fn plan(goal: &str, steps: Vec<PlanStep>) -> PlanIR {
    PlanIR { goal: goal.into(), steps, data_flow: vec![], control_flow: vec![] }
}

fn task() -> TaskSpec {
    TaskSpec {
        api_version: "acos.io/v1".into(),
        id: TaskId::new(),
        goal: "analyze csv files".into(),
        inputs: vec![
            TaskInput { input_type: "File".into(), path: "data/a.csv".into(), format: Some("csv".into()) },
            TaskInput { input_type: "File".into(), path: "data/b.csv".into(), format: Some("csv".into()) },
        ],
        outputs: vec![TaskOutput { output_type: "Report".into(), format: Some("markdown".into()) }],
        optimization: None,
        approval: None,
    }
}

fn compile_ok(plan: &PlanIR) -> CirProgram {
    if let Err(e) = validate_plan(plan) {
        panic!("plan invalid: {e}");
    }
    match compile_plan(plan, &task(), TaskId::new(), ProgramId::new()) {
        Ok(p) => p,
        Err(e) => panic!("{}", e.to_text()),
    }
}

fn find<'a>(p: &'a CirProgram, id: &str) -> &'a CirNode {
    p.nodes.iter().find(|n| n.node_id == id).unwrap()
}

fn input_text<'a>(n: &'a CirNode, key: &str) -> &'a str {
    match n.inputs.iter().find(|(k, _)| k == key) {
        Some((_, JsonValue::Str(s))) => s.as_str(),
        _ => panic!("no string input {key}"),
    }
}

#[test]
fn valid_plan_with_inputs_loop_compiles() {
    let mut each = step("analyze_each", StepKind::Foreach);
    each.description = Some("analyze one file".into());
    each.over = Some(INPUTS_SOURCE.into());
    each.output = Some(out("per_file", "List<CsvAnalysisResult>"));
    each.body = vec![python(
        "process_file",
        "r = analyze(\"${item}\")",
        Some(out("analysis", "CsvAnalysisResult")),
    )];
    let mut p = plan("analyze csv files", vec![each]);
    p.control_flow = vec![ControlDecl {
        step: "analyze_each".into(),
        kind: "foreach".into(),
        over: Some(INPUTS_SOURCE.into()),
        condition: None,
    }];
    let program = compile_ok(&p);
    assert_eq!(program.entry, vec!["plan_root".to_string()]);
    assert_eq!(program.nodes.len(), 4);
    let loop_node = find(&program, "analyze_each");
    assert_eq!(loop_node.kind, CirNodeKind::LoopMap);
    let spec = loop_node.control.as_ref().unwrap().loop_spec.as_ref().unwrap();
    assert_eq!(spec.input.as_deref(), Some("${input_files}"));
    assert_eq!(spec.item_var.as_deref(), Some(ITEM_VAR));
    let body = find(&program, "process_file");
    assert_eq!(input_text(body, "code"), "r = analyze(\"${item}\")");
    assert!(validate_data_contract(&program).is_ok());
}

#[test]
fn valid_plan_rejects_undefined_binding_at_plan_level() {
    let p = plan("x", vec![python("use_missing", "x = ${missing_binding}", Some(out("r", "String")))]);
    let err = validate_plan(&p).unwrap_err();
    assert!(err.contains("missing_binding"), "unexpected error: {err}");
}

#[test]
fn valid_plan_foreach_aggregate_type_must_match_body() {
    let mut lp = step("loop", StepKind::Foreach);
    lp.over = Some(INPUTS_SOURCE.into());
    lp.output = Some(out("results", "List<OtherType>"));
    lp.body = vec![python("inner", "pass", Some(out("r", "CsvAnalysisResult")))];
    let err = validate_plan(&plan("x", vec![lp])).unwrap_err();
    assert!(err.contains("List<CsvAnalysisResult>"), "unexpected error: {err}");
}

#[test]
fn valid_plan_body_can_consume_foreach_item() {
    let mut lp = step("loop", StepKind::Foreach);
    lp.over = Some(INPUTS_SOURCE.into());
    lp.body = vec![python("inner", "f(\"${item}\")", Some(out("r", "String")))];
    let p = plan("x", vec![lp]);
    let program = compile_ok(&p);
    let body = find(&program, "inner");
    assert_eq!(input_text(body, "code"), "f(\"${item}\")");
    assert!(validate_plan(&p).is_ok());
}

#[test]
fn invalid_duplicate_names_rejected() {
    let p = plan("x", vec![step("dup", StepKind::Primitive), step("dup", StepKind::Primitive)]);
    assert!(validate_plan(&p).is_err());
}

#[test]
fn invalid_item_binding_shadow_rejected() {
    let p = plan("x", vec![python("producer", "x = 1", Some(out(ITEM_VAR, "String")))]);
    let err = validate_plan(&p).unwrap_err();
    assert!(err.contains("reserved"), "unexpected error: {err}");
}

#[test]
fn retry_step_requires_policy() {
    let mut p = plan("x", vec![step("r", StepKind::Retry)]);
    assert!(validate_plan(&p).is_err());
    p.steps[0].capability = Some("execute_python".into());
    p.steps[0].code = Some("pass".into());
    p.steps[0].retry = Some(RetrySpec { max_attempts: 3 });
    assert!(validate_plan(&p).is_ok());
    let program = compile_ok(&p);
    let node = find(&program, "r");
    assert_eq!(node.control.as_ref().unwrap().retry.as_ref().unwrap().max_attempts, 3);
}

#[test]
fn conditional_requires_condition_and_no_output() {
    let mut c = step("cond", StepKind::Conditional);
    c.condition = Some("${has_data}.length > 0".into());
    c.body = vec![python("inner", "pass", Some(out("r", "String")))];
    let err = validate_plan(&plan("x", vec![c])).unwrap_err();
    assert!(err.contains("has_data"), "unexpected error: {err}");
}

#[test]
fn total_function_valid_plan_always_compiles() {
    let mut second = python("s2", "y = ${r1}", None);
    second.input_bindings =
        vec![BindingRef { param: "r1".into(), source: "s1".into(), binding: "r1".into() }];
    let mut b = plan("b", vec![python("s1", "x = 1", Some(out("r1", "Number"))), second]);
    b.data_flow = vec![DataFlowDecl { from_step: "s1".into(), to_step: "s2".into(), binding: "r1".into() }];
    let plans = vec![plan("a", vec![python("s1", "x = 1", Some(out("r1", "Number")))]), b];
    for p in &plans {
        compile_ok(p);
    }
}

// ── Further cases ───────────────────────────────────────────────────────────

#[test]
fn valid_plan_root_lists_top_level_steps() {
    let p = plan("a", vec![python("s1", "x = 1", Some(out("r1", "Number")))]);
    let program = compile_ok(&p);
    assert!(!plan_uses_inputs(&p));
    assert_eq!(program.nodes.len(), 2);
    let root = find(&program, "plan_root");
    assert_eq!(root.kind, CirNodeKind::Sequence);
    assert_eq!(root.children, vec!["s1".to_string()]);
}

#[test]
fn inputs_loop_gets_an_input_injector() {
    let mut lp = step("loop", StepKind::Foreach);
    lp.over = Some(INPUTS_SOURCE.into());
    lp.body = vec![python("inner", "f(\"${item}\")", Some(out("r", "String")))];
    let p = plan("x", vec![lp]);
    assert!(plan_uses_inputs(&p));
    let program = compile_ok(&p);
    let inj = find(&program, "task_inputs");
    assert_eq!(inj.capability.as_deref(), Some("execute_python"));
    assert_eq!(
        input_text(inj, "code"),
        "import json\nprint(json.dumps([\"data/a.csv\",\"data/b.csv\"]))\n"
    );
    assert_eq!(find(&program, "plan_root").children, vec!["task_inputs".to_string(), "loop".to_string()]);
}

#[test]
fn count_step_kind_walks_nested_bodies() {
    let mut lp = step("loop", StepKind::Foreach);
    lp.body = vec![step("a", StepKind::Primitive), step("b", StepKind::Retry)];
    let steps = vec![lp, step("c", StepKind::Primitive), step("d", StepKind::Conditional)];
    assert_eq!(count_step_kind(&steps, "primitive"), 2);
    assert_eq!(count_step_kind(&steps, "foreach"), 1);
    assert_eq!(count_step_kind(&steps, "retry"), 1);
    assert_eq!(count_step_kind(&steps, "conditional"), 1);
    assert_eq!(count_step_kind(&steps, "other"), 0);
}

#[test]
fn valid_nested_plan_lowers_without_error() {
    let mut lp = step("each", StepKind::Foreach);
    lp.over = Some(INPUTS_SOURCE.into());
    lp.output = Some(out("rows", "List<String>"));
    let mut inner = python("inner", "f(\"${item}\")", Some(out("row", "String")));
    inner.input_bindings =
        vec![BindingRef { param: "path".into(), source: "each".into(), binding: ITEM_VAR.into() }];
    lp.body = vec![inner];
    let mut c = step("check", StepKind::Conditional);
    c.condition = Some("exists(rows)".into());
    let mut w = python("report", "g(${rows})", None);
    w.input_bindings =
        vec![BindingRef { param: "rows".into(), source: "each".into(), binding: "rows".into() }];
    c.body = vec![w];
    let p = plan("nested", vec![lp, c]);
    assert!(validate_plan(&p).is_ok());
    let program = lower_plan(&p, &task(), TaskId::new(), ProgramId::new()).unwrap_or_else(|e| panic!("{}", e.to_text()));
    assert_eq!(program.nodes.len(), 6);
    assert_eq!(find(&program, "task_inputs").node_id, "task_inputs");
    assert!(check_entry(&program).is_ok());
    assert!(check_children(&program).is_ok());
    assert!(check_else_children(&program).is_ok());
    assert!(validate_capabilities(&program).is_ok());
    assert!(validate_effects(&program).is_ok());
    assert!(validate_control_semantics(&program).is_ok());
    assert!(check_reachability(&program).is_ok());
    assert!(any_primitive(&program.nodes));
    assert!(validate_data_contract(&program).is_ok());
}

#[test]
fn an_unparsable_condition_is_rejected_by_plan_validation() {
    let first = python("s0", "a = 1", Some(out("a", "String")));
    let mut c = step("check", StepKind::Conditional);
    c.condition = Some("a ? b".into());
    c.body = vec![python("inner", "pass", Some(out("r", "String")))];
    let p = plan("x", vec![first, c]);
    assert_eq!(validate_plan(&p).unwrap_err(), "step 'check': condition is not a valid expression");
}

#[test]
fn a_condition_naming_no_visible_output_is_rejected() {
    let mut c = step("check", StepKind::Conditional);
    c.condition = Some("exists(missing)".into());
    c.body = vec![python("inner", "pass", None)];
    let p = plan("x", vec![c]);
    assert_eq!(
        validate_plan(&p).unwrap_err(),
        "step 'check': condition names 'missing', which is not a visible output"
    );
}

#[test]
fn a_step_named_like_the_root_is_rejected() {
    let mut lp = step("plan_root", StepKind::Foreach);
    lp.over = Some(INPUTS_SOURCE.into());
    lp.body = vec![python("inner", "f(\"${item}\")", Some(out("r", "String")))];
    let p = plan("x", vec![lp]);
    assert_eq!(
        validate_plan(&p).unwrap_err(),
        "top-level step name 'plan_root' is reserved for the compiler"
    );
}

#[test]
fn an_output_name_declared_in_two_branches_is_rejected() {
    let first = python("s0", "x = 1", Some(out("x", "String")));
    let mut a = step("a", StepKind::Conditional);
    a.condition = Some("exists(x)".into());
    let mut a2 = python("a2", "use(${r})", None);
    a2.input_bindings = vec![BindingRef { param: "r".into(), source: "a1".into(), binding: "r".into() }];
    a.body = vec![python("a1", "r = 'x'", Some(out("r", "String"))), a2];
    let mut b = step("b", StepKind::Conditional);
    b.condition = Some("exists(x)".into());
    b.body = vec![python("b1", "r = 2", Some(out("r", "Number")))];
    let p = plan("x", vec![first, a, b]);
    assert_eq!(
        validate_plan(&p).unwrap_err(),
        "output 'r' is declared twice (output names must be globally unique)"
    );
}

#[test]
fn the_task_input_output_name_is_reserved() {
    let p = plan("x", vec![python("s0", "x = 1", Some(out("input_files", "String")))]);
    assert_eq!(
        validate_plan(&p).unwrap_err(),
        "output name 'input_files' is reserved for the task inputs"
    );
}

#[test]
fn a_step_named_like_the_input_node_is_rejected() {
    let p = plan("x", vec![python("task_inputs", "x = 1", None)]);
    assert_eq!(
        validate_plan(&p).unwrap_err(),
        "top-level step name 'task_inputs' is reserved for the compiler"
    );
}

#[test]
fn references_in_any_step_code_and_write_path_must_be_visible() {
    let mut s = step("s", StepKind::Primitive);
    s.capability = Some("search".into());
    s.code = Some("q = ${nowhere}".into());
    let err = validate_plan(&plan("x", vec![s])).unwrap_err();
    assert!(err.contains("nowhere"), "unexpected error: {err}");
    let mut w = step("w", StepKind::Primitive);
    w.capability = Some("write_file".into());
    w.write_path = Some("out/${nowhere}.md".into());
    let err = validate_plan(&plan("x", vec![w])).unwrap_err();
    assert!(err.contains("nowhere"), "unexpected error: {err}");
}

#[test]
fn a_rejected_retry_step_declares_nothing() {
    let mut s = python("r", "pass", Some(out("o", "String")));
    s.kind = StepKind::Retry;
    s.retry = Some(RetrySpec { max_attempts: 1 });
    let mut seen: Vec<String> = vec![];
    let mut declared: Vec<&StepOutput> = vec![];
    let r = validate_step(&s, &mut seen, &mut declared, None);
    assert!(r.unwrap_err().contains("retry.maxAttempts must be >= 2"));
    assert!(declared.is_empty());
    assert!(seen.is_empty());
    s.retry = Some(RetrySpec { max_attempts: 2 });
    let mut seen2: Vec<String> = vec![];
    let mut declared2: Vec<&StepOutput> = vec![];
    assert!(validate_step(&s, &mut seen2, &mut declared2, None).is_ok());
    assert_eq!(declared2.len(), 1);
    assert_eq!(seen2, vec!["r".to_string()]);
}

#[test]
fn a_condition_naming_a_binding_compiles_with_the_bare_name() {
    let first = python("s0", "r = 'a'", Some(out("r", "String")));
    let mut c = step("check", StepKind::Conditional);
    c.condition = Some("${r} == 'a'".into());
    c.body = vec![python("inner", "pass", None)];
    let p = plan("x", vec![first, c]);
    assert!(validate_plan(&p).is_ok());
    let program = compile_plan(&p, &task(), TaskId::new(), ProgramId::new())
        .unwrap_or_else(|e| panic!("{}", e.message));
    let node = find(&program, "check");
    assert_eq!(node.control.as_ref().unwrap().condition.as_ref().unwrap().expression, "r == 'a'");
}

#[test]
fn a_binding_read_from_the_loop_item_compiles() {
    let mut lp = step("each", StepKind::Foreach);
    lp.over = Some(INPUTS_SOURCE.into());
    let mut inner = python("inner", "f(\"${item}\")", Some(out("row", "String")));
    inner.input_bindings =
        vec![BindingRef { param: "path".into(), source: "each".into(), binding: ITEM_VAR.into() }];
    lp.body = vec![inner];
    let program = compile_ok(&plan("x", vec![lp]));
    let node = find(&program, "inner");
    assert_eq!(input_text(node, "path"), "${item}");
    assert_eq!(node.input_types, vec![("path".to_string(), "Any".to_string())]);
    assert!(validate_data_contract(&program).is_ok());
}

#[test]
fn a_loop_body_binding_an_outer_output_through_the_loop_compiles() {
    let p0 = python("p", "b = 'x'", Some(out("b", "String")));
    let mut lp = step("loop", StepKind::Foreach);
    lp.over = Some(INPUTS_SOURCE.into());
    let mut q = python("q", "pass", None);
    q.input_bindings = vec![BindingRef { param: "x".into(), source: "loop".into(), binding: "b".into() }];
    lp.body = vec![q];
    let program = compile_ok(&plan("x", vec![p0, lp]));
    assert_eq!(program.entry, vec!["plan_root".to_string()]);
    assert_eq!(input_text(find(&program, "q"), "x"), "${item}");
    assert!(validate_data_contract(&program).is_ok());
}

#[test]
fn a_task_path_holding_a_reference_breaks_the_input_node() {
    let mut lp = step("each", StepKind::Foreach);
    lp.over = Some(INPUTS_SOURCE.into());
    lp.body = vec![python("inner", "f(\"${item}\")", None)];
    let p = plan("x", vec![lp]);
    assert!(validate_plan(&p).is_ok());
    let mut t = task();
    t.inputs[0].path = "${secret}.csv".into();
    assert!(compile_plan(&p, &t, TaskId::new(), ProgramId::new()).is_err());
}
