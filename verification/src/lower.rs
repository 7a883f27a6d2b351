//! Deterministic lowering of a plan into a CIR program.
//!
//! Each step becomes one node whose id is the step name; a `foreach` becomes a
//! for-each loop over its compiled body, a `conditional` a conditional over
//! its compiled body whose condition names bindings directly (`${x}` becomes
//! `x`). Bodies are emitted before their parent, and a sequence
//! `plan_root` ties the top-level steps together. When some `foreach` iterates
//! over the task inputs, a compiler-generated `task_inputs` node first binds
//! the list of input paths as `input_files`.

use vstd::prelude::*;

use crate::compiler::{semantic_ends, semantic_s, structural_s, validate_cir_bounded};
use crate::contract::{data_contract_walk, ContractWalk};
use crate::cir::{caps_s, children_s, else_s, entry_s, err_is, first_missing, has_id, has_primitive};
use crate::cir::{effects_s, control_s, first_non_output, is_output_name, node_control_s, node_kind_s};
use crate::expr::{idents, parse_spec};
use crate::error::{compiler_error_text, CompilerError};
use crate::json::{json_string_array, to_json_string_array, JsonValue};
use crate::plan::{
    allowed_capability, bindings_s, check_output_s, element_type, element_ty, is_list_ty, is_list_type, item_view, join_scopes,
    list_source_s, lookup, lookup_scope, out_view, plan_valid, primitive_s, scope_view, unbound_name, v_step,
    v_steps, OutView, PlanIR, PlanStep, StepKind, StepOutput, BindingRef,
};
use crate::lowered::plain_paths;
use crate::refs::{unref_from, unref_text, views};
use crate::reach::{is_path, last_node, lemma_last_node, reach_s, reachable, step, succ_ids, orphans_upto, orphans};
use crate::text::{push_text, str_eq, string_of};
use crate::types::{
    clone_fields, fields_view, CirNode, CirNodeKind, CirProgram, ConditionSpec, ControlSpec,
    LoopKind, LoopSpec, OutputSpec, ProgramId, RetryPolicy, RetryStrategy, TaskId, TaskSpec,
};

verus! {

/// Failure to lower a plan. Reaching it from a valid plan is a compiler bug.
pub struct PlanCompileError {
    pub message: String,
}

impl PlanCompileError {
    /// "plan compiler internal error: {message}"
    pub fn to_text(&self) -> (r: String)
        ensures
            r@ == "plan compiler internal error: "@ + self.message@,
    {
        let mut m = string_of("plan compiler internal error: ");
        push_text(&mut m, self.message.as_str());
        m
    }
}

// ── Maps kept as ordered entry lists ───────────────────────────────────────

/// Index of the entry with key `k`, or -1.
pub open spec fn key_index<V>(m: Seq<(Seq<char>, V)>, k: Seq<char>) -> int
    decreases m.len(),
{
    if m.len() == 0 {
        -1
    } else if m.last().0 == k {
        m.len() - 1
    } else {
        key_index(m.drop_last(), k)
    }
}

/// Map insertion: an existing key keeps its place and takes the new value;
/// a new key goes last.
pub open spec fn put<V>(m: Seq<(Seq<char>, V)>, k: Seq<char>, v: V) -> Seq<(Seq<char>, V)> {
    let i = key_index(m, k);
    if 0 <= i < m.len() {
        m.update(i, (k, v))
    } else {
        m.push((k, v))
    }
}

/// Whether every input value is a JSON string.
pub open spec fn all_str(ins: Seq<(String, JsonValue)>) -> bool {
    forall|i: int| 0 <= i < ins.len() ==> (#[trigger] ins[i]).1 is Str
}

/// The keys and string values of an input list.
pub open spec fn str_view(ins: Seq<(String, JsonValue)>) -> Seq<(Seq<char>, Seq<char>)> {
    ins.map_values(|e: (String, JsonValue)| (e.0@, e.1->Str_0@))
}

pub open spec fn pairs_view(m: Seq<(String, String)>) -> Seq<(Seq<char>, Seq<char>)> {
    m.map_values(|e: (String, String)| (e.0@, e.1@))
}

pub open spec fn opt_view(o: Option<String>) -> Option<Seq<char>> {
    match o {
        Some(s) => Some(s@),
        None => None,
    }
}

// ── Lowering specification ─────────────────────────────────────────────────

/// A binding resolves among the siblings first, then the enclosing scope.
pub open spec fn resolve_b(name: Seq<char>, sib: Seq<OutView>, outer: Seq<OutView>) -> Option<OutView> {
    match lookup(sib, name) {
        Some(o) => Some(o),
        None => lookup(outer, name),
    }
}

/// The binding a step parameter reads: inside a foreach body, a reference to
/// the foreach step itself means the current element `item`.
pub open spec fn bound_name(b: BindingRef, item: Option<Seq<char>>) -> Seq<char> {
    if item is Some && b.source@ == item.unwrap() {
        "item"@
    } else {
        b.binding@
    }
}

/// The declared type of a parameter: a read of the loop item is `Any`, as
/// the item itself is; any other binding has its output's type.
pub open spec fn bound_type(b: BindingRef, item: Option<Seq<char>>, o: OutView) -> Seq<char> {
    if bound_name(b, item) == "item"@ {
        "Any"@
    } else {
        o.ty
    }
}

/// The inputs and declared input types after the parameter bindings `bs`.
pub open spec fn bind_fold(
    name: Seq<char>,
    bs: Seq<BindingRef>,
    ins: Seq<(Seq<char>, Seq<char>)>,
    tys: Seq<(Seq<char>, Seq<char>)>,
    sib: Seq<OutView>,
    outer: Seq<OutView>,
    item: Option<Seq<char>>,
) -> Result<(Seq<(Seq<char>, Seq<char>)>, Seq<(Seq<char>, Seq<char>)>), Seq<char>>
    decreases bs.len(),
{
    if bs.len() == 0 {
        Ok((ins, tys))
    } else {
        let b = bs[0];
        let ins2 = put(ins, b.param@, "${"@ + bound_name(b, item) + "}"@);
        match resolve_b(b.binding@, sib, outer) {
            None => Err("binding '"@ + b.binding@ + "' of '"@ + name + "' not in scope"@),
            Some(o) => bind_fold(
                name,
                bs.drop_first(),
                ins2,
                put(tys, b.param@, bound_type(b, item, o)),
                sib,
                outer,
                item,
            ),
        }
    }
}

/// The inputs a primitive step starts from: its code, and the write path of a
/// `write_file` step.
pub open spec fn base_inputs(step: PlanStep) -> Seq<(Seq<char>, Seq<char>)> {
    let a: Seq<(Seq<char>, Seq<char>)> = match step.code {
        Some(c) => put(seq![], "code"@, c@),
        None => seq![],
    };
    if opt_view(step.capability) == Some("write_file"@) {
        put(
            a,
            "path"@,
            match step.write_path {
                Some(p) => p@,
                None => seq![],
            },
        )
    } else {
        a
    }
}

pub open spec fn prim_maps(
    step: PlanStep,
    sib: Seq<OutView>,
    outer: Seq<OutView>,
    item: Option<Seq<char>>,
) -> Result<(Seq<(Seq<char>, Seq<char>)>, Seq<(Seq<char>, Seq<char>)>), Seq<char>> {
    bind_fold(step.name@, step.input_bindings@, base_inputs(step), seq![], sib, outer, item)
}

/// The list type a foreach iterates over.
pub open spec fn list_type_s(over: Seq<char>, name: Seq<char>, sib: Seq<OutView>, outer: Seq<OutView>) -> Result<
    Seq<char>,
    Seq<char>,
> {
    if over == "inputs"@ {
        Ok("List<String>"@)
    } else {
        match resolve_b(over, sib, outer) {
            None => Err("foreach '"@ + name + "': source '"@ + over + "' has no declared output"@),
            Some(o) => if !is_list_ty(o.ty) {
                Err(
                    "foreach '"@ + name + "': source '"@ + over + "' output type '"@ + o.ty
                        + "' is not a List"@,
                )
            } else {
                Ok(o.ty)
            },
        }
    }
}

/// The scope of a foreach body: the enclosing scope, the siblings, then the
/// item binding.
pub open spec fn body_outer(outer: Seq<OutView>, sib: Seq<OutView>, list_ty: Seq<char>) -> Seq<OutView> {
    (outer + sib).push(OutView { name: "item"@, ty: element_ty(list_ty), fields: seq![] })
}

/// The siblings after a step: primitive and foreach steps add their output.
pub open spec fn sib_after(step: PlanStep, sib: Seq<OutView>) -> Seq<OutView> {
    if step.kind != StepKind::Conditional && step.output is Some {
        sib.push(out_view(step.output.unwrap()))
    } else {
        sib
    }
}

/// Node ids a step list emits, bodies before parents.
pub open spec fn post_ids(steps: Seq<PlanStep>) -> Seq<Seq<char>>
    decreases steps, 0int,
{
    if steps.len() == 0 {
        seq![]
    } else {
        step_ids(steps[0]) + post_ids(steps.drop_first())
    }
}

pub open spec fn step_ids(step: PlanStep) -> Seq<Seq<char>>
    decreases step, 1int,
{
    if step.kind == StepKind::Foreach || step.kind == StepKind::Conditional {
        post_ids(step.body@) + seq![step.name@]
    } else {
        seq![step.name@]
    }
}

pub open spec fn top_ids(steps: Seq<PlanStep>) -> Seq<Seq<char>> {
    steps.map_values(|s: PlanStep| s.name@)
}

/// The first lowering error of a step list; `prior` are the ids emitted before.
pub open spec fn list_err(
    steps: Seq<PlanStep>,
    sib: Seq<OutView>,
    outer: Seq<OutView>,
    item: Option<Seq<char>>,
    prior: Seq<Seq<char>>,
) -> Option<Seq<char>>
    decreases steps, 0int,
{
    if steps.len() == 0 {
        None
    } else {
        match step_err(steps[0], sib, outer, item, prior) {
            Some(e) => Some(e),
            None => list_err(
                steps.drop_first(),
                sib_after(steps[0], sib),
                outer,
                item,
                prior + step_ids(steps[0]),
            ),
        }
    }
}

/// The lowering error of one step, if any.
pub open spec fn step_err(
    step: PlanStep,
    sib: Seq<OutView>,
    outer: Seq<OutView>,
    item: Option<Seq<char>>,
    prior: Seq<Seq<char>>,
) -> Option<Seq<char>>
    decreases step, 1int,
{
    let name = step.name@;
    match step.kind {
        StepKind::Primitive | StepKind::Retry => match prim_maps(step, sib, outer, item) {
            Err(e) => Some(e),
            Ok(_) => if step.kind == StepKind::Retry && step.retry is None {
                Some("retry step '"@ + name + "' missing policy"@)
            } else {
                None
            },
        },
        StepKind::Foreach => match step.over {
            None => Some("foreach step '"@ + name + "' missing over"@),
            Some(over) => match list_type_s(over@, name, sib, outer) {
                Err(e) => Some(e),
                Ok(lt) => match list_err(
                    step.body@,
                    seq![],
                    body_outer(outer, sib, lt),
                    Some(name),
                    prior,
                ) {
                    Some(e) => Some(e),
                    None => if over@ == "inputs"@ && !(prior + post_ids(step.body@)).contains(
                        "task_inputs"@,
                    ) {
                        Some("internal: input injector missing for foreach over 'inputs'"@)
                    } else {
                        None
                    },
                },
            },
        },
        StepKind::Conditional => match step.condition {
            None => Some("conditional step '"@ + name + "' missing condition"@),
            Some(_) => list_err(step.body@, seq![], outer + sib, None, prior),
        },
    }
}

/// An emitted output copies a step's declared output.
pub open spec fn out_matches(o: Option<OutputSpec>, so: Option<StepOutput>) -> bool {
    match (o, so) {
        (None, None) => true,
        (Some(x), Some(y)) => x.name@ == y.name@ && x.type_label@ == y.type_label@ && fields_view(
            x.fields@,
        ) == fields_view(y.fields@),
        _ => false,
    }
}

/// The node a primitive or retry step lowers to.
pub open spec fn prim_node_ok(
    step: PlanStep,
    sib: Seq<OutView>,
    outer: Seq<OutView>,
    item: Option<Seq<char>>,
    n: CirNode,
) -> bool {
    match prim_maps(step, sib, outer, item) {
        Ok(m) => {
            &&& n.kind == CirNodeKind::PrimitiveInvocation
            &&& n.node_id@ == step.name@
            &&& opt_view(n.capability) == opt_view(step.capability)
            &&& out_matches(n.output, step.output)
            &&& pairs_view(n.input_types@) == m.1
            &&& n.children@.len() == 0
            &&& n.else_children@.len() == 0
            &&& all_str(n.inputs@)
            &&& str_view(n.inputs@) == m.0
            &&& if step.kind == StepKind::Retry {
                retry_control(n.control, step.retry.unwrap().max_attempts)
            } else {
                n.control is None
            }
        },
        Err(_) => false,
    }
}

/// The `input` reference of a foreach loop.
pub open spec fn loop_input_s(over: Seq<char>) -> Seq<char> {
    if over == "inputs"@ {
        "${input_files}"@
    } else {
        "${"@ + over + "}"@
    }
}

/// The loop node a foreach step lowers to.
pub open spec fn loop_node_ok(step: PlanStep, n: CirNode) -> bool {
    &&& n.kind == CirNodeKind::LoopMap
    &&& n.node_id@ == step.name@
    &&& n.capability is None
    &&& out_matches(n.output, step.output)
    &&& n.input_types@.len() == 0
    &&& views(n.children@) == top_ids(step.body@)
    &&& n.else_children@.len() == 0
    &&& n.inputs@.len() == 0
    &&& n.control is Some
    &&& n.control.unwrap().condition is None
    &&& n.control.unwrap().retry is None
    &&& n.control.unwrap().loop_spec is Some
    &&& foreach_spec(n.control.unwrap().loop_spec.unwrap(), loop_input_s(step.over.unwrap()@))
}

/// A for-each loop over `input` with the item variable `item`.
pub open spec fn foreach_spec(ls: LoopSpec, input: Seq<char>) -> bool {
    &&& ls.kind == LoopKind::ForEach
    &&& ls.condition is None
    &&& ls.max_iterations is None
    &&& opt_view(ls.input) == Some(input)
    &&& opt_view(ls.item_var) == Some("item"@)
}

/// Retry control with `max` attempts, a fixed 100 ms backoff and no failure
/// classes listed.
pub open spec fn retry_control(c: Option<ControlSpec>, max: u32) -> bool {
    &&& c is Some
    &&& c.unwrap().condition is None
    &&& c.unwrap().loop_spec is None
    &&& c.unwrap().retry is Some
    &&& c.unwrap().retry.unwrap().max_attempts == max
    &&& c.unwrap().retry.unwrap().backoff_ms == 100
    &&& c.unwrap().retry.unwrap().strategy == RetryStrategy::Fixed
    &&& c.unwrap().retry.unwrap().retry_on@.len() == 0
}

/// The conditional node a conditional step lowers to: its condition is the
/// step's, with each `${name}` written as the bare `name`.
pub open spec fn cond_node_ok(step: PlanStep, n: CirNode) -> bool {
    &&& n.kind == CirNodeKind::Conditional
    &&& n.node_id@ == step.name@
    &&& n.capability is None
    &&& n.output is None
    &&& n.input_types@.len() == 0
    &&& views(n.children@) == top_ids(step.body@)
    &&& n.else_children@.len() == 0
    &&& n.inputs@.len() == 0
    &&& n.control is Some
    &&& n.control.unwrap().loop_spec is None
    &&& n.control.unwrap().retry is None
    &&& n.control.unwrap().condition is Some
    &&& n.control.unwrap().condition.unwrap().expression@ == unref_from(step.condition.unwrap()@, 0)
}

/// `seg` is what a step list lowers to.
pub open spec fn lowered_list(
    steps: Seq<PlanStep>,
    sib: Seq<OutView>,
    outer: Seq<OutView>,
    item: Option<Seq<char>>,
    seg: Seq<CirNode>,
) -> bool
    decreases steps, 0int,
{
    if steps.len() == 0 {
        seg.len() == 0
    } else {
        let m = step_ids(steps[0]).len() as int;
        &&& m <= seg.len()
        &&& lowered_step(steps[0], sib, outer, item, seg.take(m))
        &&& lowered_list(steps.drop_first(), sib_after(steps[0], sib), outer, item, seg.skip(m))
    }
}

/// `seg` is what a step lowers to: its body's nodes, then its own node.
pub open spec fn lowered_step(
    step: PlanStep,
    sib: Seq<OutView>,
    outer: Seq<OutView>,
    item: Option<Seq<char>>,
    seg: Seq<CirNode>,
) -> bool
    decreases step, 1int,
{
    &&& seg.len() == step_ids(step).len()
    &&& seg.len() >= 1
    &&& match step.kind {
        StepKind::Primitive | StepKind::Retry => prim_node_ok(step, sib, outer, item, seg[0]),
        StepKind::Foreach => {
            let lt = list_type_s(step.over.unwrap()@, step.name@, sib, outer)->Ok_0;
            &&& lowered_list(
                step.body@,
                seq![],
                body_outer(outer, sib, lt),
                Some(step.name@),
                seg.drop_last(),
            )
            &&& loop_node_ok(step, seg.last())
        },
        StepKind::Conditional => {
            &&& lowered_list(step.body@, seq![], outer + sib, None, seg.drop_last())
            &&& cond_node_ok(step, seg.last())
        },
    }
}

/// Whether some (nested) foreach iterates over the task inputs.
pub open spec fn uses_inputs(steps: Seq<PlanStep>) -> bool
    decreases steps, 0int,
{
    if steps.len() == 0 {
        false
    } else {
        step_uses_inputs(steps[0]) || uses_inputs(steps.drop_first())
    }
}

pub open spec fn step_uses_inputs(s: PlanStep) -> bool
    decreases s, 1int,
{
    (s.kind == StepKind::Foreach && opt_view(s.over) == Some("inputs"@)) || uses_inputs(s.body@)
}

pub open spec fn task_paths(task: TaskSpec) -> Seq<Seq<char>> {
    task.inputs@.map_values(|i: crate::types::TaskInput| i.path@)
}

/// The compiler-generated node that binds the task's input paths.
pub open spec fn injector_ok(n: CirNode, task: TaskSpec) -> bool {
    &&& n.kind == CirNodeKind::PrimitiveInvocation
    &&& n.node_id@ == "task_inputs"@
    &&& opt_view(n.capability) == Some("execute_python"@)
    &&& n.output matches Some(o) && o.name@ == "input_files"@ && o.type_label@ == "List<String>"@
        && o.fields@.len() == 0
    &&& n.input_types@.len() == 0
    &&& n.children@.len() == 0
    &&& n.else_children@.len() == 0
    &&& all_str(n.inputs@)
    &&& str_view(n.inputs@) == seq![
        (
            "code"@,
            "import json\nprint(json.dumps("@ + json_string_array(task_paths(task)) + "))\n"@,
        ),
    ]
    &&& n.control is None
}

/// Ids emitted before the plan's steps.
pub open spec fn plan_prefix(plan: PlanIR) -> Seq<Seq<char>> {
    if uses_inputs(plan.steps@) {
        seq!["task_inputs"@]
    } else {
        seq![]
    }
}

/// The first lowering error of a plan.
pub open spec fn plan_lower_err(plan: PlanIR) -> Option<Seq<char>> {
    list_err(plan.steps@, seq![], seq![], None, plan_prefix(plan))
}

/// `p` is the program a plan lowers to.
pub open spec fn plan_program(
    plan: PlanIR,
    task: TaskSpec,
    task_id: TaskId,
    program_id: ProgramId,
    p: CirProgram,
) -> bool {
    let pre = plan_prefix(plan).len() as int;
    let n = p.nodes@.len() as int;
    &&& p.id == program_id
    &&& p.task_id == task_id
    &&& views(p.entry@) == seq!["plan_root"@]
    &&& p.effects@.len() == 0
    &&& n == pre + post_ids(plan.steps@).len() + 1
    &&& (pre == 1 ==> injector_ok(p.nodes@[0], task))
    &&& lowered_list(plan.steps@, seq![], seq![], None, p.nodes@.subrange(pre, n - 1))
    &&& {
        let root = p.nodes@[n - 1];
        &&& root.kind == CirNodeKind::Sequence
        &&& root.node_id@ == "plan_root"@
        &&& root.capability is None
        &&& root.output is None
        &&& root.input_types@.len() == 0
        &&& views(root.children@) == plan_prefix(plan) + top_ids(plan.steps@)
        &&& root.else_children@.len() == 0
        &&& root.inputs@.len() == 0
        &&& root.control is None
    }
}

// ── Executable lowering ────────────────────────────────────────────────────

fn put_input(m: &mut Vec<(String, JsonValue)>, k: String, v: String)
    requires
        all_str(old(m)@),
    ensures
        all_str(final(m)@),
        str_view(final(m)@) == put(str_view(old(m)@), k@, v@),
{
    let ghost sv = str_view(m@);
    let mut i: usize = m.len();
    assert(sv.take(i as int) =~= sv);
    while i > 0
        invariant
            i <= m@.len(),
            m@ == old(m)@,
            all_str(m@),
            sv == str_view(m@),
            sv.len() == m@.len(),
            key_index(sv, k@) == key_index(sv.take(i as int), k@),
        decreases i,
    {
        assert(sv.take(i as int).drop_last() =~= sv.take(i - 1));
        if str_eq(m[i - 1].0.as_str(), k.as_str()) {
            assert(sv.take(i as int).last().0 == k@);
            assert(key_index(sv, k@) == i - 1);
            m.set(i - 1, (k, JsonValue::Str(v)));
            assert(str_view(m@) =~= sv.update(i - 1, (k@, v@)));
            assert(all_str(m@));
            return;
        }
        i = i - 1;
    }
    assert(sv.take(0) =~= seq![]);
    m.push((k, JsonValue::Str(v)));
    assert(str_view(m@) =~= sv.push((k@, v@)));
    assert(all_str(m@));
}

fn put_type(m: &mut Vec<(String, String)>, k: String, v: String)
    ensures
        pairs_view(final(m)@) == put(pairs_view(old(m)@), k@, v@),
{
    let ghost sv = pairs_view(m@);
    let mut i: usize = m.len();
    assert(sv.take(i as int) =~= sv);
    while i > 0
        invariant
            i <= m@.len(),
            m@ == old(m)@,
            sv == pairs_view(m@),
            sv.len() == m@.len(),
            key_index(sv, k@) == key_index(sv.take(i as int), k@),
        decreases i,
    {
        assert(sv.take(i as int).drop_last() =~= sv.take(i - 1));
        if str_eq(m[i - 1].0.as_str(), k.as_str()) {
            assert(sv.take(i as int).last().0 == k@);
            assert(key_index(sv, k@) == i - 1);
            m.set(i - 1, (k, v));
            assert(pairs_view(m@) =~= sv.update(i - 1, (k@, v@)));
            return;
        }
        i = i - 1;
    }
    assert(sv.take(0) =~= seq![]);
    m.push((k, v));
    assert(pairs_view(m@) =~= sv.push((k@, v@)));
}

fn opt_string(o: &Option<String>) -> (r: Option<String>)
    ensures
        opt_view(r) == opt_view(*o),
{
    match o {
        Some(s) => Some(s.clone()),
        None => None,
    }
}

fn copy_output(o: &Option<StepOutput>) -> (r: Option<OutputSpec>)
    ensures
        out_matches(r, *o),
{
    match o {
        Some(x) => Some(
            OutputSpec {
                name: x.name.clone(),
                type_label: x.type_label.clone(),
                fields: clone_fields(&x.fields),
            },
        ),
        None => None,
    }
}

/// `sc` with `o` appended (a map insertion; later entries win on lookup).
fn with_output<'b>(sc: &mut Vec<&'b StepOutput>, o: &'b Option<StepOutput>)
    ensures
        scope_view(final(sc)@) == match *o {
            Some(x) => scope_view(old(sc)@).push(out_view(x)),
            None => scope_view(old(sc)@),
        },
{
    match o {
        Some(x) => {
            let ghost before = sc@;
            sc.push(x);
            assert(scope_view(sc@) =~= scope_view(before).push(out_view(*x)));
        },
        None => {},
    }
}

fn resolve_binding<'b>(name: &str, sib: &Vec<&'b StepOutput>, outer: &Vec<&'b StepOutput>) -> (r:
    Option<&'b StepOutput>)
    ensures
        match resolve_b(name@, scope_view(sib@), scope_view(outer@)) {
            None => r is None,
            Some(o) => r is Some && out_view(*r.unwrap()) == o,
        },
{
    match lookup_scope(sib, name) {
        Some(o) => Some(o),
        None => lookup_scope(outer, name),
    }
}

fn wrap_ref(name: &str) -> (r: String)
    ensures
        r@ == "${"@ + name@ + "}"@,
{
    let mut s = string_of("${");
    push_text(&mut s, name);
    push_text(&mut s, "}");
    s
}

pub fn node_ids_contain(nodes: &Vec<CirNode>, id: &str) -> (b: bool)
    ensures
        b == nodes@.map_values(|n: CirNode| n.node_id@).contains(id@),
{
    let ghost ids = nodes@.map_values(|n: CirNode| n.node_id@);
    let mut i: usize = 0;
    while i < nodes.len()
        invariant
            i <= nodes@.len(),
            ids == nodes@.map_values(|n: CirNode| n.node_id@),
            forall|k: int| 0 <= k < i ==> ids[k] != id@,
        decreases nodes@.len() - i,
    {
        if str_eq(nodes[i].node_id.as_str(), id) {
            assert(ids[i as int] == id@);
            return true;
        }
        i = i + 1;
    }
    false
}

pub open spec fn node_ids(nodes: Seq<CirNode>) -> Seq<Seq<char>> {
    nodes.map_values(|n: CirNode| n.node_id@)
}

/// Lowers a primitive or retry step to one node.
fn compile_primitive<'a>(
    step: &'a PlanStep,
    nodes: &mut Vec<CirNode>,
    sib: &mut Vec<&'a StepOutput>,
    outer: &Vec<&'a StepOutput>,
    item: Option<&str>,
) -> (r: Result<String, PlanCompileError>)
    requires
        step.kind == StepKind::Primitive || step.kind == StepKind::Retry,
    ensures
        match step_err(*step, scope_view(old(sib)@), scope_view(outer@), opt_str(item), node_ids(old(nodes)@)) {
            Some(e) => r is Err && r->Err_0.message@ == e,
            None => {
                &&& r is Ok
                &&& r->Ok_0@ == step.name@
                &&& final(nodes)@.len() == old(nodes)@.len() + 1
                &&& final(nodes)@.take(old(nodes)@.len() as int) == old(nodes)@
                &&& lowered_step(
                    *step,
                    scope_view(old(sib)@),
                    scope_view(outer@),
                    opt_str(item),
                    final(nodes)@.skip(old(nodes)@.len() as int),
                )
                &&& scope_view(final(sib)@) == sib_after(*step, scope_view(old(sib)@))
            },
        },
{
    let ghost sv = scope_view(sib@);
    let ghost ov = scope_view(outer@);
    let mut inputs: Vec<(String, JsonValue)> = Vec::new();
    let mut types: Vec<(String, String)> = Vec::new();
    assert(str_view(inputs@) =~= seq![]);
    assert(pairs_view(types@) =~= seq![]);
    match &step.code {
        Some(c) => put_input(&mut inputs, string_of("code"), c.clone()),
        None => {},
    }
    let is_write = match &step.capability {
        Some(c) => str_eq(c.as_str(), "write_file"),
        None => false,
    };
    if is_write {
        let p = match &step.write_path {
            Some(p) => p.clone(),
            None => String::new(),
        };
        proof {
            assert(p@ == match step.write_path {
                Some(w) => w@,
                None => seq![],
            });
        }
        put_input(&mut inputs, string_of("path"), p);
    }
    assert(str_view(inputs@) == base_inputs(*step));
    let bs = &step.input_bindings;
    let mut i: usize = 0;
    assert(bs@.skip(0) =~= bs@);
    while i < bs.len()
        invariant
            i <= bs@.len(),
            bs@ == step.input_bindings@,
            step.kind == StepKind::Primitive || step.kind == StepKind::Retry,
            sib@ == old(sib)@,
            nodes@ == old(nodes)@,
            sv == scope_view(sib@),
            ov == scope_view(outer@),
            all_str(inputs@),
            prim_maps(*step, sv, ov, opt_str(item)) == bind_fold(
                step.name@,
                bs@.skip(i as int),
                str_view(inputs@),
                pairs_view(types@),
                sv,
                ov,
                opt_str(item),
            ),
        decreases bs@.len() - i,
    {
        let b = &bs[i];
        assert(bs@.skip(i as int)[0] == bs@[i as int]);
        assert(bs@.skip(i as int).drop_first() =~= bs@.skip(i + 1));
        let inside = match item {
            Some(it) => str_eq(b.source.as_str(), it),
            None => false,
        };
        let target = if inside {
            string_of("item")
        } else {
            b.binding.clone()
        };
        assert(target@ == bound_name(*b, opt_str(item)));
        let ghost old_inputs = inputs@;
        put_input(&mut inputs, b.param.clone(), wrap_ref(target.as_str()));
        match resolve_binding(b.binding.as_str(), sib, outer) {
            None => {
                assert(resolve_b(b.binding@, sv, ov) is None);
                assert(bind_fold(
                    step.name@,
                    bs@.skip(i as int),
                    str_view(old_inputs),
                    pairs_view(types@),
                    sv,
                    ov,
                    opt_str(item),
                ) is Err);
                assert(prim_maps(*step, sv, ov, opt_str(item)) is Err);
                let mut m = string_of("binding '");
                push_text(&mut m, b.binding.as_str());
                push_text(&mut m, "' of '");
                push_text(&mut m, step.name.as_str());
                push_text(&mut m, "' not in scope");
                return Err(PlanCompileError { message: m });
            },
            Some(o) => {
                if str_eq(target.as_str(), "item") {
                    put_type(&mut types, b.param.clone(), string_of("Any"));
                } else {
                    put_type(&mut types, b.param.clone(), o.type_label.clone());
                }
            },
        }
        i = i + 1;
    }
    assert(bs@.skip(bs@.len() as int) =~= seq![]);
    let control = if step.kind == StepKind::Retry {
        match &step.retry {
            None => {
                let mut m = string_of("retry step '");
                push_text(&mut m, step.name.as_str());
                push_text(&mut m, "' missing policy");
                return Err(PlanCompileError { message: m });
            },
            Some(r) => Some(
                ControlSpec {
                    condition: None,
                    loop_spec: None,
                    retry: Some(
                        RetryPolicy {
                            max_attempts: r.max_attempts,
                            backoff_ms: 100,
                            strategy: RetryStrategy::Fixed,
                            retry_on: Vec::new(),
                        },
                    ),
                },
            ),
        }
    } else {
        None
    };
    let node = CirNode {
        kind: CirNodeKind::PrimitiveInvocation,
        node_id: step.name.clone(),
        capability: opt_string(&step.capability),
        output: copy_output(&step.output),
        input_types: types,
        children: Vec::new(),
        else_children: Vec::new(),
        inputs,
        control,
    };
    let ghost old_nodes = nodes@;
    nodes.push(node);
    assert(nodes@.take(old_nodes.len() as int) =~= old_nodes);
    assert(nodes@.skip(old_nodes.len() as int) =~= seq![node]);
    with_output(sib, &step.output);
    Ok(step.name.clone())
}

pub open spec fn opt_str(o: Option<&str>) -> Option<Seq<char>> {
    match o {
        Some(s) => Some(s@),
        None => None,
    }
}


/// The siblings after a step list.
pub open spec fn sibs_after(steps: Seq<PlanStep>, sib: Seq<OutView>) -> Seq<OutView>
    decreases steps.len(),
{
    if steps.len() == 0 {
        sib
    } else {
        sibs_after(steps.drop_first(), sib_after(steps[0], sib))
    }
}

/// What lowering one step did, given its result.
pub open spec fn step_ok(
    r: Result<String, PlanCompileError>,
    step: PlanStep,
    n0: Seq<CirNode>,
    n1: Seq<CirNode>,
    s0: Seq<OutView>,
    s1: Seq<OutView>,
    ov: Seq<OutView>,
    item: Option<Seq<char>>,
) -> bool {
    match step_err(step, s0, ov, item, node_ids(n0)) {
        Some(e) => r is Err && r->Err_0.message@ == e,
        None => {
            &&& r is Ok
            &&& r->Ok_0@ == step.name@
            &&& n1.len() == n0.len() + step_ids(step).len()
            &&& n1.take(n0.len() as int) == n0
            &&& lowered_step(step, s0, ov, item, n1.skip(n0.len() as int))
            &&& node_ids(n1) == node_ids(n0) + step_ids(step)
            &&& s1 == sib_after(step, s0)
        },
    }
}

/// What lowering a step list did, given its result.
pub open spec fn list_ok(
    r: Result<(), PlanCompileError>,
    steps: Seq<PlanStep>,
    n0: Seq<CirNode>,
    n1: Seq<CirNode>,
    s0: Seq<OutView>,
    s1: Seq<OutView>,
    ov: Seq<OutView>,
    item: Option<Seq<char>>,
    i0: Seq<Seq<char>>,
    i1: Seq<Seq<char>>,
) -> bool {
    match list_err(steps, s0, ov, item, node_ids(n0)) {
        Some(e) => r is Err && r->Err_0.message@ == e,
        None => {
            &&& r is Ok
            &&& n1.len() == n0.len() + post_ids(steps).len()
            &&& n1.take(n0.len() as int) == n0
            &&& lowered_list(steps, s0, ov, item, n1.skip(n0.len() as int))
            &&& node_ids(n1) == node_ids(n0) + post_ids(steps)
            &&& s1 == sibs_after(steps, s0)
            &&& i1 == i0 + top_ids(steps)
        },
    }
}

/// Lowers the steps `steps[i..]`, appending their nodes and their ids.
fn compile_steps_from<'a>(
    steps: &'a Vec<PlanStep>,
    i: usize,
    nodes: &mut Vec<CirNode>,
    sib: &mut Vec<&'a StepOutput>,
    outer: &Vec<&'a StepOutput>,
    item: Option<&str>,
    ids: &mut Vec<String>,
) -> (r: Result<(), PlanCompileError>)
    requires
        i <= steps@.len(),
    ensures
        list_ok(
            r,
            steps@.skip(i as int),
            old(nodes)@,
            final(nodes)@,
            scope_view(old(sib)@),
            scope_view(final(sib)@),
            scope_view(outer@),
            opt_str(item),
            views(old(ids)@),
            views(final(ids)@),
        ),
    decreases steps@, 0int, steps@.len() - i,
{
    if i == steps.len() {
        assert(steps@.skip(i as int) =~= seq![]);
        assert(nodes@.take(nodes@.len() as int) =~= nodes@);
        assert(nodes@.skip(nodes@.len() as int) =~= seq![]);
        assert(node_ids(nodes@) + seq![] =~= node_ids(nodes@));
        assert(views(ids@) + top_ids(seq![]) =~= views(ids@));
        return Ok(());
    }
    let ghost n0 = nodes@;
    let ghost s0 = scope_view(sib@);
    let ghost i0 = views(ids@);
    let ghost rest = steps@.skip(i + 1);
    assert(steps@.skip(i as int)[0] == steps@[i as int]);
    assert(steps@.skip(i as int).drop_first() =~= rest);
    let id = match compile_step(&steps[i], nodes, sib, outer, item) {
        Err(e) => {
            return Err(e);
        },
        Ok(id) => id,
    };
    let ghost n_mid = nodes@;
    let ghost s_mid = scope_view(sib@);
    ids.push(id);
    let ghost i_mid = views(ids@);
    assert(i_mid =~= i0.push(steps@[i as int].name@));
    let r = compile_steps_from(steps, i + 1, nodes, sib, outer, item, ids);
    proof {
        let step = steps@[i as int];
        let m = step_ids(step).len() as int;
        if r is Ok {
            let n1 = nodes@;
            let seg = n1.skip(n0.len() as int);
            assert(n1.take(n0.len() as int) =~= n0) by {
                assert(n1.take(n_mid.len() as int) == n_mid);
                assert(n_mid.take(n0.len() as int) == n0);
            }
            assert(seg.take(m) =~= n_mid.skip(n0.len() as int));
            assert(seg.skip(m) =~= n1.skip(n_mid.len() as int));
            assert(node_ids(n1) =~= node_ids(n0) + post_ids(steps@.skip(i as int)));
            assert(top_ids(steps@.skip(i as int)) =~= seq![step.name@] + top_ids(rest));
            assert(views(ids@) =~= i0 + top_ids(steps@.skip(i as int)));
        }
    }
    r
}

/// Lowers one step (recursively for its body).
fn compile_step<'a>(
    step: &'a PlanStep,
    nodes: &mut Vec<CirNode>,
    sib: &mut Vec<&'a StepOutput>,
    outer: &Vec<&'a StepOutput>,
    item: Option<&str>,
) -> (r: Result<String, PlanCompileError>)
    ensures
        step_ok(
            r,
            *step,
            old(nodes)@,
            final(nodes)@,
            scope_view(old(sib)@),
            scope_view(final(sib)@),
            scope_view(outer@),
            opt_str(item),
        ),
    decreases *step, 1int, 1int,
{
    match step.kind {
        StepKind::Primitive | StepKind::Retry => {
            let ghost n0 = nodes@;
            let r = compile_primitive(step, nodes, sib, outer, item);
            proof {
                if r is Ok {
                    let seg = nodes@.skip(n0.len() as int);
                    assert(seg.len() == 1);
                    assert(node_ids(nodes@) =~= node_ids(n0) + seq![step.name@]) by {
                        assert(nodes@[n0.len() as int] == seg[0]);
                    }
                }
            }
            r
        },
        StepKind::Foreach => compile_foreach(step, nodes, sib, outer),
        StepKind::Conditional => compile_conditional(step, nodes, sib, outer),
    }
}

/// Lowers a foreach step to a loop over its compiled body.
fn compile_foreach<'a>(
    step: &'a PlanStep,
    nodes: &mut Vec<CirNode>,
    sib: &mut Vec<&'a StepOutput>,
    outer: &Vec<&'a StepOutput>,
) -> (r: Result<String, PlanCompileError>)
    requires
        step.kind == StepKind::Foreach,
    ensures
        forall|item: Option<Seq<char>>|
            step_ok(
                r,
                *step,
                old(nodes)@,
                final(nodes)@,
                scope_view(old(sib)@),
                scope_view(final(sib)@),
                scope_view(outer@),
                item,
            ),
    decreases *step, 1int, 0int,
{
    let ghost n0 = nodes@;
    let ghost s0 = scope_view(sib@);
    let ghost ov = scope_view(outer@);
    let name = step.name.as_str();
    let over = match &step.over {
        None => {
            let mut m = string_of("foreach step '");
            push_text(&mut m, name);
            push_text(&mut m, "' missing over");
            return Err(PlanCompileError { message: m });
        },
        Some(o) => o.as_str(),
    };
    let list_type = if str_eq(over, "inputs") {
        string_of("List<String>")
    } else {
        match resolve_binding(over, sib, outer) {
            None => {
                let mut m = string_of("foreach '");
                push_text(&mut m, name);
                push_text(&mut m, "': source '");
                push_text(&mut m, over);
                push_text(&mut m, "' has no declared output");
                return Err(PlanCompileError { message: m });
            },
            Some(o) => {
                if !is_list_type(o.type_label.as_str()) {
                    let mut m = string_of("foreach '");
                    push_text(&mut m, name);
                    push_text(&mut m, "': source '");
                    push_text(&mut m, over);
                    push_text(&mut m, "' output type '");
                    push_text(&mut m, o.type_label.as_str());
                    push_text(&mut m, "' is not a List");
                    return Err(PlanCompileError { message: m });
                }
                o.type_label.clone()
            },
        }
    };
    assert(list_type_s(over@, name@, s0, ov) == Ok::<Seq<char>, Seq<char>>(list_type@));
    let item_out = StepOutput {
        name: string_of("item"),
        type_label: element_type(list_type.as_str()),
        fields: Vec::new(),
    };
    assert(fields_view(item_out.fields@) =~= seq![]);
    let mut inner = join_scopes(outer, sib);
    let ghost bo = scope_view(inner@);
    inner.push(&item_out);
    assert(scope_view(inner@) =~= bo.push(out_view(item_out)));
    assert(scope_view(inner@) == body_outer(ov, s0, list_type@));
    let mut body_sib: Vec<&StepOutput> = Vec::new();
    let mut child_ids: Vec<String> = Vec::new();
    assert(scope_view(body_sib@) =~= seq![]);
    assert(views(child_ids@) =~= seq![]);
    proof {
        assert(decreases_to!(*step => step.body));
    }
    assert(step.body@.skip(0) =~= step.body@);
    let c = compile_steps_from(&step.body, 0, nodes, &mut body_sib, &inner, Some(name), &mut child_ids);
    if c.is_err() {
        return Err(c.unwrap_err());
    }
    let loop_input = if str_eq(over, "inputs") {
        if !node_ids_contain(nodes, "task_inputs") {
            return Err(
                PlanCompileError {
                    message: string_of("internal: input injector missing for foreach over 'inputs'"),
                },
            );
        }
        string_of("${input_files}")
    } else {
        wrap_ref(over)
    };
    let node = CirNode {
        kind: CirNodeKind::LoopMap,
        node_id: step.name.clone(),
        capability: None,
        output: copy_output(&step.output),
        input_types: Vec::new(),
        children: child_ids,
        else_children: Vec::new(),
        inputs: Vec::new(),
        control: Some(
            ControlSpec {
                condition: None,
                loop_spec: Some(
                    LoopSpec {
                        kind: LoopKind::ForEach,
                        condition: None,
                        max_iterations: None,
                        input: Some(loop_input),
                        item_var: Some(string_of("item")),
                    },
                ),
                retry: None,
            },
        ),
    };
    let ghost n_mid = nodes@;
    nodes.push(node);
    with_output(sib, &step.output);
    proof {
        let n1 = nodes@;
        let seg = n1.skip(n0.len() as int);
        assert(views(node.children@) == top_ids(step.body@));
        assert(loop_node_ok(*step, node));
        assert(seg.drop_last() =~= n_mid.skip(n0.len() as int));
        assert(seg.last() == node);
        assert(n1.take(n0.len() as int) =~= n0) by {
            assert(n_mid.take(n0.len() as int) == n0);
        }
        assert(node_ids(n1) =~= node_ids(n_mid).push(step.name@));
        assert(node_ids(n1) =~= node_ids(n0) + step_ids(*step));
    }
    Ok(step.name.clone())
}

/// Lowers a conditional step to a conditional over its compiled body; each
/// `${name}` of its condition becomes the bare binding name.
fn compile_conditional<'a>(
    step: &'a PlanStep,
    nodes: &mut Vec<CirNode>,
    sib: &mut Vec<&'a StepOutput>,
    outer: &Vec<&'a StepOutput>,
) -> (r: Result<String, PlanCompileError>)
    requires
        step.kind == StepKind::Conditional,
    ensures
        forall|item: Option<Seq<char>>|
            step_ok(
                r,
                *step,
                old(nodes)@,
                final(nodes)@,
                scope_view(old(sib)@),
                scope_view(final(sib)@),
                scope_view(outer@),
                item,
            ),
    decreases *step, 1int, 0int,
{
    let ghost n0 = nodes@;
    let cond = match &step.condition {
        None => {
            let mut m = string_of("conditional step '");
            push_text(&mut m, step.name.as_str());
            push_text(&mut m, "' missing condition");
            return Err(PlanCompileError { message: m });
        },
        Some(c) => unref_text(c.as_str()),
    };
    let inner = join_scopes(outer, sib);
    let mut body_sib: Vec<&StepOutput> = Vec::new();
    let mut child_ids: Vec<String> = Vec::new();
    assert(scope_view(body_sib@) =~= seq![]);
    assert(views(child_ids@) =~= seq![]);
    proof {
        assert(decreases_to!(*step => step.body));
    }
    assert(step.body@.skip(0) =~= step.body@);
    let c = compile_steps_from(&step.body, 0, nodes, &mut body_sib, &inner, None, &mut child_ids);
    if c.is_err() {
        return Err(c.unwrap_err());
    }
    let node = CirNode {
        kind: CirNodeKind::Conditional,
        node_id: step.name.clone(),
        capability: None,
        output: None,
        input_types: Vec::new(),
        children: child_ids,
        else_children: Vec::new(),
        inputs: Vec::new(),
        control: Some(
            ControlSpec {
                condition: Some(ConditionSpec { expression: cond }),
                loop_spec: None,
                retry: None,
            },
        ),
    };
    let ghost n_mid = nodes@;
    nodes.push(node);
    proof {
        let n1 = nodes@;
        let seg = n1.skip(n0.len() as int);
        assert(cond_node_ok(*step, node));
        assert(seg.drop_last() =~= n_mid.skip(n0.len() as int));
        assert(seg.last() == node);
        assert(n1.take(n0.len() as int) =~= n0) by {
            assert(n_mid.take(n0.len() as int) == n0);
        }
        assert(node_ids(n1) =~= node_ids(n_mid).push(step.name@));
        assert(node_ids(n1) =~= node_ids(n0) + step_ids(*step));
    }
    Ok(step.name.clone())
}


/// Whether some (nested) foreach step iterates over the task inputs.
pub fn steps_use_inputs(steps: &Vec<PlanStep>) -> (b: bool)
    ensures
        b == uses_inputs(steps@),
    decreases steps@,
{
    let mut i: usize = 0;
    assert(steps@.skip(0) =~= steps@);
    while i < steps.len()
        invariant
            i <= steps@.len(),
            uses_inputs(steps@) == uses_inputs(steps@.skip(i as int)),
        decreases steps@.len() - i,
    {
        let s = &steps[i];
        assert(steps@.skip(i as int)[0] == steps@[i as int]);
        assert(steps@.skip(i as int).drop_first() =~= steps@.skip(i + 1));
        let over_inputs = match &s.over {
            Some(o) => str_eq(o.as_str(), "inputs"),
            None => false,
        };
        if s.kind == StepKind::Foreach && over_inputs {
            assert(step_uses_inputs(steps@[i as int]));
            assert(uses_inputs(steps@.skip(i as int)));
            return true;
        }
        proof {
            assert(decreases_to!(steps@ => steps@[i as int]));
            assert(decreases_to!(steps@[i as int] => steps@[i as int].body));
        }
        if steps_use_inputs(&s.body) {
            assert(step_uses_inputs(steps@[i as int]));
            assert(uses_inputs(steps@.skip(i as int)));
            return true;
        }
        assert(!step_uses_inputs(steps@[i as int]));
        i = i + 1;
    }
    assert(steps@.skip(i as int) =~= seq![]);
    false
}

/// Whether any (nested) step of the plan iterates over the task inputs.
pub fn plan_uses_inputs(plan: &PlanIR) -> (b: bool)
    ensures
        b == uses_inputs(plan.steps@),
{
    steps_use_inputs(&plan.steps)
}

/// The compiler-generated node that binds the task's input paths as the list
/// `input_files`.
fn input_injector(task: &TaskSpec) -> (n: CirNode)
    ensures
        injector_ok(n, *task),
{
    let mut paths: Vec<String> = Vec::new();
    let mut i: usize = 0;
    while i < task.inputs.len()
        invariant
            i <= task.inputs@.len(),
            views(paths@) == task_paths(*task).take(i as int),
        decreases task.inputs@.len() - i,
    {
        let ghost before = views(paths@);
        paths.push(task.inputs[i].path.clone());
        assert(views(paths@) =~= before.push(task.inputs@[i as int].path@));
        assert(task_paths(*task).take(i + 1) =~= task_paths(*task).take(i as int).push(
            task.inputs@[i as int].path@,
        ));
        i = i + 1;
    }
    assert(task_paths(*task).take(i as int) =~= task_paths(*task));
    let paths_json = to_json_string_array(&paths);
    let mut code = string_of("import json\nprint(json.dumps(");
    push_text(&mut code, paths_json.as_str());
    push_text(&mut code, "))\n");
    let mut inputs: Vec<(String, JsonValue)> = Vec::new();
    inputs.push((string_of("code"), JsonValue::Str(code)));
    let n = CirNode {
        kind: CirNodeKind::PrimitiveInvocation,
        node_id: string_of("task_inputs"),
        capability: Some(string_of("execute_python")),
        output: Some(
            OutputSpec {
                name: string_of("input_files"),
                type_label: string_of("List<String>"),
                fields: Vec::new(),
            },
        ),
        input_types: Vec::new(),
        children: Vec::new(),
        else_children: Vec::new(),
        inputs,
        control: None,
    };
    assert(str_view(n.inputs@) =~= seq![
        (
            "code"@,
            "import json\nprint(json.dumps("@ + json_string_array(task_paths(*task)) + "))\n"@,
        ),
    ]);
    n
}

/// Lowers a plan into a CIR program: the input injector when some foreach
/// iterates over the task inputs, the compiled steps, and the `plan_root`
/// sequence over the top-level steps.
pub fn lower_plan(plan: &PlanIR, task: &TaskSpec, task_id: TaskId, program_id: ProgramId) -> (r:
    Result<CirProgram, PlanCompileError>)
    ensures
        match plan_lower_err(*plan) {
            Some(e) => r is Err && r->Err_0.message@ == e,
            None => r is Ok && plan_program(*plan, *task, task_id, program_id, r->Ok_0),
        },
{
    let mut nodes: Vec<CirNode> = Vec::new();
    let mut children: Vec<String> = Vec::new();
    if plan_uses_inputs(plan) {
        nodes.push(input_injector(task));
        children.push(string_of("task_inputs"));
    }
    assert(node_ids(nodes@) =~= plan_prefix(*plan));
    assert(views(children@) =~= plan_prefix(*plan));
    let ghost n0 = nodes@;
    let mut declared: Vec<&StepOutput> = Vec::new();
    let empty: Vec<&StepOutput> = Vec::new();
    assert(scope_view(declared@) =~= seq![]);
    assert(scope_view(empty@) =~= seq![]);
    assert(plan.steps@.skip(0) =~= plan.steps@);
    let c = compile_steps_from(&plan.steps, 0, &mut nodes, &mut declared, &empty, None, &mut children);
    if c.is_err() {
        return Err(c.unwrap_err());
    }
    let ghost n1 = nodes@;
    let root = CirNode {
        kind: CirNodeKind::Sequence,
        node_id: string_of("plan_root"),
        capability: None,
        output: None,
        input_types: Vec::new(),
        children,
        else_children: Vec::new(),
        inputs: Vec::new(),
        control: None,
    };
    nodes.push(root);
    let mut entry: Vec<String> = Vec::new();
    entry.push(string_of("plan_root"));
    let program = CirProgram { id: program_id, task_id, entry, nodes, effects: Vec::new() };
    proof {
        let pre = plan_prefix(*plan).len() as int;
        let n = program.nodes@.len() as int;
        assert(views(program.entry@) =~= seq!["plan_root"@]);
        assert(program.nodes@.subrange(pre, n - 1) =~= n1.skip(n0.len() as int));
        if pre == 1 {
            assert(program.nodes@[0] == n0[0]);
        }
        assert(program.nodes@[n - 1] == root);
    }
    Ok(program)
}

// ── Valid plans lower without error ────────────────────────────────────────

/// The bindings visible to a step during validation.
pub open spec fn visible_of(declared: Seq<OutView>, scope: Option<Seq<OutView>>) -> Seq<OutView> {
    match scope {
        Some(s) => declared + s,
        None => declared,
    }
}

/// The lowering scope (`outer` then siblings `sib`) resolves every name as
/// the validation scope `visible` does.
pub open spec fn same_scope(outer: Seq<OutView>, sib: Seq<OutView>, visible: Seq<OutView>) -> bool {
    forall|n: Seq<char>| #[trigger] lookup(visible, n) == lookup(outer + sib, n)
}

/// In a concatenated scope the later part is searched first.
pub proof fn lemma_lookup_concat(a: Seq<OutView>, b: Seq<OutView>, n: Seq<char>)
    ensures
        lookup(a + b, n) == match lookup(b, n) {
            Some(o) => Some(o),
            None => lookup(a, n),
        },
    decreases b.len(),
{
    if b.len() == 0 {
        assert(a + b =~= a);
    } else {
        assert((a + b).drop_last() =~= a + b.drop_last());
        assert((a + b).last() == b.last());
        lemma_lookup_concat(a, b.drop_last(), n);
    }
}

proof fn lemma_same_scope_push(outer: Seq<OutView>, sib: Seq<OutView>, s: Option<Seq<OutView>>, o: OutView)
    requires
        same_scope(outer, sib, visible_of(sib, s)),
        lookup(visible_of(sib, s), o.name) is None,
    ensures
        same_scope(outer, sib.push(o), visible_of(sib.push(o), s)),
{
    assert forall|n: Seq<char>| #[trigger]
        lookup(visible_of(sib.push(o), s), n) == lookup(outer + sib.push(o), n) by {
        assert(outer + sib.push(o) =~= (outer + sib).push(o));
        assert((outer + sib).push(o).drop_last() =~= outer + sib);
        assert(sib.push(o).drop_last() =~= sib);
        assert(lookup(visible_of(sib, s), n) == lookup(outer + sib, n));
        match s {
            Some(sc) => {
                lemma_lookup_concat(sib.push(o), sc, n);
                lemma_lookup_concat(sib, sc, n);
                lemma_lookup_concat(sib, sc, o.name);
            },
            None => {},
        }
    }
}

proof fn lemma_bindings_resolve(
    name: Seq<char>,
    bs: Seq<BindingRef>,
    ins: Seq<(Seq<char>, Seq<char>)>,
    tys: Seq<(Seq<char>, Seq<char>)>,
    sib: Seq<OutView>,
    outer: Seq<OutView>,
    item: Option<Seq<char>>,
    visible: Seq<OutView>,
)
    requires
        bindings_s(name, bs, visible) is None,
        same_scope(outer, sib, visible),
    ensures
        bind_fold(name, bs, ins, tys, sib, outer, item) is Ok,
    decreases bs.len(),
{
    if bs.len() > 0 {
        let b = bs[0];
        lemma_lookup_concat(outer, sib, b.binding@);
        assert(lookup(visible, b.binding@) == lookup(outer + sib, b.binding@));
        let o = resolve_b(b.binding@, sib, outer).unwrap();
        lemma_bindings_resolve(
            name,
            bs.drop_first(),
            put(ins, b.param@, "${"@ + bound_name(b, item) + "}"@),
            put(tys, b.param@, bound_type(b, item, o)),
            sib,
            outer,
            item,
            visible,
        );
    }
}

pub(crate) proof fn lemma_contains_grows(a: Seq<Seq<char>>, b: Seq<Seq<char>>, x: Seq<char>)
    requires
        a.contains(x),
    ensures
        (a + b).contains(x),
{
    let i = choose|i: int| 0 <= i < a.len() && a[i] == x;
    assert((a + b)[i] == x);
}

pub(crate) proof fn lemma_step_lowers(
    step: PlanStep,
    seen: Seq<Seq<char>>,
    declared: Seq<OutView>,
    scope: Option<Seq<OutView>>,
    outer: Seq<OutView>,
    item: Option<Seq<char>>,
    prior: Seq<Seq<char>>,
)
    requires
        v_step(step, seen, declared, scope) is Ok,
        same_scope(outer, declared, visible_of(declared, scope)),
        step_uses_inputs(step) ==> prior.contains("task_inputs"@),
    ensures
        step_err(step, declared, outer, item, prior) is None,
        v_step(step, seen, declared, scope)->Ok_0.1 == sib_after(step, declared),
        same_scope(outer, sib_after(step, declared), visible_of(sib_after(step, declared), scope)),
    decreases step, 1int,
{
    let name = step.name@;
    let visible = visible_of(declared, scope);
    assert(lookup(visible, "item"@) == lookup(outer + declared, "item"@));
    match step.kind {
        StepKind::Primitive | StepKind::Retry => {
            assert(primitive_s(step, visible) is None);
            assert(bindings_s(name, step.input_bindings@, visible) is None);
            lemma_bindings_resolve(
                name,
                step.input_bindings@,
                base_inputs(step),
                seq![],
                declared,
                outer,
                item,
                visible,
            );
        },
        StepKind::Foreach => {
            let over = step.over.unwrap();
            lemma_lookup_concat(outer, declared, over@);
            assert(lookup(visible, over@) == lookup(outer + declared, over@));
            let ty = list_source_s(over@, visible, name)->Ok_0;
            assert(list_type_s(over@, name, declared, outer) == Ok::<Seq<char>, Seq<char>>(ty));
            let body_scope = visible.push(item_view(ty));
            let bo = body_outer(outer, declared, ty);
            assert(bo == (outer + declared).push(item_view(ty)));
            assert(v_steps(step.body@, seen.push(name), seq![], Some(body_scope)) is Ok);
            assert forall|n: Seq<char>| #[trigger]
                lookup(visible_of(seq![], Some(body_scope)), n) == lookup(bo + seq![], n) by {
                assert(bo + seq![] =~= bo);
                assert(seq![] + body_scope =~= body_scope);
                assert(bo.drop_last() =~= outer + declared);
                assert(body_scope.drop_last() =~= visible);
                assert(lookup(visible, n) == lookup(outer + declared, n));
            }
            lemma_steps_lower(step.body@, seen.push(name), seq![], Some(body_scope), bo, Some(name), prior);
            if over@ == "inputs"@ {
                lemma_contains_grows(prior, post_ids(step.body@), "task_inputs"@);
            }
        },
        StepKind::Conditional => {
            assert(v_steps(step.body@, seen.push(name), seq![], Some(visible)) is Ok);
            assert forall|n: Seq<char>| #[trigger]
                lookup(visible_of(seq![], Some(visible)), n) == lookup((outer + declared) + seq![], n) by {
                assert((outer + declared) + seq![] =~= outer + declared);
                assert(seq![] + visible =~= visible);
                assert(lookup(visible, n) == lookup(outer + declared, n));
            }
            lemma_steps_lower(step.body@, seen.push(name), seq![], Some(visible), outer + declared, None, prior);
        },
    }
    match step.output {
        Some(out) => {
            assert(lookup(visible, out.name@) is None);
            lemma_same_scope_push(outer, declared, scope, out_view(out));
        },
        None => {},
    }
}

pub(crate) proof fn lemma_steps_lower(
    steps: Seq<PlanStep>,
    seen: Seq<Seq<char>>,
    declared: Seq<OutView>,
    scope: Option<Seq<OutView>>,
    outer: Seq<OutView>,
    item: Option<Seq<char>>,
    prior: Seq<Seq<char>>,
)
    requires
        v_steps(steps, seen, declared, scope) is Ok,
        same_scope(outer, declared, visible_of(declared, scope)),
        uses_inputs(steps) ==> prior.contains("task_inputs"@),
    ensures
        list_err(steps, declared, outer, item, prior) is None,
    decreases steps, 0int,
{
    if steps.len() > 0 {
        lemma_step_lowers(steps[0], seen, declared, scope, outer, item, prior);
        let (s2, d2) = v_step(steps[0], seen, declared, scope)->Ok_0;
        if uses_inputs(steps.drop_first()) {
            lemma_contains_grows(prior, step_ids(steps[0]), "task_inputs"@);
        }
        lemma_steps_lower(
            steps.drop_first(),
            s2,
            d2,
            scope,
            outer,
            item,
            prior + step_ids(steps[0]),
        );
    }
}

/// A plan that passes validation lowers without error: every binding a step
/// reads resolves, every foreach source is a visible list, and a foreach over
/// the task inputs always finds the input-binding node.
pub proof fn lemma_valid_plan_lowers(plan: PlanIR)
    requires
        plan_valid(plan),
    ensures
        plan_lower_err(plan) is None,
{
    assert(v_steps(plan.steps@, seq![], seq![], None) is Ok);
    assert forall|n: Seq<char>| #[trigger]
        lookup(visible_of(seq![], None), n) == lookup(seq![] + seq![], n) by {
        assert(seq![] + seq![] =~= Seq::<OutView>::empty());
    }
    if uses_inputs(plan.steps@) {
        assert(plan_prefix(plan)[0] == "task_inputs"@);
    }
    lemma_steps_lower(plan.steps@, seq![], seq![], None, seq![], None, plan_prefix(plan));
}

// ── Valid plans lower to structurally sound programs ───────────────────────

/// No step (at any depth) is named `plan_root` or `task_inputs`, every
/// declared output passes its checks (a conditional declares none), every
/// primitive or retry step
/// names an allowed capability, every retry step allows at least two attempts,
/// and every foreach or conditional step has a body.
pub open spec fn step_shape_ok(s: PlanStep) -> bool
    decreases s, 1int,
{
    &&& s.name@ != "plan_root"@
    &&& s.name@ != "task_inputs"@
    &&& (s.kind == StepKind::Conditional ==> s.output is None)
    &&& (s.kind != StepKind::Conditional && s.output is Some ==> check_output_s(
        s.output.unwrap(),
        s.name@,
    ) is None)
    &&& match s.kind {
        StepKind::Primitive | StepKind::Retry => {
            &&& s.capability is Some
            &&& allowed_capability(s.capability.unwrap()@)
            &&& s.kind == StepKind::Retry ==> s.retry is Some && s.retry.unwrap().max_attempts >= 2
        },
        _ => s.body@.len() > 0 && shapes_ok(s.body@),
    }
}

pub open spec fn shapes_ok(steps: Seq<PlanStep>) -> bool
    decreases steps, 0int,
{
    steps.len() == 0 || (step_shape_ok(steps[0]) && shapes_ok(steps.drop_first()))
}

pub(crate) proof fn lemma_valid_step_shape(
    step: PlanStep,
    seen: Seq<Seq<char>>,
    declared: Seq<OutView>,
    scope: Option<Seq<OutView>>,
)
    requires
        v_step(step, seen, declared, scope) is Ok,
    ensures
        step_shape_ok(step),
    decreases step, 1int,
{
    let name = step.name@;
    let visible = visible_of(declared, scope);
    match step.kind {
        StepKind::Primitive | StepKind::Retry => {
            assert(primitive_s(step, visible) is None);
        },
        StepKind::Foreach => {
            let ty = list_source_s(step.over.unwrap()@, visible, name)->Ok_0;
            let body_scope = visible.push(item_view(ty));
            assert(v_steps(step.body@, seen.push(name), seq![], Some(body_scope)) is Ok);
            lemma_valid_steps_shape(step.body@, seen.push(name), seq![], Some(body_scope));
        },
        StepKind::Conditional => {
            assert(v_steps(step.body@, seen.push(name), seq![], Some(visible)) is Ok);
            lemma_valid_steps_shape(step.body@, seen.push(name), seq![], Some(visible));
        },
    }
}

pub(crate) proof fn lemma_valid_steps_shape(
    steps: Seq<PlanStep>,
    seen: Seq<Seq<char>>,
    declared: Seq<OutView>,
    scope: Option<Seq<OutView>>,
)
    requires
        v_steps(steps, seen, declared, scope) is Ok,
    ensures
        shapes_ok(steps),
    decreases steps, 0int,
{
    if steps.len() > 0 {
        lemma_valid_step_shape(steps[0], seen, declared, scope);
        let (s2, d2) = v_step(steps[0], seen, declared, scope)->Ok_0;
        lemma_valid_steps_shape(steps.drop_first(), s2, d2, scope);
    }
}

/// A node without else branches, whose control rules hold unless it is a
/// conditional (a conditional has no retry), with an allowed capability if
/// any, whose children are all among `ids`.
pub open spec fn node_sound(n: CirNode, ids: Seq<Seq<char>>) -> bool {
    &&& n.else_children@.len() == 0
    &&& n.kind != CirNodeKind::Conditional ==> node_control_s(n, seq![]) is None
    &&& n.kind == CirNodeKind::Conditional ==> n.control is Some && n.control.unwrap().retry is None
    &&& (n.capability is Some ==> allowed_capability(n.capability.unwrap()@))
    &&& forall|j: int| 0 <= j < n.children@.len() ==> ids.contains(#[trigger] n.children@[j]@)
}

proof fn lemma_node_sound_grows(n: CirNode, a: Seq<Seq<char>>, b: Seq<Seq<char>>)
    requires
        node_sound(n, a),
        forall|x: Seq<char>| a.contains(x) ==> #[trigger] b.contains(x),
    ensures
        node_sound(n, b),
{
    assert forall|j: int| 0 <= j < n.children@.len() implies b.contains(#[trigger] n.children@[j]@) by {
        assert(a.contains(n.children@[j]@));
    }
}

/// Each step's name is among the ids its list emits.
pub(crate) proof fn lemma_top_in_post(steps: Seq<PlanStep>, i: int)
    requires
        0 <= i < steps.len(),
    ensures
        post_ids(steps).contains(steps[i].name@),
    decreases steps.len(),
{
    let s = step_ids(steps[0]);
    assert(s.last() == steps[0].name@);
    if i == 0 {
        assert(post_ids(steps)[s.len() - 1] == steps[0].name@);
    } else {
        lemma_top_in_post(steps.drop_first(), i - 1);
        let r = post_ids(steps.drop_first());
        let k = choose|k: int| 0 <= k < r.len() && r[k] == steps[i].name@;
        assert(post_ids(steps)[s.len() + k] == r[k]);
    }
}

proof fn lemma_children_in(steps: Seq<PlanStep>, n: CirNode, ids: Seq<Seq<char>>)
    requires
        views(n.children@) == top_ids(steps),
        forall|x: Seq<char>| post_ids(steps).contains(x) ==> #[trigger] ids.contains(x),
    ensures
        forall|j: int| 0 <= j < n.children@.len() ==> ids.contains(#[trigger] n.children@[j]@),
{
    assert(views(n.children@).len() == n.children@.len());
    assert(top_ids(steps).len() == steps.len());
    assert forall|j: int| 0 <= j < n.children@.len() implies ids.contains(#[trigger] n.children@[j]@) by {
        assert(views(n.children@)[j] == n.children@[j]@);
        assert(top_ids(steps)[j] == steps[j].name@);
        lemma_top_in_post(steps, j);
    }
}

proof fn lemma_step_sound(
    step: PlanStep,
    sib: Seq<OutView>,
    outer: Seq<OutView>,
    item: Option<Seq<char>>,
    seg: Seq<CirNode>,
)
    requires
        lowered_step(step, sib, outer, item, seg),
        step_shape_ok(step),
    ensures
        node_ids(seg) == step_ids(step),
        forall|k: int| 0 <= k < seg.len() ==> node_sound(#[trigger] seg[k], node_ids(seg)),
        has_primitive(seg),
    decreases step, 1int,
{
    match step.kind {
        StepKind::Primitive | StepKind::Retry => {
            assert(node_ids(seg) =~= seq![step.name@]);
            assert(seg[0].capability is Some);
            assert(node_sound(seg[0], node_ids(seg)));
        },
        _ => {
            let body = seg.drop_last();
            if step.kind == StepKind::Foreach {
                let lt = list_type_s(step.over.unwrap()@, step.name@, sib, outer)->Ok_0;
                lemma_list_sound(step.body@, seq![], body_outer(outer, sib, lt), Some(step.name@), body);
            } else {
                lemma_list_sound(step.body@, seq![], outer + sib, None, body);
            }
            assert(node_ids(seg) =~= node_ids(body).push(step.name@));
            assert forall|x: Seq<char>| node_ids(body).contains(x) implies #[trigger] node_ids(seg).contains(x) by {
                let k = choose|k: int| 0 <= k < node_ids(body).len() && node_ids(body)[k] == x;
                assert(node_ids(seg)[k] == x);
            }
            lemma_children_in(step.body@, seg.last(), node_ids(seg));
            assert forall|k: int| 0 <= k < seg.len() implies node_sound(#[trigger] seg[k], node_ids(seg)) by {
                if k < seg.len() - 1 {
                    assert(seg[k] == body[k]);
                    lemma_node_sound_grows(body[k], node_ids(body), node_ids(seg));
                }
            }
            let w = choose|k: int| 0 <= k < body.len() && (#[trigger] body[k]).capability is Some;
            assert(seg[w] == body[w]);
        },
    }
}

pub(crate) proof fn lemma_list_sound(
    steps: Seq<PlanStep>,
    sib: Seq<OutView>,
    outer: Seq<OutView>,
    item: Option<Seq<char>>,
    seg: Seq<CirNode>,
)
    requires
        lowered_list(steps, sib, outer, item, seg),
        shapes_ok(steps),
    ensures
        node_ids(seg) == post_ids(steps),
        forall|k: int| 0 <= k < seg.len() ==> node_sound(#[trigger] seg[k], node_ids(seg)),
        steps.len() > 0 ==> has_primitive(seg),
    decreases steps, 0int,
{
    if steps.len() == 0 {
        assert(node_ids(seg) =~= seq![]);
    } else {
        let m = step_ids(steps[0]).len() as int;
        let a = seg.take(m);
        let b = seg.skip(m);
        lemma_step_sound(steps[0], sib, outer, item, a);
        lemma_list_sound(steps.drop_first(), sib_after(steps[0], sib), outer, item, b);
        assert(node_ids(seg) =~= node_ids(a) + node_ids(b));
        assert forall|x: Seq<char>| node_ids(a).contains(x) implies #[trigger] node_ids(seg).contains(x) by {
            let k = choose|k: int| 0 <= k < node_ids(a).len() && node_ids(a)[k] == x;
            assert(node_ids(seg)[k] == x);
        }
        assert forall|x: Seq<char>| node_ids(b).contains(x) implies #[trigger] node_ids(seg).contains(x) by {
            let k = choose|k: int| 0 <= k < node_ids(b).len() && node_ids(b)[k] == x;
            assert(node_ids(seg)[m + k] == x);
        }
        assert forall|k: int| 0 <= k < seg.len() implies node_sound(#[trigger] seg[k], node_ids(seg)) by {
            if k < m {
                assert(seg[k] == a[k]);
                lemma_node_sound_grows(a[k], node_ids(a), node_ids(seg));
            } else {
                assert(seg[k] == b[k - m]);
                lemma_node_sound_grows(b[k - m], node_ids(b), node_ids(seg));
            }
        }
        let w = choose|k: int| 0 <= k < a.len() && (#[trigger] a[k]).capability is Some;
        assert(seg[w] == a[w]);
    }
}

pub(crate) proof fn lemma_first_missing_none(refs: Seq<String>, nodes: Seq<CirNode>)
    requires
        forall|j: int| 0 <= j < refs.len() ==> has_id(nodes, #[trigger] refs[j]@),
    ensures
        first_missing(refs, nodes) is None,
    decreases refs.len(),
{
    if refs.len() > 0 {
        assert(has_id(nodes, refs[0]@));
        assert forall|j: int| 0 <= j < refs.drop_first().len() implies has_id(
            nodes,
            #[trigger] refs.drop_first()[j]@,
        ) by {
            assert(refs.drop_first()[j] == refs[j + 1]);
        }
        lemma_first_missing_none(refs.drop_first(), nodes);
    }
}

pub(crate) proof fn lemma_structure_stages_pass(rest: Seq<CirNode>, all: Seq<CirNode>)
    requires
        forall|k: int, j: int|
            0 <= k < rest.len() && 0 <= j < rest[k].children@.len() ==> has_id(
                all,
                #[trigger] rest[k].children@[j]@,
            ),
        forall|k: int| 0 <= k < rest.len() ==> (#[trigger] rest[k]).else_children@.len() == 0,
        forall|k: int|
            0 <= k < rest.len() && (#[trigger] rest[k]).capability is Some ==> allowed_capability(
                rest[k].capability.unwrap()@,
            ),
    ensures
        children_s(rest, all) is None,
        else_s(rest, all) is None,
        caps_s(rest) is None,
    decreases rest.len(),
{
    if rest.len() > 0 {
        let n = rest[0];
        assert forall|j: int| 0 <= j < n.children@.len() implies has_id(all, #[trigger] n.children@[j]@) by {
            assert(has_id(all, rest[0].children@[j]@));
        }
        lemma_first_missing_none(n.children@, all);
        assert(n.else_children@.len() == 0);
        lemma_first_missing_none(n.else_children@, all);
        let r = rest.drop_first();
        assert forall|k: int, j: int|
            0 <= k < r.len() && 0 <= j < r[k].children@.len() implies has_id(all, #[trigger] r[k].children@[j]@) by {
            assert(r[k] == rest[k + 1]);
        }
        assert forall|k: int| 0 <= k < r.len() implies (#[trigger] r[k]).else_children@.len() == 0 by {
            assert(r[k] == rest[k + 1]);
        }
        assert forall|k: int| 0 <= k < r.len() && (#[trigger] r[k]).capability is Some implies allowed_capability(
            r[k].capability.unwrap()@,
        ) by {
            assert(r[k] == rest[k + 1]);
        }
        lemma_structure_stages_pass(r, all);
    }
}

/// The program a valid plan lowers to passes the entry, child-reference,
/// else-branch, capability and effect stages of CIR validation, and invokes
/// at least one primitive. (Its conditions, reachability and data contract are
/// checked as for any program.)
pub proof fn lemma_valid_plan_program_sound(
    plan: PlanIR,
    task: TaskSpec,
    task_id: TaskId,
    program_id: ProgramId,
    p: CirProgram,
)
    requires
        plan_valid(plan),
        plan_program(plan, task, task_id, program_id, p),
    ensures
        entry_s(p) is None,
        children_s(p.nodes@, p.nodes@) is None,
        else_s(p.nodes@, p.nodes@) is None,
        caps_s(p.nodes@) is None,
        effects_s(p.effects@) is None,
        has_primitive(p.nodes@),
{
    let pre = plan_prefix(plan).len() as int;
    let nodes = p.nodes@;
    let n = nodes.len() as int;
    let seg = nodes.subrange(pre, n - 1);
    let steps = plan.steps@;
    assert(v_steps(steps, seq![], seq![], None) is Ok);
    lemma_valid_steps_shape(steps, seq![], seq![], None);
    lemma_list_sound(steps, seq![], seq![], None, seg);
    assert(steps.len() > 0);
    let root = nodes[n - 1];
    assert forall|x: Seq<char>| node_ids(seg).contains(x) implies has_id(nodes, x) by {
        let k = choose|k: int| 0 <= k < node_ids(seg).len() && node_ids(seg)[k] == x;
        assert(nodes[pre + k] == seg[k]);
    }
    assert(nodes[n - 1].node_id@ == "plan_root"@);
    assert(has_id(nodes, "plan_root"@));
    if pre == 1 {
        assert(plan_prefix(plan) == seq!["task_inputs"@]);
        assert(nodes[0].node_id@ == "task_inputs"@);
        assert(has_id(nodes, "task_inputs"@));
    }
    assert forall|k: int, j: int|
        0 <= k < n && 0 <= j < nodes[k].children@.len() implies has_id(nodes, #[trigger] nodes[k].children@[j]@) by {
        if k < pre {
        } else if k < n - 1 {
            assert(nodes[k] == seg[k - pre]);
            assert(node_sound(seg[k - pre], node_ids(seg)));
            assert(node_ids(seg).contains(nodes[k].children@[j]@));
        } else {
            assert(views(root.children@)[j] == root.children@[j]@);
            assert(views(root.children@).len() == root.children@.len());
            let c = root.children@[j]@;
            if j < pre {
                assert(c == plan_prefix(plan)[j]);
            } else {
                assert(top_ids(steps).len() == steps.len());
                assert(c == top_ids(steps)[j - pre]);
                assert(c == steps[j - pre].name@);
                lemma_top_in_post(steps, j - pre);
            }
        }
    }
    assert forall|k: int| 0 <= k < n implies (#[trigger] nodes[k]).else_children@.len() == 0 by {
        if pre <= k < n - 1 {
            assert(nodes[k] == seg[k - pre]);
            assert(node_sound(seg[k - pre], node_ids(seg)));
        }
    }
    assert forall|k: int| 0 <= k < n && (#[trigger] nodes[k]).capability is Some implies allowed_capability(
        nodes[k].capability.unwrap()@,
    ) by {
        if pre <= k < n - 1 {
            assert(nodes[k] == seg[k - pre]);
            assert(node_sound(seg[k - pre], node_ids(seg)));
        } else if k < pre {
            assert(opt_view(nodes[k].capability) == Some("execute_python"@));
        }
    }
    lemma_structure_stages_pass(nodes, nodes);
    assert(views(p.entry@).len() == p.entry@.len());
    assert forall|j: int| 0 <= j < p.entry@.len() implies has_id(nodes, #[trigger] p.entry@[j]@) by {
        assert(views(p.entry@)[j] == p.entry@[j]@);
    }
    lemma_first_missing_none(p.entry@, nodes);
    let w = choose|k: int| 0 <= k < seg.len() && (#[trigger] seg[k]).capability is Some;
    assert(nodes[pre + w] == seg[w]);
}

pub(crate) proof fn lemma_control_stage_passes(rest: Seq<CirNode>, all: Seq<CirNode>)
    requires
        forall|k: int| 0 <= k < rest.len() ==> node_control_s(#[trigger] rest[k], all) is None,
    ensures
        control_s(rest, all) is None,
    decreases rest.len(),
{
    if rest.len() > 0 {
        assert(node_control_s(rest[0], all) is None);
        let r = rest.drop_first();
        assert forall|k: int| 0 <= k < r.len() implies node_control_s(#[trigger] r[k], all) is None by {
            assert(r[k] == rest[k + 1]);
        }
        lemma_control_stage_passes(r, all);
    }
}

/// The program a valid plan lowers to passes the control stage of CIR
/// validation whenever each of its conditional nodes passes its condition
/// check: its loops are for-each loops with an input and an item variable,
/// and its retries allow at least two attempts.
pub proof fn lemma_valid_plan_control(
    plan: PlanIR,
    task: TaskSpec,
    task_id: TaskId,
    program_id: ProgramId,
    p: CirProgram,
)
    requires
        plan_valid(plan),
        plan_program(plan, task, task_id, program_id, p),
        forall|k: int|
            0 <= k < p.nodes@.len() && (#[trigger] p.nodes@[k]).kind == CirNodeKind::Conditional
                ==> node_kind_s(p.nodes@[k], p.nodes@) is None,
    ensures
        control_s(p.nodes@, p.nodes@) is None,
{
    let pre = plan_prefix(plan).len() as int;
    let nodes = p.nodes@;
    let n = nodes.len() as int;
    let seg = nodes.subrange(pre, n - 1);
    let steps = plan.steps@;
    assert(v_steps(steps, seq![], seq![], None) is Ok);
    lemma_valid_steps_shape(steps, seq![], seq![], None);
    lemma_list_sound(steps, seq![], seq![], None, seg);
    assert forall|k: int| 0 <= k < n implies node_control_s(#[trigger] nodes[k], nodes) is None by {
        if pre <= k < n - 1 {
            assert(nodes[k] == seg[k - pre]);
            assert(node_sound(seg[k - pre], node_ids(seg)));
            if nodes[k].kind != CirNodeKind::Conditional {
                assert(node_control_s(nodes[k], seq![]) is None);
            }
        }
    }
    lemma_control_stage_passes(nodes, nodes);
}

// ── Reachability of the lowered program ────────────────────────────────────

pub open spec fn no_dups(s: Seq<Seq<char>>) -> bool {
    forall|i: int, j: int| 0 <= i < j < s.len() ==> #[trigger] s[i] != #[trigger] s[j]
}

proof fn lemma_no_dups_concat(a: Seq<Seq<char>>, b: Seq<Seq<char>>)
    requires
        no_dups(a),
        no_dups(b),
        forall|x: Seq<char>| #[trigger] b.contains(x) ==> !a.contains(x),
    ensures
        no_dups(a + b),
{
    let c = a + b;
    assert forall|i: int, j: int| 0 <= i < j < c.len() implies #[trigger] c[i] != #[trigger] c[j] by {
        if j >= a.len() && i < a.len() {
            assert(c[j] == b[j - a.len()]);
            assert(b.contains(b[j - a.len()]));
            assert(c[i] == a[i]);
        } else if i >= a.len() {
            assert(c[i] == b[i - a.len()]);
            assert(c[j] == b[j - a.len()]);
        } else {
            assert(c[i] == a[i]);
            assert(c[j] == a[j]);
        }
    }
}

pub(crate) proof fn lemma_contains_concat(a: Seq<Seq<char>>, b: Seq<Seq<char>>, x: Seq<char>)
    ensures
        (a + b).contains(x) <==> (a.contains(x) || b.contains(x)),
{
    if (a + b).contains(x) {
        let k = choose|k: int| 0 <= k < (a + b).len() && (a + b)[k] == x;
        if k < a.len() {
            assert(a[k] == x);
        } else {
            assert(b[k - a.len()] == x);
        }
    }
    if a.contains(x) {
        let k = choose|k: int| 0 <= k < a.len() && a[k] == x;
        assert((a + b)[k] == x);
    }
    if b.contains(x) {
        let k = choose|k: int| 0 <= k < b.len() && b[k] == x;
        assert((a + b)[a.len() + k] == x);
    }
}

/// Validation keeps names globally unique: the ids a valid step emits are
/// distinct and new, and all of them are seen afterwards.
proof fn lemma_step_ids_fresh(
    step: PlanStep,
    seen: Seq<Seq<char>>,
    declared: Seq<OutView>,
    scope: Option<Seq<OutView>>,
)
    requires
        v_step(step, seen, declared, scope) is Ok,
    ensures
        no_dups(step_ids(step)),
        forall|x: Seq<char>| #[trigger] step_ids(step).contains(x) ==> !seen.contains(x)
            && v_step(step, seen, declared, scope)->Ok_0.0.contains(x),
        forall|x: Seq<char>| #[trigger] seen.contains(x) ==> v_step(step, seen, declared, scope)->Ok_0.0.contains(x),
    decreases step, 1int,
{
    let name = step.name@;
    let visible = visible_of(declared, scope);
    let s2 = v_step(step, seen, declared, scope)->Ok_0.0;
    assert(!seen.contains(name));
    match step.kind {
        StepKind::Primitive | StepKind::Retry => {
            assert(s2 == seen.push(name));
            assert(step_ids(step) =~= seq![name]);
            assert forall|x: Seq<char>| #[trigger] step_ids(step).contains(x) implies !seen.contains(x) && s2.contains(x) by {
                assert(x == name);
                assert(s2[seen.len() as int] == name);
            }
            assert forall|x: Seq<char>| #[trigger] seen.contains(x) implies s2.contains(x) by {
                let k = choose|k: int| 0 <= k < seen.len() && seen[k] == x;
                assert(s2[k] == x);
            }
        },
        _ => {
            let body_scope = if step.kind == StepKind::Foreach {
                visible.push(item_view(list_source_s(step.over.unwrap()@, visible, name)->Ok_0))
            } else {
                visible
            };
            let sp = seen.push(name);
            assert(v_steps(step.body@, sp, seq![], Some(body_scope)) is Ok);
            assert(s2 == v_steps(step.body@, sp, seq![], Some(body_scope))->Ok_0.0);
            lemma_steps_ids_fresh(step.body@, sp, seq![], Some(body_scope));
            let b = post_ids(step.body@);
            assert(sp[seen.len() as int] == name);
            assert(sp.contains(name));
            assert forall|x: Seq<char>| #[trigger] seen.contains(x) implies sp.contains(x) by {
                let k = choose|k: int| 0 <= k < seen.len() && seen[k] == x;
                assert(sp[k] == x);
            }
            assert forall|x: Seq<char>| #[trigger] seq![name].contains(x) implies !b.contains(x) by {
                assert(x == name);
            }
            assert(no_dups(seq![name]));
            lemma_no_dups_concat(b, seq![name]);
            assert(step_ids(step) == b + seq![name]);
            assert forall|x: Seq<char>| #[trigger] step_ids(step).contains(x) implies !seen.contains(x) && s2.contains(x) by {
                lemma_contains_concat(b, seq![name], x);
                if b.contains(x) {
                    assert(!sp.contains(x));
                    if seen.contains(x) {
                        assert(sp.contains(x));
                    }
                } else {
                    assert(seq![name].contains(x));
                    assert(x == name);
                }
            }
        },
    }
}

pub(crate) proof fn lemma_steps_ids_fresh(
    steps: Seq<PlanStep>,
    seen: Seq<Seq<char>>,
    declared: Seq<OutView>,
    scope: Option<Seq<OutView>>,
)
    requires
        v_steps(steps, seen, declared, scope) is Ok,
    ensures
        no_dups(post_ids(steps)),
        forall|x: Seq<char>| #[trigger] post_ids(steps).contains(x) ==> !seen.contains(x)
            && v_steps(steps, seen, declared, scope)->Ok_0.0.contains(x),
        forall|x: Seq<char>| #[trigger] seen.contains(x) ==> v_steps(steps, seen, declared, scope)->Ok_0.0.contains(x),
    decreases steps, 0int,
{
    if steps.len() == 0 {
        assert(post_ids(steps) =~= seq![]);
    } else {
        lemma_step_ids_fresh(steps[0], seen, declared, scope);
        let (s1, d1) = v_step(steps[0], seen, declared, scope)->Ok_0;
        lemma_steps_ids_fresh(steps.drop_first(), s1, d1, scope);
        let a = step_ids(steps[0]);
        let b = post_ids(steps.drop_first());
        assert forall|x: Seq<char>| #[trigger] b.contains(x) implies !a.contains(x) by {
            if a.contains(x) {
                assert(s1.contains(x));
            }
        }
        lemma_no_dups_concat(a, b);
        assert forall|x: Seq<char>| #[trigger] post_ids(steps).contains(x) implies !seen.contains(x)
            && v_steps(steps, seen, declared, scope)->Ok_0.0.contains(x) by {
            lemma_contains_concat(a, b, x);
            if b.contains(x) {
                if seen.contains(x) {
                    assert(s1.contains(x));
                }
            }
        }
    }
}

/// The names of the foreach and conditional steps, at any depth.
pub open spec fn container_ids(steps: Seq<PlanStep>) -> Seq<Seq<char>>
    decreases steps, 0int,
{
    if steps.len() == 0 {
        seq![]
    } else {
        step_container_ids(steps[0]) + container_ids(steps.drop_first())
    }
}

pub open spec fn step_container_ids(s: PlanStep) -> Seq<Seq<char>>
    decreases s, 1int,
{
    if s.kind == StepKind::Foreach || s.kind == StepKind::Conditional {
        container_ids(s.body@) + seq![s.name@]
    } else {
        seq![]
    }
}

pub(crate) proof fn lemma_path_extend(p: CirProgram, y: Seq<char>, x: Seq<char>)
    requires
        reachable(p, y),
        step(p.nodes@, y, x),
    ensures
        reachable(p, x),
{
    let path = choose|path: Seq<Seq<char>>| #[trigger] is_path(p, path) && path.last() == y;
    let q = path.push(x);
    assert forall|i: int| 0 <= i < q.len() - 1 implies step(p.nodes@, #[trigger] q[i], q[i + 1]) by {
        if i < path.len() - 1 {
            assert(q[i] == path[i] && q[i + 1] == path[i + 1]);
        } else {
            assert(q[i] == y && q[i + 1] == x);
        }
    }
    assert(q[0] == path[0]);
    assert(is_path(p, q));
    assert(q.last() == x);
}

pub(crate) proof fn lemma_last_node_at(nodes: Seq<CirNode>, g: int, id: Seq<char>)
    requires
        0 <= g < nodes.len(),
        nodes[g].node_id@ == id,
        forall|k: int| g < k < nodes.len() ==> (#[trigger] nodes[k]).node_id@ != id,
    ensures
        last_node(nodes, id) == g,
{
    lemma_last_node(nodes, id);
    let l = last_node(nodes, id);
    if l < g {
        assert(nodes[g].node_id@ != id);
    }
}

proof fn lemma_list_reach(
    p: CirProgram,
    steps: Seq<PlanStep>,
    sib: Seq<OutView>,
    outer: Seq<OutView>,
    item: Option<Seq<char>>,
    seg: Seq<CirNode>,
    off: int,
    pre: int,
)
    requires
        lowered_list(steps, sib, outer, item, seg),
        shapes_ok(steps),
        !container_ids(steps).contains("plan_root"@),
        0 <= pre <= off,
        off + seg.len() <= p.nodes@.len() - 1,
        seg == p.nodes@.subrange(off, off + seg.len()),
        p.nodes@[p.nodes@.len() - 1].node_id@ == "plan_root"@,
        forall|k1: int, k2: int|
            pre <= k1 < k2 < p.nodes@.len() - 1 ==> (#[trigger] p.nodes@[k1]).node_id@
                != (#[trigger] p.nodes@[k2]).node_id@,
        forall|i: int| 0 <= i < steps.len() ==> reachable(p, #[trigger] steps[i].name@),
    ensures
        forall|k: int| 0 <= k < seg.len() ==> reachable(p, (#[trigger] seg[k]).node_id@),
    decreases steps, 0int,
{
    let nodes = p.nodes@;
    let n = nodes.len() as int;
    if steps.len() > 0 {
        let s = steps[0];
        let m = step_ids(s).len() as int;
        let a = seg.take(m);
        let b = seg.skip(m);
        assert(reachable(p, steps[0].name@));
        assert(container_ids(steps) == step_container_ids(s) + container_ids(steps.drop_first()));
        lemma_contains_concat(step_container_ids(s), container_ids(steps.drop_first()), "plan_root"@);
        if s.kind == StepKind::Foreach || s.kind == StepKind::Conditional {
            let body = a.drop_last();
            let g = off + m - 1;
            assert(nodes[g] == a.last());
            assert(lowered_step(s, sib, outer, item, a));
            if s.kind == StepKind::Foreach {
                assert(loop_node_ok(s, a.last()));
            } else {
                assert(cond_node_ok(s, a.last()));
            }
            assert(a.last().node_id@ == s.name@);
            assert(step_container_ids(s) == container_ids(s.body@) + seq![s.name@]);
            lemma_contains_concat(container_ids(s.body@), seq![s.name@], "plan_root"@);
            lemma_contains_concat(container_ids(s.body@), seq![s.name@], s.name@);
            assert(seq![s.name@][0] == s.name@);
            assert(s.name@ != "plan_root"@);
            assert forall|k: int| g < k < n implies (#[trigger] nodes[k]).node_id@ != s.name@ by {
                if k < n - 1 {
                    assert(nodes[g].node_id@ != nodes[k].node_id@);
                }
            }
            lemma_last_node_at(nodes, g, s.name@);
            let bs = s.body@;
            assert(step_shape_ok(s));
            assert(shapes_ok(bs));
            assert(views(a.last().children@) == top_ids(bs));
            assert(views(a.last().children@).len() == a.last().children@.len());
            assert(top_ids(bs).len() == bs.len());
            assert forall|i: int| 0 <= i < bs.len() implies reachable(p, #[trigger] bs[i].name@) by {
                let v = views(a.last().children@);
                assert(v[i] == top_ids(bs)[i]);
                assert(top_ids(bs)[i] == bs[i].name@);
                assert(succ_ids(nodes[g]) == v + views(nodes[g].else_children@));
                assert(succ_ids(nodes[g])[i] == bs[i].name@);
                assert(succ_ids(nodes[g]).contains(bs[i].name@));
                assert(step(nodes, s.name@, bs[i].name@));
                lemma_path_extend(p, s.name@, bs[i].name@);
            }
            if s.kind == StepKind::Foreach {
                let lt = list_type_s(s.over.unwrap()@, s.name@, sib, outer)->Ok_0;
                assert(body == nodes.subrange(off, off + body.len()));
                lemma_list_reach(p, bs, seq![], body_outer(outer, sib, lt), Some(s.name@), body, off, pre);
            } else {
                assert(body == nodes.subrange(off, off + body.len()));
                lemma_list_reach(p, bs, seq![], outer + sib, None, body, off, pre);
            }
            assert forall|k: int| 0 <= k < a.len() implies reachable(p, (#[trigger] a[k]).node_id@) by {
                if k < a.len() - 1 {
                    assert(a[k] == body[k]);
                }
            }
        } else {
            assert(lowered_step(s, sib, outer, item, a));
            assert(prim_node_ok(s, sib, outer, item, a[0]));
            assert(a[0].node_id@ == s.name@);
            assert(a.len() == 1);
        }
        assert forall|i: int| 0 <= i < steps.drop_first().len() implies reachable(
            p,
            #[trigger] steps.drop_first()[i].name@,
        ) by {
            assert(steps.drop_first()[i] == steps[i + 1]);
        }
        assert(b == nodes.subrange(off + m, off + m + b.len()));
        assert(shapes_ok(steps.drop_first()));
        lemma_list_reach(p, steps.drop_first(), sib_after(s, sib), outer, item, b, off + m, pre);
        assert forall|k: int| 0 <= k < seg.len() implies reachable(p, (#[trigger] seg[k]).node_id@) by {
            if k < m {
                assert(seg[k] == a[k]);
            } else {
                assert(seg[k] == b[k - m]);
            }
        }
    }
}

pub(crate) proof fn lemma_no_orphans(p: CirProgram, k: nat)
    requires
        k <= p.nodes@.len(),
        forall|i: int| 0 <= i < p.nodes@.len() ==> reachable(p, (#[trigger] p.nodes@[i]).node_id@),
    ensures
        orphans_upto(p, k) == Seq::<Seq<char>>::empty(),
    decreases k,
{
    if k > 0 {
        lemma_no_orphans(p, (k - 1) as nat);
        assert(reachable(p, p.nodes@[k - 1].node_id@));
        assert(orphans_upto(p, k) =~= Seq::<Seq<char>>::empty());
    }
}

/// The program a valid plan lowers to reaches every node from its entry,
/// unless some foreach or conditional step is named `plan_root` (its body is
/// then cut off: the id resolves to the root sequence).
pub proof fn lemma_valid_plan_reachable(
    plan: PlanIR,
    task: TaskSpec,
    task_id: TaskId,
    program_id: ProgramId,
    p: CirProgram,
)
    requires
        plan_valid(plan),
        plan_program(plan, task, task_id, program_id, p),
        !container_ids(plan.steps@).contains("plan_root"@),
    ensures
        reach_s(p) is None,
{
    let pre = plan_prefix(plan).len() as int;
    let nodes = p.nodes@;
    let n = nodes.len() as int;
    let seg = nodes.subrange(pre, n - 1);
    let steps = plan.steps@;
    let root = nodes[n - 1];
    assert(v_steps(steps, seq![], seq![], None) is Ok);
    lemma_valid_steps_shape(steps, seq![], seq![], None);
    lemma_list_sound(steps, seq![], seq![], None, seg);
    lemma_steps_ids_fresh(steps, seq![], seq![], None);
    // The entry reaches the root.
    let start: Seq<Seq<char>> = seq!["plan_root"@];
    assert(views(p.entry@)[0] == "plan_root"@);
    assert(is_path(p, start));
    assert(reachable(p, "plan_root"@));
    assert(last_node(nodes, "plan_root"@) == n - 1);
    // The root links to the prefix and the top-level steps.
    assert(views(root.children@) == plan_prefix(plan) + top_ids(steps));
    assert(succ_ids(root) == views(root.children@) + views(root.else_children@));
    assert forall|j: int| 0 <= j < views(root.children@).len() implies reachable(
        p,
        #[trigger] views(root.children@)[j],
    ) by {
        assert(succ_ids(root)[j] == views(root.children@)[j]);
        assert(succ_ids(root).contains(views(root.children@)[j]));
        lemma_path_extend(p, "plan_root"@, views(root.children@)[j]);
    }
    assert(top_ids(steps).len() == steps.len());
    assert forall|i: int| 0 <= i < steps.len() implies reachable(p, #[trigger] steps[i].name@) by {
        assert(views(root.children@)[pre + i] == top_ids(steps)[i]);
    }
    // Ids are distinct among the lowered steps.
    assert forall|k1: int, k2: int| pre <= k1 < k2 < n - 1 implies (#[trigger] nodes[k1]).node_id@
        != (#[trigger] nodes[k2]).node_id@ by {
        assert(node_ids(seg)[k1 - pre] == nodes[k1].node_id@);
        assert(node_ids(seg)[k2 - pre] == nodes[k2].node_id@);
    }
    lemma_list_reach(p, steps, seq![], seq![], None, seg, pre, pre);
    assert forall|i: int| 0 <= i < n implies reachable(p, (#[trigger] nodes[i]).node_id@) by {
        if i < pre {
            assert(plan_prefix(plan) == seq!["task_inputs"@]);
            assert(views(root.children@)[0] == "task_inputs"@);
        } else if i < n - 1 {
            assert(nodes[i] == seg[i - pre]);
        }
    }
    lemma_no_orphans(p, n as nat);
}

// ── Valid plans pass every structural stage ────────────────────────────────

/// No container step (at any depth) is named `plan_root`.
proof fn lemma_no_root_container(steps: Seq<PlanStep>)
    requires
        shapes_ok(steps),
    ensures
        !container_ids(steps).contains("plan_root"@),
    decreases steps, 0int,
{
    if steps.len() > 0 {
        let s = steps[0];
        assert(step_shape_ok(s) && shapes_ok(steps.drop_first()));
        assert(s.name@ != "plan_root"@);
        lemma_no_root_container(steps.drop_first());
        let a = step_container_ids(s);
        let b = container_ids(steps.drop_first());
        if s.kind == StepKind::Foreach || s.kind == StepKind::Conditional {
            assert(shapes_ok(s.body@));
            lemma_no_root_container(s.body@);
            let c = container_ids(s.body@);
            assert forall|i: int| 0 <= i < a.len() implies a[i] != "plan_root"@ by {
                if i < c.len() {
                    assert(a[i] == c[i]);
                    assert(c.contains(c[i]));
                }
            }
        } else {
            assert(a.len() == 0);
        }
        assert forall|i: int| 0 <= i < (a + b).len() implies (a + b)[i] != "plan_root"@ by {
            if i >= a.len() {
                assert((a + b)[i] == b[i - a.len()]);
                assert(b.contains(b[i - a.len()]));
            }
        }
    }
}

/// Every binding of a scope other than `item` is the output of some node.
pub open spec fn outs_in(sc: Seq<OutView>, all: Seq<CirNode>) -> bool {
    forall|i: int| 0 <= i < sc.len() && (#[trigger] sc[i]).name != "item"@ ==> is_output_name(all, sc[i].name)
}

pub(crate) proof fn lemma_lookup_output(sc: Seq<OutView>, all: Seq<CirNode>, x: Seq<char>)
    requires
        outs_in(sc, all),
        lookup(sc, x) is Some,
        x != "item"@,
    ensures
        is_output_name(all, x),
    decreases sc.len(),
{
    if sc.last().name != x {
        let d = sc.drop_last();
        assert forall|i: int| 0 <= i < d.len() && (#[trigger] d[i]).name != "item"@ implies is_output_name(
            all,
            d[i].name,
        ) by {
            assert(d[i] == sc[i]);
        }
        lemma_lookup_output(d, all, x);
    } else {
        assert(sc.last() == sc[sc.len() - 1]);
    }
}

pub(crate) proof fn lemma_outs_in_push(sc: Seq<OutView>, all: Seq<CirNode>, o: OutView)
    requires
        outs_in(sc, all),
        o.name != "item"@ ==> is_output_name(all, o.name),
    ensures
        outs_in(sc.push(o), all),
{
    assert forall|i: int| 0 <= i < sc.push(o).len() && (#[trigger] sc.push(o)[i]).name != "item"@ implies is_output_name(
        all,
        sc.push(o)[i].name,
    ) by {
        if i < sc.len() {
            assert(sc.push(o)[i] == sc[i]);
        }
    }
}

proof fn lemma_unbound_none(ids: Seq<Seq<char>>, visible: Seq<OutView>, outer: Seq<OutView>, all: Seq<CirNode>)
    requires
        unbound_name(ids, visible) is None,
        forall|n: Seq<char>| #[trigger] lookup(visible, n) == lookup(outer, n),
        outs_in(outer, all),
    ensures
        first_non_output(ids, all) is None,
    decreases ids.len(),
{
    if ids.len() > 0 {
        assert(lookup(visible, ids[0]) == lookup(outer, ids[0]));
        lemma_lookup_output(outer, all, ids[0]);
        lemma_unbound_none(ids.drop_first(), visible, outer, all);
    }
}

/// Where a segment sits in the whole node list.
pub open spec fn placed(seg: Seq<CirNode>, all: Seq<CirNode>, off: int) -> bool {
    &&& 0 <= off
    &&& off + seg.len() <= all.len()
    &&& forall|k: int| 0 <= k < seg.len() ==> all[off + k] == #[trigger] seg[k]
}

/// The conditional nodes a valid step lowers to pass their condition checks,
/// and its output (if any) is the output of a node.
proof fn lemma_step_conds(
    step: PlanStep,
    seen: Seq<Seq<char>>,
    declared: Seq<OutView>,
    scope: Option<Seq<OutView>>,
    outer: Seq<OutView>,
    item: Option<Seq<char>>,
    prior: Seq<Seq<char>>,
    seg: Seq<CirNode>,
    all: Seq<CirNode>,
    off: int,
)
    requires
        v_step(step, seen, declared, scope) is Ok,
        same_scope(outer, declared, visible_of(declared, scope)),
        step_uses_inputs(step) ==> prior.contains("task_inputs"@),
        lowered_step(step, declared, outer, item, seg),
        outs_in(outer + declared, all),
        placed(seg, all, off),
    ensures
        forall|k: int|
            0 <= k < seg.len() && (#[trigger] seg[k]).kind == CirNodeKind::Conditional ==> node_kind_s(
                seg[k],
                all,
            ) is None,
        outs_in(outer + sib_after(step, declared), all),
    decreases step, 1int,
{
    lemma_step_lowers(step, seen, declared, scope, outer, item, prior);
    let name = step.name@;
    let visible = visible_of(declared, scope);
    let last = seg.len() - 1;
    assert(all[off + last] == seg[last]);
    match step.kind {
        StepKind::Primitive | StepKind::Retry => {},
        StepKind::Foreach => {
            let over = step.over.unwrap();
            lemma_lookup_concat(outer, declared, over@);
            let ty = list_source_s(over@, visible, name)->Ok_0;
            let body_scope = visible.push(item_view(ty));
            let bo = body_outer(outer, declared, ty);
            assert(bo == (outer + declared).push(item_view(ty)));
            assert forall|n: Seq<char>| #[trigger]
                lookup(visible_of(seq![], Some(body_scope)), n) == lookup(bo + seq![], n) by {
                assert(bo + seq![] =~= bo);
                assert(seq![] + body_scope =~= body_scope);
                assert(bo.drop_last() =~= outer + declared);
                assert(body_scope.drop_last() =~= visible);
                assert(lookup(visible, n) == lookup(outer + declared, n));
            }
            lemma_outs_in_push(outer + declared, all, item_view(ty));
            assert(bo + seq![] =~= bo);
            let body = seg.drop_last();
            assert(placed(body, all, off)) by {
                assert forall|k: int| 0 <= k < body.len() implies all[off + k] == #[trigger] body[k] by {
                    assert(body[k] == seg[k]);
                }
            }
            lemma_steps_conds(
                step.body@,
                seen.push(name),
                seq![],
                Some(body_scope),
                bo,
                Some(name),
                prior,
                body,
                all,
                off,
            );
            assert forall|k: int|
                0 <= k < seg.len() && (#[trigger] seg[k]).kind == CirNodeKind::Conditional implies node_kind_s(
                seg[k],
                all,
            ) is None by {
                if k < last {
                    assert(seg[k] == body[k]);
                }
            }
        },
        StepKind::Conditional => {
            let cond = step.condition.unwrap()@;
            let e = parse_spec(unref_from(cond, 0)).unwrap();
            assert(unbound_name(idents(e), visible) is None);
            assert forall|n: Seq<char>| #[trigger] lookup(visible, n) == lookup(outer + declared, n) by {}
            lemma_unbound_none(idents(e), visible, outer + declared, all);
            assert(node_kind_s(seg[last], all) is None);
            assert forall|n: Seq<char>| #[trigger]
                lookup(visible_of(seq![], Some(visible)), n) == lookup((outer + declared) + seq![], n) by {
                assert((outer + declared) + seq![] =~= outer + declared);
                assert(seq![] + visible =~= visible);
                assert(lookup(visible, n) == lookup(outer + declared, n));
            }
            assert((outer + declared) + seq![] =~= outer + declared);
            let body = seg.drop_last();
            assert(placed(body, all, off)) by {
                assert forall|k: int| 0 <= k < body.len() implies all[off + k] == #[trigger] body[k] by {
                    assert(body[k] == seg[k]);
                }
            }
            lemma_steps_conds(
                step.body@,
                seen.push(name),
                seq![],
                Some(visible),
                outer + declared,
                None,
                prior,
                body,
                all,
                off,
            );
            assert forall|k: int|
                0 <= k < seg.len() && (#[trigger] seg[k]).kind == CirNodeKind::Conditional implies node_kind_s(
                seg[k],
                all,
            ) is None by {
                if k < last {
                    assert(seg[k] == body[k]);
                }
            }
        },
    }
    if step.kind != StepKind::Conditional && step.output is Some {
        let o = out_view(step.output.unwrap());
        assert(all[off + last].output is Some && all[off + last].output.unwrap().name@ == o.name);
        lemma_outs_in_push(outer + declared, all, o);
        assert(outer + declared.push(o) =~= (outer + declared).push(o));
    }
}

proof fn lemma_steps_conds(
    steps: Seq<PlanStep>,
    seen: Seq<Seq<char>>,
    declared: Seq<OutView>,
    scope: Option<Seq<OutView>>,
    outer: Seq<OutView>,
    item: Option<Seq<char>>,
    prior: Seq<Seq<char>>,
    seg: Seq<CirNode>,
    all: Seq<CirNode>,
    off: int,
)
    requires
        v_steps(steps, seen, declared, scope) is Ok,
        same_scope(outer, declared, visible_of(declared, scope)),
        uses_inputs(steps) ==> prior.contains("task_inputs"@),
        lowered_list(steps, declared, outer, item, seg),
        outs_in(outer + declared, all),
        placed(seg, all, off),
    ensures
        forall|k: int|
            0 <= k < seg.len() && (#[trigger] seg[k]).kind == CirNodeKind::Conditional ==> node_kind_s(
                seg[k],
                all,
            ) is None,
    decreases steps, 0int,
{
    if steps.len() > 0 {
        let m = step_ids(steps[0]).len() as int;
        let a = seg.take(m);
        let b = seg.skip(m);
        assert(placed(a, all, off)) by {
            assert forall|k: int| 0 <= k < a.len() implies all[off + k] == #[trigger] a[k] by {
                assert(a[k] == seg[k]);
            }
        }
        assert(placed(b, all, off + m)) by {
            assert forall|k: int| 0 <= k < b.len() implies all[off + m + k] == #[trigger] b[k] by {
                assert(b[k] == seg[m + k]);
            }
        }
        lemma_step_conds(steps[0], seen, declared, scope, outer, item, prior, a, all, off);
        lemma_step_lowers(steps[0], seen, declared, scope, outer, item, prior);
        let (s2, d2) = v_step(steps[0], seen, declared, scope)->Ok_0;
        if uses_inputs(steps.drop_first()) {
            lemma_contains_grows(prior, step_ids(steps[0]), "task_inputs"@);
        }
        lemma_steps_conds(
            steps.drop_first(),
            s2,
            d2,
            scope,
            outer,
            item,
            prior + step_ids(steps[0]),
            b,
            all,
            off + m,
        );
        assert forall|k: int|
            0 <= k < seg.len() && (#[trigger] seg[k]).kind == CirNodeKind::Conditional implies node_kind_s(
            seg[k],
            all,
        ) is None by {
            if k < m {
                assert(seg[k] == a[k]);
            } else {
                assert(seg[k] == b[k - m]);
            }
        }
    }
}

/// The program a valid plan lowers to passes every structural stage of
/// CIR validation (entry, child links, else-branches, capabilities, control
/// semantics, effects, reachability) and invokes a primitive.
pub proof fn lemma_valid_plan_structural(
    plan: PlanIR,
    task: TaskSpec,
    task_id: TaskId,
    program_id: ProgramId,
    p: CirProgram,
)
    requires
        plan_valid(plan),
        plan_program(plan, task, task_id, program_id, p),
    ensures
        structural_s(p) is None,
        has_primitive(p.nodes@),
{
    let pre = plan_prefix(plan).len() as int;
    let nodes = p.nodes@;
    let n = nodes.len() as int;
    let seg = nodes.subrange(pre, n - 1);
    let steps = plan.steps@;
    lemma_valid_plan_program_sound(plan, task, task_id, program_id, p);
    assert(v_steps(steps, seq![], seq![], None) is Ok);
    lemma_valid_steps_shape(steps, seq![], seq![], None);
    lemma_no_root_container(steps);
    lemma_valid_plan_reachable(plan, task, task_id, program_id, p);
    assert forall|x: Seq<char>| #[trigger]
        lookup(visible_of(seq![], None), x) == lookup(seq![] + seq![], x) by {
        assert(seq![] + seq![] =~= Seq::<OutView>::empty());
    }
    if uses_inputs(steps) {
        assert(plan_prefix(plan)[0] == "task_inputs"@);
    }
    assert(Seq::<OutView>::empty() + Seq::<OutView>::empty() =~= Seq::<OutView>::empty());
    assert(placed(seg, nodes, pre)) by {
        assert forall|k: int| 0 <= k < seg.len() implies nodes[pre + k] == #[trigger] seg[k] by {}
    }
    lemma_steps_conds(steps, seq![], seq![], None, seq![], None, plan_prefix(plan), seg, nodes, pre);
    assert forall|k: int|
        0 <= k < nodes.len() && (#[trigger] nodes[k]).kind == CirNodeKind::Conditional implies node_kind_s(
        nodes[k],
        nodes,
    ) is None by {
        if pre <= k < n - 1 {
            assert(nodes[k] == seg[k - pre]);
        } else if k < pre {
            assert(injector_ok(nodes[0], task));
        }
    }
    lemma_valid_plan_control(plan, task, task_id, program_id, p);
}

/// Lowers a plan and re-validates the result as a CIR program. A valid plan
/// always compiles (unless a foreach reads task inputs whose paths hold a
/// `$`): it lowers, and its program passes every stage of CIR validation.
/// Otherwise the re-validation reports the first CIR rule the lowered program
/// breaks. When the data contract walk of the lowered program would descend
/// forever (a cycle of child links), the program is returned as lowered.
pub fn compile_plan(plan: &PlanIR, task: &TaskSpec, task_id: TaskId, program_id: ProgramId) -> (r:
    Result<CirProgram, PlanCompileError>)
    ensures
        plan_valid(*plan) ==> plan_lower_err(*plan) is None,
        plan_valid(*plan) && (uses_inputs(plan.steps@) ==> plain_paths(*task)) ==> r is Ok && semantic_ends(
            r->Ok_0,
        ) && semantic_s(r->Ok_0) is None,
        match plan_lower_err(*plan) {
            Some(e) => r is Err && r->Err_0.message@ == e,
            None => match r {
                Ok(p) => plan_program(*plan, *task, task_id, program_id, p) && (semantic_ends(p)
                    ==> semantic_s(p) is None),
                Err(e) => exists|p: CirProgram, ce: CompilerError|
                    #![trigger plan_program(*plan, *task, task_id, program_id, p), err_is(ce, semantic_s(p).unwrap())]
                    plan_program(*plan, *task, task_id, program_id, p) && semantic_ends(p)
                        && semantic_s(p) is Some && err_is(ce, semantic_s(p).unwrap())
                        && e.message@ == compiler_error_text(ce),
            },
        },
{
    proof {
        if plan_valid(*plan) {
            lemma_valid_plan_lowers(*plan);
        }
    }
    let program = match lower_plan(plan, task, task_id, program_id) {
        Err(e) => {
            return Err(e);
        },
        Ok(p) => p,
    };
    proof {
        if plan_valid(*plan) && (uses_inputs(plan.steps@) ==> plain_paths(*task)) {
            lemma_valid_plan_structural(*plan, *task, task_id, program_id, program);
            crate::lowered::lemma_valid_plan_contract(*plan, *task, task_id, program_id, program);
        }
    }
    match validate_cir_bounded(&program) {
        None => {
            return Ok(program);
        },
        Some(Err(e)) => {
            return Err(PlanCompileError { message: e.to_text() });
        },
        Some(Ok(())) => {},
    }
    match data_contract_walk(&program) {
        ContractWalk::Failed(e) => Err(PlanCompileError { message: e.to_text() }),
        _ => Ok(program),
    }
}

} // verus!
