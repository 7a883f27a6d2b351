//! Plan IR: the intent-level program plan and its validation.
//!
//! A valid plan only references prior steps' declared outputs, the special
//! `inputs` source, and the `item` binding inside a `foreach` body.

use vstd::prelude::*;

use crate::expr::{collect_identifiers, idents, lemma_parse_wf, parse, parse_spec};
use crate::refs::{extract_text_refs, text_refs, unref_from, unref_text, views};
use crate::text::{
    all_ws, chars_of, is_ascii_alnum, is_ascii_alpha, is_blank, push_text, str_eq, string_of,
    trim_bounds, trim_seq, trim_start_seq,
};
use crate::types::{FieldSpec, fields_view};

verus! {

/// The binding a `foreach` body sees for the current item.
pub const ITEM_VAR: &'static str = "item";

/// The special list source naming the task's declared input paths.
pub const INPUTS_SOURCE: &'static str = "inputs";

// ── Plan IR ─────────────────────────────────────────────────────────────────

/// Intent-level program plan.
pub struct PlanIR {
    pub goal: String,
    pub steps: Vec<PlanStep>,
    pub data_flow: Vec<DataFlowDecl>,
    pub control_flow: Vec<ControlDecl>,
}

/// The kind of a plan step.
#[derive(Debug, Clone, Copy, PartialEq, Eq, Structural)]
pub enum StepKind {
    Primitive,
    Foreach,
    Conditional,
    Retry,
}

/// A single plan step.
pub struct PlanStep {
    pub name: String,
    pub kind: StepKind,
    pub description: Option<String>,
    pub capability: Option<String>,
    pub code: Option<String>,
    pub over: Option<String>,
    pub condition: Option<String>,
    pub input_bindings: Vec<BindingRef>,
    pub output: Option<StepOutput>,
    pub body: Vec<PlanStep>,
    pub retry: Option<RetrySpec>,
    pub write_path: Option<String>,
}

/// `param` is bound to the output `binding` declared by step `source`.
pub struct BindingRef {
    pub param: String,
    pub source: String,
    pub binding: String,
}

/// Declared output of a plan step.
pub struct StepOutput {
    pub name: String,
    pub type_label: String,
    pub fields: Vec<FieldSpec>,
}

/// Redundant data-flow declaration.
pub struct DataFlowDecl {
    pub from_step: String,
    pub to_step: String,
    pub binding: String,
}

/// Redundant control-flow declaration.
pub struct ControlDecl {
    pub step: String,
    pub kind: String,
    pub over: Option<String>,
    pub condition: Option<String>,
}

/// Retry policy declaration for a retry step.
pub struct RetrySpec {
    pub max_attempts: u32,
}

// ── Views and helpers ───────────────────────────────────────────────────────

/// The view of a declared output: name, type name and field schema.
pub struct OutView {
    pub name: Seq<char>,
    pub ty: Seq<char>,
    pub fields: Seq<(Seq<char>, Seq<char>)>,
}

pub open spec fn out_view(o: StepOutput) -> OutView {
    OutView { name: o.name@, ty: o.type_label@, fields: fields_view(o.fields@) }
}

pub open spec fn scope_view(s: Seq<&StepOutput>) -> Seq<OutView> {
    s.map_values(|o: &StepOutput| out_view(*o))
}

/// The binding named `name` in a scope; later declarations win.
pub open spec fn lookup(sc: Seq<OutView>, name: Seq<char>) -> Option<OutView>
    decreases sc.len(),
{
    if sc.len() == 0 {
        None
    } else if sc.last().name == name {
        Some(sc.last())
    } else {
        lookup(sc.drop_last(), name)
    }
}

/// Identifier shape: an ASCII letter or `_`, then ASCII letters, digits or `_`.
pub open spec fn is_ident(s: Seq<char>) -> bool {
    &&& s.len() > 0
    &&& (is_ascii_alpha(s[0]) || s[0] == '_')
    &&& forall|k: int| 1 <= k < s.len() ==> is_ascii_alnum(#[trigger] s[k]) || s[k] == '_'
}

pub open spec fn starts_with(s: Seq<char>, p: Seq<char>) -> bool {
    p.len() <= s.len() && s.take(p.len() as int) == p
}

/// Whether a type name denotes a list.
pub open spec fn is_list_ty(t: Seq<char>) -> bool {
    starts_with(trim_start_seq(t), "List<"@) || t == "List"@
}

/// The element type of a `List<T>` type name (`Any` otherwise).
pub open spec fn element_ty(t: Seq<char>) -> Seq<char> {
    let u = trim_seq(t);
    if starts_with(u, "List<"@) {
        let inner = u.skip(5);
        if inner.len() > 0 && inner.last() == '>' {
            inner.drop_last()
        } else {
            inner
        }
    } else {
        "Any"@
    }
}

/// The `.`-separated parts of a text (as `str::split('.')`).
pub open spec fn split_dot(s: Seq<char>) -> Seq<Seq<char>>
    decreases s.len(),
{
    if s.len() == 0 {
        seq![seq![]]
    } else {
        let r = split_dot(s.drop_last());
        if s.last() == '.' {
            r.push(seq![])
        } else {
            r.update(r.len() - 1, r.last().push(s.last()))
        }
    }
}

pub proof fn lemma_split_dot_nonempty(s: Seq<char>)
    ensures
        split_dot(s).len() >= 1,
    decreases s.len(),
{
    if s.len() > 0 {
        lemma_split_dot_nonempty(s.drop_last());
    }
}

/// The type name of the first field called `f`.
pub open spec fn find_field(fields: Seq<(Seq<char>, Seq<char>)>, f: Seq<char>) -> Option<Seq<char>>
    decreases fields.len(),
{
    if fields.len() == 0 {
        None
    } else if fields[0].0 == f {
        Some(fields[0].1)
    } else {
        find_field(fields.drop_first(), f)
    }
}

pub open spec fn allowed_capability(c: Seq<char>) -> bool {
    c == "search"@ || c == "read_file"@ || c == "write_file"@ || c == "execute_python"@ || c
        == "summarize"@ || c == "flaky_search"@ || c == "list_source"@ || c == "irreversible"@ || c
        == "unstable_search"@
}

pub open spec fn allowed_list() -> Seq<char> {
    "search, read_file, write_file, execute_python, summarize, flaky_search, list_source, irreversible, unstable_search"@
}

pub open spec fn step_msg(name: Seq<char>, tail: Seq<char>) -> Seq<char> {
    "step '"@ + name + "': "@ + tail
}

pub open spec fn opt_text(o: Option<String>) -> Seq<char> {
    match o {
        Some(s) => s@,
        None => seq![],
    }
}

// ── Validation specification ───────────────────────────────────────────────

/// First failing field path of a reference, if any.
pub open spec fn check_fields_s(
    step_name: Seq<char>,
    raw: Seq<char>,
    source: Seq<char>,
    name: Seq<char>,
    fields: Seq<(Seq<char>, Seq<char>)>,
    rest: Seq<Seq<char>>,
) -> Option<Seq<char>>
    decreases rest.len(),
{
    if rest.len() == 0 {
        None
    } else {
        match find_field(fields, rest[0]) {
            None => Some(
                step_msg(
                    step_name,
                    "reference '$"@ + raw + "' (source '"@ + source
                        + "') does not resolve: binding '"@ + name + "' has no field '"@ + rest[0]
                        + "'"@,
                ),
            ),
            Some(ty) => if ty == "List"@ || ty == "Record"@ {
                Some(
                    step_msg(
                        step_name,
                        "field '"@ + rest[0] + "' of '"@ + name
                            + "' requires indexing (not supported)"@,
                    ),
                )
            } else {
                check_fields_s(step_name, raw, source, name, fields, rest.drop_first())
            },
        }
    }
}

/// Resolution of a single `${raw}` reference against the visible bindings.
pub open spec fn check_ref_s(
    step_name: Seq<char>,
    raw: Seq<char>,
    visible: Seq<OutView>,
    source: Seq<char>,
) -> Option<Seq<char>> {
    let parts = split_dot(raw);
    let name = parts[0];
    match lookup(visible, name) {
        None => Some(
            step_msg(
                step_name,
                "reference '$"@ + raw + "' (source '"@ + source
                    + "') does not resolve: no binding '"@ + name + "' is visible here"@,
            ),
        ),
        Some(sp) => check_fields_s(step_name, raw, source, name, sp.fields, parts.drop_first()),
    }
}

/// First unresolved reference among `refs`.
pub open spec fn check_refs_s(
    step_name: Seq<char>,
    refs: Seq<Seq<char>>,
    visible: Seq<OutView>,
    source: Seq<char>,
) -> Option<Seq<char>>
    decreases refs.len(),
{
    if refs.len() == 0 {
        None
    } else {
        match check_ref_s(step_name, refs[0], visible, source) {
            Some(e) => Some(e),
            None => check_refs_s(step_name, refs.drop_first(), visible, source),
        }
    }
}

pub open spec fn incomplete_field(fields: Seq<FieldSpec>) -> bool {
    exists|k: int|
        0 <= k < fields.len() && (all_ws(#[trigger] fields[k].name@) || all_ws(
            fields[k].type_label@,
        ))
}

/// Output name/type sanity.
pub open spec fn check_output_s(out: StepOutput, step_name: Seq<char>) -> Option<Seq<char>> {
    if all_ws(out.name@) || all_ws(out.type_label@) {
        Some(step_msg(step_name, "output must have non-empty name and typeName"@))
    } else if !is_ident(out.name@) {
        Some(
            step_msg(
                step_name,
                "output name '"@ + out.name@ + "' must be a valid identifier"@,
            ),
        )
    } else if out.name@ == "item"@ {
        Some(
            step_msg(
                step_name,
                "output name cannot be 'item' (reserved for loop iteration)"@,
            ),
        )
    } else if incomplete_field(out.fields@) {
        Some(step_msg(step_name, "output '"@ + out.name@ + "' has an incomplete field schema"@))
    } else {
        None
    }
}

/// The list type that a foreach iterates.
pub open spec fn list_source_s(over: Seq<char>, visible: Seq<OutView>, step_name: Seq<char>) -> Result<
    Seq<char>,
    Seq<char>,
> {
    if over == "inputs"@ {
        Ok("List<String>"@)
    } else {
        match lookup(visible, over) {
            None => Err(
                step_msg(step_name, "foreach over '"@ + over + "' is not a visible step output"@),
            ),
            Some(o) => if !is_list_ty(o.ty) {
                Err(
                    step_msg(
                        step_name,
                        "foreach over '"@ + over + "' has output type '"@ + o.ty
                            + "' which is not a List"@,
                    ),
                )
            } else {
                Ok(o.ty)
            },
        }
    }
}

/// Output of the last body step that declares one.
pub open spec fn last_output(body: Seq<PlanStep>) -> Option<StepOutput>
    decreases body.len(),
{
    if body.len() == 0 {
        None
    } else if body.last().output is Some {
        body.last().output
    } else {
        last_output(body.drop_last())
    }
}

/// Checks of the input bindings of a step.
pub open spec fn bindings_s(
    step_name: Seq<char>,
    bs: Seq<BindingRef>,
    visible: Seq<OutView>,
) -> Option<Seq<char>>
    decreases bs.len(),
{
    if bs.len() == 0 {
        None
    } else {
        let b = bs[0];
        match check_ref_s(step_name, b.binding@, visible, b.source@) {
            Some(e) => Some(e),
            None => match lookup(visible, b.binding@) {
                None => Some(
                    step_msg(
                        step_name,
                        "binding '"@ + b.binding@ + "' from source '"@ + b.source@
                            + "' is not visible"@,
                    ),
                ),
                Some(p) => if p.ty.len() == 0 {
                    Some(
                        step_msg(
                            step_name,
                            "source '"@ + b.source@ + "' output '"@ + b.binding@
                                + "' has empty type_name"@,
                        ),
                    )
                } else if p.name != b.binding@ {
                    Some(
                        step_msg(
                            step_name,
                            "binding '"@ + b.binding@ + "' does not match source '"@ + b.source@
                                + "' declared output '"@ + p.name + "'"@,
                        ),
                    )
                } else {
                    bindings_s(step_name, bs.drop_first(), visible)
                },
            },
        }
    }
}

/// The item binding of a foreach body.
pub open spec fn item_view(list_ty: Seq<char>) -> OutView {
    OutView { name: "item"@, ty: element_ty(list_ty), fields: seq![] }
}

/// Kind-specific checks of a primitive / retry step.
pub open spec fn primitive_s(step: PlanStep, visible: Seq<OutView>) -> Option<Seq<char>> {
    let name = step.name@;
    match step.capability {
        None => Some(step_msg(name, "primitive/retry steps require a capability"@)),
        Some(cap) => if !allowed_capability(cap@) {
            Some(
                step_msg(
                    name,
                    "capability '"@ + cap@ + "' is not in the allowed set "@ + allowed_list(),
                ),
            )
        } else if cap@ == "write_file"@ && all_ws(opt_text(step.write_path)) {
            Some(step_msg(name, "write_file requires a non-empty writePath"@))
        } else if cap@ != "write_file"@ && step.write_path is Some {
            Some(step_msg(name, "writePath is only valid on write_file steps"@))
        } else if step.kind == StepKind::Retry && step.retry is None {
            Some(step_msg(name, "retry step requires a retry policy"@))
        } else if step.kind == StepKind::Retry && step.retry.unwrap().max_attempts < 2 {
            Some(step_msg(name, "retry.maxAttempts must be >= 2"@))
        } else if step.kind != StepKind::Retry && step.retry is Some {
            Some(step_msg(name, "retry policy is only valid on retry steps"@))
        } else if cap@ == "execute_python"@ && all_ws(opt_text(step.code)) {
            Some(step_msg(name, "execute_python requires non-empty code"@))
        } else if check_refs_s(name, text_refs(opt_text(step.code)), visible, name) is Some {
            check_refs_s(name, text_refs(opt_text(step.code)), visible, name)
        } else if check_refs_s(name, text_refs(opt_text(step.write_path)), visible, name) is Some {
            check_refs_s(name, text_refs(opt_text(step.write_path)), visible, name)
        } else if step.body.len() > 0 {
            Some(step_msg(name, "primitive/retry steps cannot have a body"@))
        } else {
            None
        }
    }
}

/// The first name that is `item` or no visible binding.
pub open spec fn unbound_name(ids: Seq<Seq<char>>, visible: Seq<OutView>) -> Option<Seq<char>>
    decreases ids.len(),
{
    if ids.len() == 0 {
        None
    } else if ids[0] == "item"@ || lookup(visible, ids[0]) is None {
        Some(ids[0])
    } else {
        unbound_name(ids.drop_first(), visible)
    }
}

/// Validation of one step (recursively for its body). On success, the names
/// seen so far and the bindings declared in the enclosing scope.
pub open spec fn v_step(
    step: PlanStep,
    seen: Seq<Seq<char>>,
    declared: Seq<OutView>,
    scope: Option<Seq<OutView>>,
) -> Result<(Seq<Seq<char>>, Seq<OutView>), Seq<char>>
    decreases step, 1int,
{
    let path = if scope is Some {
        "step in a foreach body"@
    } else {
        "top-level step"@
    };
    let name = step.name@;
    let visible = match scope {
        Some(s) => declared + s,
        None => declared,
    };
    if !is_ident(name) {
        Err(path + " '"@ + name + "': name must be a valid identifier (letters, digits, underscore)"@)
    } else if seen.contains(name) {
        Err(path + " name '"@ + name + "' is duplicated (names must be globally unique)"@)
    } else if name == "plan_root"@ || name == "task_inputs"@ {
        Err(path + " name '"@ + name + "' is reserved for the compiler"@)
    } else {
        let kind_result: Result<Seq<Seq<char>>, Seq<char>> = match step.kind {
            StepKind::Primitive | StepKind::Retry => match primitive_s(step, visible) {
                Some(e) => Err(e),
                None => Ok(seen.push(name)),
            },
            StepKind::Foreach => match step.over {
                None => Err(step_msg(name, "foreach step requires an 'over' source"@)),
                Some(over) => match list_source_s(over@, visible, name) {
                    Err(e) => Err(e),
                    Ok(ty) => if step.body.len() == 0 {
                        Err(step_msg(name, "foreach step requires a non-empty body"@))
                    } else if lookup(visible, "item"@) is Some {
                        Err(
                            step_msg(
                                name,
                                "foreach item binding 'item' would shadow an outer binding"@,
                            ),
                        )
                    } else {
                        match v_steps(
                            step.body@,
                            seen.push(name),
                            seq![],
                            Some(visible.push(item_view(ty))),
                        ) {
                            Err(e) => Err(e),
                            Ok((seen2, _)) => match step.output {
                                None => Ok(seen2),
                                Some(out) => match last_output(step.body@) {
                                    Some(last) => if out.type_label@ != "List<"@
                                        + last.type_label@ + ">"@ {
                                        Err(
                                            step_msg(
                                                name,
                                                "foreach aggregate output type '"@ + out.type_label@
                                                    + "' must be '"@ + ("List<"@
                                                    + last.type_label@ + ">"@)
                                                    + "' (last body step output)"@,
                                            ),
                                        )
                                    } else {
                                        match check_output_s(out, name) {
                                            Some(e) => Err(e),
                                            None => Ok(seen2),
                                        }
                                    },
                                    None => Err(
                                        step_msg(
                                            name,
                                            "foreach declares output '"@ + out.name@
                                                + "' but no body step produces a value"@,
                                        ),
                                    ),
                                },
                            },
                        }
                    },
                },
            },
            StepKind::Conditional => match step.condition {
                None => Err(step_msg(name, "conditional step requires a condition"@)),
                Some(cond) => if all_ws(cond@) {
                    Err(step_msg(name, "condition must not be empty"@))
                } else if check_refs_s(name, text_refs(cond@), visible, name) is Some {
                    Err(check_refs_s(name, text_refs(cond@), visible, name).unwrap())
                } else if parse_spec(unref_from(cond@, 0)) is None {
                    Err(step_msg(name, "condition is not a valid expression"@))
                } else if unbound_name(
                    idents(parse_spec(unref_from(cond@, 0)).unwrap()),
                    visible,
                ) is Some {
                    Err(
                        step_msg(
                            name,
                            "condition names '"@ + unbound_name(
                                idents(parse_spec(unref_from(cond@, 0)).unwrap()),
                                visible,
                            ).unwrap() + "', which is not a visible output"@,
                        ),
                    )
                } else if step.body.len() == 0 {
                    Err(step_msg(name, "conditional step requires a non-empty body"@))
                } else {
                    match v_steps(step.body@, seen.push(name), seq![], Some(visible)) {
                        Err(e) => Err(e),
                        Ok((seen2, _)) => if step.output is Some {
                            Err(
                                step_msg(
                                    name,
                                    "conditional steps cannot declare outputs (branch outputs do not escape)"@,
                                ),
                            )
                        } else {
                            Ok(seen2)
                        },
                    }
                },
            },
        };
        match kind_result {
            Err(e) => Err(e),
            Ok(seen2) => match bindings_s(name, step.input_bindings@, visible) {
                Some(e) => Err(e),
                None => match step.output {
                    None => Ok((seen2, declared)),
                    Some(out) => match check_output_s(out, name) {
                        Some(e) => Err(e),
                        None => if lookup(visible, out.name@) is Some {
                            Err(
                                step_msg(
                                    name,
                                    "output '"@ + out.name@ + "' would shadow an existing binding"@,
                                ),
                            )
                        } else {
                            Ok((seen2, declared.push(out_view(out))))
                        },
                    },
                },
            },
        }
    }
}

/// Validation of a step list, threading seen names and declared bindings.
pub open spec fn v_steps(
    steps: Seq<PlanStep>,
    seen: Seq<Seq<char>>,
    declared: Seq<OutView>,
    scope: Option<Seq<OutView>>,
) -> Result<(Seq<Seq<char>>, Seq<OutView>), Seq<char>>
    decreases steps, 0int,
{
    if steps.len() == 0 {
        Ok((seen, declared))
    } else {
        match v_step(steps[0], seen, declared, scope) {
            Err(e) => Err(e),
            Ok((s2, d2)) => v_steps(steps.drop_first(), s2, d2, scope),
        }
    }
}


// ── Executable helpers ─────────────────────────────────────────────────────

/// Whether `s` is identifier-shaped.
pub fn is_identifier(s: &str) -> (b: bool)
    ensures
        b == is_ident(s@),
{
    let v = chars_of(s);
    if v.len() == 0 {
        return false;
    }
    let c0 = v[0];
    if !(('a' <= c0 && c0 <= 'z') || ('A' <= c0 && c0 <= 'Z') || c0 == '_') {
        return false;
    }
    let mut i: usize = 1;
    while i < v.len()
        invariant
            v@ == s@,
            1 <= i <= v@.len(),
            forall|k: int| 1 <= k < i ==> is_ascii_alnum(#[trigger] v@[k]) || v@[k] == '_',
        decreases v@.len() - i,
    {
        let c = v[i];
        if !(crate::text::is_ascii_alphanumeric(c) || c == '_') {
            return false;
        }
        i = i + 1;
    }
    true
}

/// Whether `v` starts with the characters of `p`.
pub fn chars_start_with(v: &Vec<char>, p: &str) -> (b: bool)
    ensures
        b == starts_with(v@, p@),
{
    let pv = chars_of(p);
    if pv.len() > v.len() {
        return false;
    }
    let mut i: usize = 0;
    while i < pv.len()
        invariant
            pv@ == p@,
            pv@.len() <= v@.len(),
            i <= pv@.len(),
            forall|k: int| 0 <= k < i ==> v@[k] == pv@[k],
        decreases pv@.len() - i,
    {
        if v[i] != pv[i] {
            assert(v@.take(pv@.len() as int)[i as int] != pv@[i as int]);
            return false;
        }
        i = i + 1;
    }
    assert(v@.take(pv@.len() as int) =~= pv@);
    true
}

pub proof fn lemma_trim_start_is_skip(s: Seq<char>) -> (i: int)
    ensures
        0 <= i <= s.len(),
        trim_start_seq(s) == s.skip(i),
    decreases s.len(),
{
    if s.len() > 0 && crate::text::is_ws(s[0]) {
        let j = lemma_trim_start_is_skip(s.drop_first());
        assert(s.drop_first().skip(j) =~= s.skip(j + 1));
        j + 1
    } else {
        assert(s.skip(0) =~= s);
        0
    }
}

/// Whether a type name denotes a list.
pub fn is_list_type(t: &str) -> (b: bool)
    ensures
        b == is_list_ty(t@),
{
    let v = chars_of(t);
    let mut i: usize = 0;
    while i < v.len() && crate::text::is_whitespace(v[i])
        invariant
            v@ == t@,
            i <= v@.len(),
            forall|k: int| 0 <= k < i ==> crate::text::is_ws(#[trigger] v@[k]),
        decreases v@.len() - i,
    {
        i = i + 1;
    }
    proof {
        crate::text::lemma_trim_start_skip(v@, i as int);
    }
    let rest = crate::text::slice_chars(&v, i, v.len());
    assert(rest@ =~= v@.skip(i as int));
    chars_start_with(&rest, "List<") || str_eq(t, "List")
}

/// The element type of a `List<T>` type name (`Any` otherwise).
pub fn element_type(t: &str) -> (r: String)
    ensures
        r@ == element_ty(t@),
{
    let v = chars_of(t);
    let (a, b) = trim_bounds(&v);
    let u = crate::text::slice_chars(&v, a, b);
    if chars_start_with(&u, "List<") {
        proof {
            reveal_strlit("List<");
        }
        let n = u.len();
        if n > 5 && u[n - 1] == '>' {
            let inner = crate::text::slice_chars(&u, 5, n - 1);
            assert(inner@ =~= u@.skip(5).drop_last());
            crate::text::string_from_chars(inner.as_slice())
        } else {
            let inner = crate::text::slice_chars(&u, 5, n);
            assert(inner@ =~= u@.skip(5));
            crate::text::string_from_chars(inner.as_slice())
        }
    } else {
        string_of("Any")
    }
}

/// The `.`-separated parts of `s`.
pub fn split_on_dot(s: &str) -> (r: Vec<String>)
    ensures
        views(r@) == split_dot(s@),
{
    let v = chars_of(s);
    let mut parts: Vec<String> = Vec::new();
    let mut cur: Vec<char> = Vec::new();
    let mut i: usize = 0;
    assert(v@.take(0) =~= seq![]);
    assert(views(parts@).push(cur@) =~= seq![seq![]]);
    while i < v.len()
        invariant
            v@ == s@,
            i <= v@.len(),
            views(parts@).push(cur@) == split_dot(v@.take(i as int)),
        decreases v@.len() - i,
    {
        let c = v[i];
        let ghost before = views(parts@).push(cur@);
        assert(v@.take(i + 1).drop_last() =~= v@.take(i as int));
        if c == '.' {
            let part = crate::text::string_from_chars(cur.as_slice());
            parts.push(part);
            cur = Vec::new();
            assert(views(parts@).push(cur@) =~= before.push(seq![]));
        } else {
            cur.push(c);
            assert(views(parts@).push(cur@) =~= before.update(
                before.len() - 1,
                before.last().push(c),
            ));
        }
        i = i + 1;
    }
    assert(v@.take(v@.len() as int) =~= v@);
    let last = crate::text::string_from_chars(cur.as_slice());
    parts.push(last);
    assert(views(parts@) =~= split_dot(v@));
    parts
}

/// The binding named `name` in a scope (later declarations win).
pub fn lookup_scope<'a>(sc: &Vec<&'a StepOutput>, name: &str) -> (r: Option<&'a StepOutput>)
    ensures
        match lookup(scope_view(sc@), name@) {
            None => r is None,
            Some(o) => r is Some && out_view(*r.unwrap()) == o,
        },
{
    let mut i: usize = sc.len();
    assert(sc@.take(sc@.len() as int) =~= sc@);
    while i > 0
        invariant
            i <= sc@.len(),
            lookup(scope_view(sc@), name@) == lookup(scope_view(sc@.take(i as int)), name@),
        decreases i,
    {
        let o = sc[i - 1];
        assert(scope_view(sc@.take(i as int)).drop_last() =~= scope_view(sc@.take(i - 1)));
        assert(scope_view(sc@.take(i as int)).last() == out_view(*o));
        if str_eq(o.name.as_str(), name) {
            return Some(o);
        }
        i = i - 1;
    }
    None
}

/// The first identifier that is `item` or names no visible binding.
pub fn first_unbound(ids: &Vec<String>, visible: &Vec<&StepOutput>) -> (r: Option<String>)
    ensures
        opt_text_view(r) == unbound_name(views(ids@), scope_view(visible@)),
{
    let mut i: usize = 0;
    assert(views(ids@).skip(0) =~= views(ids@));
    while i < ids.len()
        invariant
            i <= ids@.len(),
            unbound_name(views(ids@), scope_view(visible@)) == unbound_name(
                views(ids@).skip(i as int),
                scope_view(visible@),
            ),
        decreases ids@.len() - i,
    {
        let x = ids[i].as_str();
        assert(views(ids@).skip(i as int)[0] == x@);
        assert(views(ids@).skip(i as int).drop_first() =~= views(ids@).skip(i + 1));
        if str_eq(x, "item") || lookup_scope(visible, x).is_none() {
            return Some(ids[i].clone());
        }
        i = i + 1;
    }
    None
}

pub open spec fn opt_text_view(o: Option<String>) -> Option<Seq<char>> {
    match o {
        Some(s) => Some(s@),
        None => None,
    }
}

/// The type name of the first field named `f`.
pub fn find_field_exec<'a>(fields: &'a Vec<FieldSpec>, f: &str) -> (r: Option<&'a String>)
    ensures
        match find_field(fields_view(fields@), f@) {
            None => r is None,
            Some(t) => r is Some && r.unwrap()@ == t,
        },
{
    let mut i: usize = 0;
    assert(fields_view(fields@).skip(0) =~= fields_view(fields@));
    while i < fields.len()
        invariant
            i <= fields@.len(),
            find_field(fields_view(fields@), f@) == find_field(
                fields_view(fields@).skip(i as int),
                f@,
            ),
        decreases fields@.len() - i,
    {
        assert(fields_view(fields@).skip(i as int).drop_first() =~= fields_view(fields@).skip(
            i + 1,
        ));
        if str_eq(fields[i].name.as_str(), f) {
            return Some(&fields[i].type_label);
        }
        i = i + 1;
    }
    None
}

/// "step '{name}': {tail}"
pub fn step_message(name: &str, tail: &str) -> (r: String)
    ensures
        r@ == step_msg(name@, tail@),
{
    let mut m = string_of("step '");
    push_text(&mut m, name);
    push_text(&mut m, "': ");
    push_text(&mut m, tail);
    m
}

pub open spec fn err_view(r: Result<(), String>) -> Option<Seq<char>> {
    match r {
        Ok(_) => None,
        Err(e) => Some(e@),
    }
}

/// Resolves a single binding reference against the visible bindings.
pub fn check_ref(step_name: &str, raw: &str, visible: &Vec<&StepOutput>, source: &str) -> (r:
    Result<(), String>)
    ensures
        err_view(r) == check_ref_s(step_name@, raw@, scope_view(visible@), source@),
{
    let parts = split_on_dot(raw);
    proof {
        lemma_split_dot_nonempty(raw@);
    }
    let name = parts[0].as_str();
    assert(name@ == split_dot(raw@)[0]);
    match lookup_scope(visible, name) {
        None => {
            let mut t = string_of("reference '$");
            push_text(&mut t, raw);
            push_text(&mut t, "' (source '");
            push_text(&mut t, source);
            push_text(&mut t, "') does not resolve: no binding '");
            push_text(&mut t, name);
            push_text(&mut t, "' is visible here");
            Err(step_message(step_name, t.as_str()))
        },
        Some(spec) => {
            let ghost rest_all = split_dot(raw@).drop_first();
            let mut j: usize = 1;
            assert(views(parts@).skip(1) =~= rest_all);
            while j < parts.len()
                invariant
                    1 <= j <= parts@.len(),
                    views(parts@) == split_dot(raw@),
                    name@ == split_dot(raw@)[0],
                    rest_all == split_dot(raw@).drop_first(),
                    lookup(scope_view(visible@), name@) is Some,
                    out_view(*spec) == lookup(scope_view(visible@), name@).unwrap(),
                    check_ref_s(step_name@, raw@, scope_view(visible@), source@)
                        == check_fields_s(
                        step_name@,
                        raw@,
                        source@,
                        name@,
                        fields_view(spec.fields@),
                        rest_all,
                    ),
                    check_fields_s(
                        step_name@,
                        raw@,
                        source@,
                        name@,
                        fields_view(spec.fields@),
                        rest_all,
                    ) == check_fields_s(
                        step_name@,
                        raw@,
                        source@,
                        name@,
                        fields_view(spec.fields@),
                        views(parts@).skip(j as int),
                    ),
                decreases parts@.len() - j,
            {
                let field = parts[j].as_str();
                assert(views(parts@).skip(j as int)[0] == field@);
                assert(views(parts@).skip(j as int).drop_first() =~= views(parts@).skip(j + 1));
                match find_field_exec(&spec.fields, field) {
                    None => {
                        let mut t = string_of("reference '$");
                        push_text(&mut t, raw);
                        push_text(&mut t, "' (source '");
                        push_text(&mut t, source);
                        push_text(&mut t, "') does not resolve: binding '");
                        push_text(&mut t, name);
                        push_text(&mut t, "' has no field '");
                        push_text(&mut t, field);
                        push_text(&mut t, "'");
                        return Err(step_message(step_name, t.as_str()));
                    },
                    Some(ty) => {
                        if str_eq(ty.as_str(), "List") || str_eq(ty.as_str(), "Record") {
                            let mut t = string_of("field '");
                            push_text(&mut t, field);
                            push_text(&mut t, "' of '");
                            push_text(&mut t, name);
                            push_text(&mut t, "' requires indexing (not supported)");
                            return Err(step_message(step_name, t.as_str()));
                        }
                    },
                }
                j = j + 1;
            }
            assert(views(parts@).skip(j as int).len() == 0);
            Ok(())
        },
    }
}


/// Whether `s` consists of whitespace only.
pub fn is_all_ws(s: &str) -> (b: bool)
    ensures
        b == all_ws(s@),
{
    proof {
        crate::text::lemma_trim_empty_iff_all_ws(s@);
    }
    is_blank(s)
}

/// First unresolved reference among `refs`.
pub fn check_refs(step_name: &str, refs: &Vec<String>, visible: &Vec<&StepOutput>, source: &str) -> (r:
    Result<(), String>)
    ensures
        err_view(r) == check_refs_s(step_name@, views(refs@), scope_view(visible@), source@),
{
    let mut i: usize = 0;
    assert(views(refs@).skip(0) =~= views(refs@));
    while i < refs.len()
        invariant
            i <= refs@.len(),
            check_refs_s(step_name@, views(refs@), scope_view(visible@), source@)
                == check_refs_s(step_name@, views(refs@).skip(i as int), scope_view(visible@), source@),
        decreases refs@.len() - i,
    {
        assert(views(refs@).skip(i as int)[0] == refs@[i as int]@);
        assert(views(refs@).skip(i as int).drop_first() =~= views(refs@).skip(i + 1));
        let c = check_ref(step_name, refs[i].as_str(), visible, source);
        if c.is_err() {
            return c;
        }
        i = i + 1;
    }
    Ok(())
}

/// Output name/type sanity.
pub fn check_output(out: &StepOutput, step_name: &str) -> (r: Result<(), String>)
    ensures
        err_view(r) == check_output_s(*out, step_name@),
{
    if is_all_ws(out.name.as_str()) || is_all_ws(out.type_label.as_str()) {
        return Err(step_message(step_name, "output must have non-empty name and typeName"));
    }
    if !is_identifier(out.name.as_str()) {
        let mut t = string_of("output name '");
        push_text(&mut t, out.name.as_str());
        push_text(&mut t, "' must be a valid identifier");
        return Err(step_message(step_name, t.as_str()));
    }
    if str_eq(out.name.as_str(), "item") {
        return Err(
            step_message(step_name, "output name cannot be 'item' (reserved for loop iteration)"),
        );
    }
    let mut i: usize = 0;
    while i < out.fields.len()
        invariant
            i <= out.fields@.len(),
            !all_ws(out.name@),
            !all_ws(out.type_label@),
            is_ident(out.name@),
            out.name@ != "item"@,
            forall|k: int|
                0 <= k < i ==> !all_ws((#[trigger] out.fields@[k]).name@) && !all_ws(
                    out.fields@[k].type_label@,
                ),
        decreases out.fields@.len() - i,
    {
        let f = &out.fields[i];
        if is_all_ws(f.name.as_str()) || is_all_ws(f.type_label.as_str()) {
            assert(all_ws(out.fields@[i as int].name@) || all_ws(out.fields@[i as int].type_label@));
            assert(incomplete_field(out.fields@));
            let mut t = string_of("output '");
            push_text(&mut t, out.name.as_str());
            push_text(&mut t, "' has an incomplete field schema");
            return Err(step_message(step_name, t.as_str()));
        }
        i = i + 1;
    }
    assert(!incomplete_field(out.fields@));
    Ok(())
}

/// Resolves a foreach `over` source to its list type.
pub fn resolve_list_source(over: &str, visible: &Vec<&StepOutput>, step_name: &str) -> (r: Result<
    String,
    String,
>)
    ensures
        match list_source_s(over@, scope_view(visible@), step_name@) {
            Ok(t) => r is Ok && r->Ok_0@ == t,
            Err(e) => r is Err && r->Err_0@ == e,
        },
{
    if str_eq(over, "inputs") {
        return Ok(string_of("List<String>"));
    }
    match lookup_scope(visible, over) {
        None => {
            let mut t = string_of("foreach over '");
            push_text(&mut t, over);
            push_text(&mut t, "' is not a visible step output");
            Err(step_message(step_name, t.as_str()))
        },
        Some(o) => {
            if !is_list_type(o.type_label.as_str()) {
                let mut t = string_of("foreach over '");
                push_text(&mut t, over);
                push_text(&mut t, "' has output type '");
                push_text(&mut t, o.type_label.as_str());
                push_text(&mut t, "' which is not a List");
                Err(step_message(step_name, t.as_str()))
            } else {
                Ok(o.type_label.clone())
            }
        },
    }
}

/// Output of the last body step that declares one.
pub fn last_body_output(body: &Vec<PlanStep>) -> (r: Option<&StepOutput>)
    ensures
        match last_output(body@) {
            None => r is None,
            Some(o) => r is Some && *r.unwrap() == o,
        },
{
    let mut i: usize = body.len();
    assert(body@.take(body@.len() as int) =~= body@);
    while i > 0
        invariant
            i <= body@.len(),
            last_output(body@) == last_output(body@.take(i as int)),
        decreases i,
    {
        assert(body@.take(i as int).drop_last() =~= body@.take(i - 1));
        match &body[i - 1].output {
            Some(o) => {
                return Some(o);
            },
            None => {},
        }
        i = i - 1;
    }
    None
}

/// Checks of the input bindings of a step.
pub fn check_bindings(step_name: &str, bs: &Vec<BindingRef>, visible: &Vec<&StepOutput>) -> (r:
    Result<(), String>)
    ensures
        err_view(r) == bindings_s(step_name@, bs@, scope_view(visible@)),
{
    let mut i: usize = 0;
    assert(bs@.skip(0) =~= bs@);
    while i < bs.len()
        invariant
            i <= bs@.len(),
            bindings_s(step_name@, bs@, scope_view(visible@)) == bindings_s(
                step_name@,
                bs@.skip(i as int),
                scope_view(visible@),
            ),
        decreases bs@.len() - i,
    {
        assert(bs@.skip(i as int)[0] == bs@[i as int]);
        assert(bs@.skip(i as int).drop_first() =~= bs@.skip(i + 1));
        let b = &bs[i];
        let c = check_ref(step_name, b.binding.as_str(), visible, b.source.as_str());
        if c.is_err() {
            return c;
        }
        match lookup_scope(visible, b.binding.as_str()) {
            None => {
                let mut t = string_of("binding '");
                push_text(&mut t, b.binding.as_str());
                push_text(&mut t, "' from source '");
                push_text(&mut t, b.source.as_str());
                push_text(&mut t, "' is not visible");
                return Err(step_message(step_name, t.as_str()));
            },
            Some(p) => {
                if p.type_label.as_str().is_empty() {
                    let mut t = string_of("source '");
                    push_text(&mut t, b.source.as_str());
                    push_text(&mut t, "' output '");
                    push_text(&mut t, b.binding.as_str());
                    push_text(&mut t, "' has empty type_name");
                    return Err(step_message(step_name, t.as_str()));
                }
                if !str_eq(p.name.as_str(), b.binding.as_str()) {
                    let mut t = string_of("binding '");
                    push_text(&mut t, b.binding.as_str());
                    push_text(&mut t, "' does not match source '");
                    push_text(&mut t, b.source.as_str());
                    push_text(&mut t, "' declared output '");
                    push_text(&mut t, p.name.as_str());
                    push_text(&mut t, "'");
                    return Err(step_message(step_name, t.as_str()));
                }
            },
        }
        i = i + 1;
    }
    Ok(())
}


/// Whether `c` is one of the capabilities a plan may invoke.
pub fn is_allowed_capability(c: &str) -> (b: bool)
    ensures
        b == allowed_capability(c@),
{
    str_eq(c, "search") || str_eq(c, "read_file") || str_eq(c, "write_file") || str_eq(
        c,
        "execute_python",
    ) || str_eq(c, "summarize") || str_eq(c, "flaky_search") || str_eq(c, "list_source")
        || str_eq(c, "irreversible") || str_eq(c, "unstable_search")
}

/// Kind-specific checks of a primitive / retry step.
pub fn check_primitive(step: &PlanStep, visible: &Vec<&StepOutput>) -> (r: Result<(), String>)
    ensures
        err_view(r) == primitive_s(*step, scope_view(visible@)),
{
    let name = step.name.as_str();
    let cap = match &step.capability {
        None => {
            return Err(step_message(name, "primitive/retry steps require a capability"));
        },
        Some(c) => c.as_str(),
    };
    if !is_allowed_capability(cap) {
        let mut t = string_of("capability '");
        push_text(&mut t, cap);
        push_text(&mut t, "' is not in the allowed set ");
        push_text(
            &mut t,
            "search, read_file, write_file, execute_python, summarize, flaky_search, list_source, irreversible, unstable_search",
        );
        return Err(step_message(name, t.as_str()));
    }
    let is_write = str_eq(cap, "write_file");
    if is_write {
        let blank = match &step.write_path {
            Some(p) => is_all_ws(p.as_str()),
            None => {
                assert(all_ws(seq![]));
                true
            },
        };
        if blank {
            return Err(step_message(name, "write_file requires a non-empty writePath"));
        }
    } else if step.write_path.is_some() {
        return Err(step_message(name, "writePath is only valid on write_file steps"));
    }
    if step.kind == StepKind::Retry {
        match &step.retry {
            None => {
                return Err(step_message(name, "retry step requires a retry policy"));
            },
            Some(rp) => {
                if rp.max_attempts < 2 {
                    return Err(step_message(name, "retry.maxAttempts must be >= 2"));
                }
            },
        }
    } else if step.retry.is_some() {
        return Err(step_message(name, "retry policy is only valid on retry steps"));
    }
    if str_eq(cap, "execute_python") {
        let blank = match &step.code {
            Some(c) => is_all_ws(c.as_str()),
            None => {
                assert(all_ws(seq![]));
                true
            },
        };
        if blank {
            return Err(step_message(name, "execute_python requires non-empty code"));
        }
    }
    let code = match &step.code {
        Some(c) => c.as_str(),
        None => "",
    };
    proof {
        reveal_strlit("");
        assert(code@ == opt_text(step.code));
    }
    let refs = extract_text_refs(code);
    let c = check_refs(name, &refs, visible, name);
    if c.is_err() {
        return c;
    }
    let wp = match &step.write_path {
        Some(w) => w.as_str(),
        None => "",
    };
    proof {
        reveal_strlit("");
        assert(wp@ == opt_text(step.write_path));
    }
    let wrefs = extract_text_refs(wp);
    let c = check_refs(name, &wrefs, visible, name);
    if c.is_err() {
        return c;
    }
    if step.body.len() > 0 {
        return Err(step_message(name, "primitive/retry steps cannot have a body"));
    }
    Ok(())
}

pub open spec fn opt_scope(scope: Option<&Vec<&StepOutput>>) -> Option<Seq<OutView>> {
    match scope {
        Some(s) => Some(scope_view(s@)),
        None => None,
    }
}

pub open spec fn seen_view(seen: Seq<String>) -> Seq<Seq<char>> {
    views(seen)
}

/// Whether `name` was seen before.
pub fn contains_name(seen: &Vec<String>, name: &str) -> (b: bool)
    ensures
        b == views(seen@).contains(name@),
{
    let mut i: usize = 0;
    while i < seen.len()
        invariant
            i <= seen@.len(),
            forall|k: int| 0 <= k < i ==> views(seen@)[k] != name@,
        decreases seen@.len() - i,
    {
        if str_eq(seen[i].as_str(), name) {
            assert(views(seen@)[i as int] == name@);
            return true;
        }
        i = i + 1;
    }
    false
}

/// The concatenation of two scopes.
pub fn join_scopes<'b>(a: &Vec<&'b StepOutput>, b: &Vec<&'b StepOutput>) -> (r: Vec<
    &'b StepOutput,
>)
    ensures
        scope_view(r@) == scope_view(a@) + scope_view(b@),
{
    let mut r: Vec<&'b StepOutput> = Vec::new();
    let mut i: usize = 0;
    while i < a.len()
        invariant
            i <= a@.len(),
            r@ == a@.take(i as int),
        decreases a@.len() - i,
    {
        r.push(a[i]);
        i = i + 1;
        assert(r@ =~= a@.take(i as int));
    }
    let mut j: usize = 0;
    assert(a@.take(a@.len() as int) =~= a@);
    while j < b.len()
        invariant
            j <= b@.len(),
            r@ == a@ + b@.take(j as int),
        decreases b@.len() - j,
    {
        r.push(b[j]);
        j = j + 1;
        assert(r@ =~= a@ + b@.take(j as int));
    }
    assert(b@.take(b@.len() as int) =~= b@);
    assert(scope_view(a@ + b@) =~= scope_view(a@) + scope_view(b@));
    r
}

pub open spec fn step_result(
    r: Result<(), String>,
    spec: Result<(Seq<Seq<char>>, Seq<OutView>), Seq<char>>,
    seen: Seq<String>,
    declared: Seq<OutView>,
) -> bool {
    match spec {
        Ok((s2, d2)) => r is Ok && views(seen) == s2 && declared == d2,
        Err(e) => r is Err && r->Err_0@ == e,
    }
}

/// Validates one step (recursively for bodies). `declared` collects the
/// outputs visible to later siblings; `scope` holds the enclosing bindings.
/// A rejected step leaves both `seen` and `declared` as they were.
pub fn validate_step<'a>(
    step: &'a PlanStep,
    seen: &mut Vec<String>,
    declared: &mut Vec<&'a StepOutput>,
    scope: Option<&Vec<&'a StepOutput>>,
) -> (r: Result<(), String>)
    ensures
        step_result(
            r,
            v_step(*step, views(old(seen)@), scope_view(old(declared)@), opt_scope(scope)),
            final(seen)@,
            scope_view(final(declared)@),
        ),
        r is Err ==> final(seen)@ == old(seen)@ && final(declared)@ == old(declared)@,
        final(seen)@.take(old(seen)@.len() as int) == old(seen)@,
        final(seen)@.len() >= old(seen)@.len(),
    decreases *step, 2int,
{
    let n0 = seen.len();
    let r = check_step(step, seen, declared, scope);
    if r.is_err() {
        seen.truncate(n0);
        assert(seen@ =~= old(seen)@);
    }
    r
}

/// One step's checks; on success `seen` and `declared` hold its additions.
fn check_step<'a>(
    step: &'a PlanStep,
    seen: &mut Vec<String>,
    declared: &mut Vec<&'a StepOutput>,
    scope: Option<&Vec<&'a StepOutput>>,
) -> (r: Result<(), String>)
    ensures
        step_result(
            r,
            v_step(*step, views(old(seen)@), scope_view(old(declared)@), opt_scope(scope)),
            final(seen)@,
            scope_view(final(declared)@),
        ),
        r is Err ==> final(declared)@ == old(declared)@,
        final(seen)@.take(old(seen)@.len() as int) == old(seen)@,
        final(seen)@.len() >= old(seen)@.len(),
    decreases *step, 1int,
{
    let ghost spec_result = v_step(
        *step,
        views(old(seen)@),
        scope_view(old(declared)@),
        opt_scope(scope),
    );
    let ghost seen0 = views(seen@);
    let name = step.name.as_str();
    let path = if scope.is_some() {
        "step in a foreach body"
    } else {
        "top-level step"
    };
    if !is_identifier(name) {
        let mut m = string_of(path);
        push_text(&mut m, " '");
        push_text(&mut m, name);
        push_text(&mut m, "': name must be a valid identifier (letters, digits, underscore)");
        return Err(m);
    }
    if contains_name(seen, name) {
        let mut m = string_of(path);
        push_text(&mut m, " name '");
        push_text(&mut m, name);
        push_text(&mut m, "' is duplicated (names must be globally unique)");
        return Err(m);
    }
    if str_eq(name, "plan_root") || str_eq(name, "task_inputs") {
        let mut m = string_of(path);
        push_text(&mut m, " name '");
        push_text(&mut m, name);
        push_text(&mut m, "' is reserved for the compiler");
        return Err(m);
    }
    seen.push(step.name.clone());
    assert(views(seen@) =~= seen0.push(name@));
    let visible: Vec<&'a StepOutput> = match scope {
        Some(sc) => join_scopes(declared, sc),
        None => join_scopes(declared, &Vec::new()),
    };
    assert(scope_view(Seq::<&StepOutput>::empty()) =~= seq![]);
    assert(scope_view(old(declared)@) + seq![] =~= scope_view(old(declared)@));
    match step.kind {
        StepKind::Primitive | StepKind::Retry => {
            let c = check_primitive(step, &visible);
            if c.is_err() {
                return c;
            }
        },
        StepKind::Foreach => {
            let over = match &step.over {
                None => {
                    return Err(step_message(name, "foreach step requires an 'over' source"));
                },
                Some(o) => o.as_str(),
            };
            let ty = match resolve_list_source(over, &visible, name) {
                Err(e) => {
                    return Err(e);
                },
                Ok(t) => t,
            };
            if step.body.len() == 0 {
                return Err(step_message(name, "foreach step requires a non-empty body"));
            }
            if lookup_scope(&visible, "item").is_some() {
                return Err(
                    step_message(name, "foreach item binding 'item' would shadow an outer binding"),
                );
            }
            let item_out = StepOutput {
                name: string_of("item"),
                type_label: element_type(ty.as_str()),
                fields: Vec::new(),
            };
            assert(fields_view(Seq::<FieldSpec>::empty()) =~= seq![]);
            assert(out_view(item_out) == item_view(ty@));
            let mut tail: Vec<&StepOutput> = Vec::new();
            tail.push(&item_out);
            let body_scope = join_scopes(&visible, &tail);
            assert(scope_view(tail@) =~= seq![item_view(ty@)]);
            assert(scope_view(body_scope@) =~= scope_view(visible@).push(item_view(ty@)));
            let mut body_declared: Vec<&StepOutput> = Vec::new();
            assert(scope_view(body_declared@) =~= seq![]);
            proof {
                assert(decreases_to!(*step => step.body));
            }
            let c = validate_steps(&step.body, seen, &mut body_declared, Some(&body_scope));
            if c.is_err() {
                return c;
            }
            match &step.output {
                None => {},
                Some(out) => {
                    match last_body_output(&step.body) {
                        Some(last) => {
                            let mut expected = string_of("List<");
                            push_text(&mut expected, last.type_label.as_str());
                            push_text(&mut expected, ">");
                            if !str_eq(out.type_label.as_str(), expected.as_str()) {
                                let mut t = string_of("foreach aggregate output type '");
                                push_text(&mut t, out.type_label.as_str());
                                push_text(&mut t, "' must be '");
                                push_text(&mut t, expected.as_str());
                                push_text(&mut t, "' (last body step output)");
                                return Err(step_message(name, t.as_str()));
                            }
                            let c = check_output(out, name);
                            if c.is_err() {
                                return c;
                            }
                        },
                        None => {
                            let mut t = string_of("foreach declares output '");
                            push_text(&mut t, out.name.as_str());
                            push_text(&mut t, "' but no body step produces a value");
                            return Err(step_message(name, t.as_str()));
                        },
                    }
                },
            }
        },
        StepKind::Conditional => {
            let cond = match &step.condition {
                None => {
                    return Err(step_message(name, "conditional step requires a condition"));
                },
                Some(c) => c.as_str(),
            };
            if is_all_ws(cond) {
                return Err(step_message(name, "condition must not be empty"));
            }
            let refs = extract_text_refs(cond);
            let c = check_refs(name, &refs, &visible, name);
            if c.is_err() {
                return c;
            }
            let bare = unref_text(cond);
            match parse(bare.as_str()) {
                Err(_) => {
                    return Err(step_message(name, "condition is not a valid expression"));
                },
                Ok(expr) => {
                    proof {
                        lemma_parse_wf(bare@);
                    }
                    let ids = collect_identifiers(&expr);
                    match first_unbound(&ids, &visible) {
                        Some(x) => {
                            let mut t = string_of("condition names '");
                            push_text(&mut t, x.as_str());
                            push_text(&mut t, "', which is not a visible output");
                            return Err(step_message(name, t.as_str()));
                        },
                        None => {},
                    }
                },
            }
            if step.body.len() == 0 {
                return Err(step_message(name, "conditional step requires a non-empty body"));
            }
            let mut body_declared: Vec<&StepOutput> = Vec::new();
            assert(scope_view(body_declared@) =~= seq![]);
            proof {
                assert(decreases_to!(*step => step.body));
            }
            let c = validate_steps(&step.body, seen, &mut body_declared, Some(&visible));
            if c.is_err() {
                return c;
            }
            if step.output.is_some() {
                return Err(
                    step_message(
                        name,
                        "conditional steps cannot declare outputs (branch outputs do not escape)",
                    ),
                );
            }
        },
    }
    let c = check_bindings(name, &step.input_bindings, &visible);
    if c.is_err() {
        return c;
    }
    match &step.output {
        None => {},
        Some(out) => {
            let c = check_output(out, name);
            if c.is_err() {
                return c;
            }
            if lookup_scope(&visible, out.name.as_str()).is_some() {
                let mut t = string_of("output '");
                push_text(&mut t, out.name.as_str());
                push_text(&mut t, "' would shadow an existing binding");
                return Err(step_message(name, t.as_str()));
            }
            let ghost d0 = declared@;
            declared.push(out);
            assert(scope_view(declared@) =~= scope_view(d0).push(out_view(*out)));
        },
    }
    Ok(())
}

/// Validates a list of steps in order.
pub fn validate_steps<'a>(
    steps: &'a Vec<PlanStep>,
    seen: &mut Vec<String>,
    declared: &mut Vec<&'a StepOutput>,
    scope: Option<&Vec<&'a StepOutput>>,
) -> (r: Result<(), String>)
    ensures
        step_result(
            r,
            v_steps(steps@, views(old(seen)@), scope_view(old(declared)@), opt_scope(scope)),
            final(seen)@,
            scope_view(final(declared)@),
        ),
        final(seen)@.take(old(seen)@.len() as int) == old(seen)@,
        final(seen)@.len() >= old(seen)@.len(),
    decreases steps@, 0int,
{
    let mut i: usize = 0;
    assert(steps@.skip(0) =~= steps@);
    assert(seen@.take(old(seen)@.len() as int) =~= old(seen)@);
    while i < steps.len()
        invariant
            i <= steps@.len(),
            seen@.take(old(seen)@.len() as int) == old(seen)@,
            seen@.len() >= old(seen)@.len(),
            v_steps(steps@, views(old(seen)@), scope_view(old(declared)@), opt_scope(scope))
                == v_steps(steps@.skip(i as int), views(seen@), scope_view(declared@), opt_scope(scope)),
        decreases steps@.len() - i,
    {
        assert(steps@.skip(i as int)[0] == steps@[i as int]);
        assert(steps@.skip(i as int).drop_first() =~= steps@.skip(i + 1));
        let ghost s0 = seen@;
        let c = validate_step(&steps[i], seen, declared, scope);
        proof {
            assert(seen@.take(old(seen)@.len() as int) =~= seen@.take(s0.len() as int).take(
                old(seen)@.len() as int,
            ));
        }
        if c.is_err() {
            return c;
        }
        i = i + 1;
    }
    Ok(())
}


// ── Plan-level cross checks ────────────────────────────────────────────────

/// Every step of a step list, recursively, in array order (preorder).
pub open spec fn flatten(steps: Seq<PlanStep>) -> Seq<PlanStep>
    decreases steps,
{
    if steps.len() == 0 {
        seq![]
    } else {
        seq![steps[0]] + flatten(steps[0].body@) + flatten(steps.drop_first())
    }
}

/// The step called `name` (the last one listed, as a name-keyed map keeps).
pub open spec fn find_step(all: Seq<PlanStep>, name: Seq<char>) -> Option<PlanStep>
    decreases all.len(),
{
    if all.len() == 0 {
        None
    } else if all.last().name@ == name {
        Some(all.last())
    } else {
        find_step(all.drop_last(), name)
    }
}

pub open spec fn kind_text(k: StepKind) -> Seq<char> {
    match k {
        StepKind::Primitive => "primitive"@,
        StepKind::Foreach => "foreach"@,
        StepKind::Conditional => "conditional"@,
        StepKind::Retry => "retry"@,
    }
}

pub open spec fn consumes(to: PlanStep, df: DataFlowDecl) -> bool {
    (exists|k: int|
        0 <= k < to.input_bindings@.len() && (#[trigger] to.input_bindings@[k]).binding@
            == df.binding@) || (to.kind == StepKind::Foreach && to.over is Some
        && to.over.unwrap()@ == df.from_step@)
}

/// Cross-check of the `data_flow` declarations against the steps.
pub open spec fn data_flow_s(dfs: Seq<DataFlowDecl>, all: Seq<PlanStep>, declared: Seq<OutView>) -> Option<
    Seq<char>,
>
    decreases dfs.len(),
{
    if dfs.len() == 0 {
        None
    } else {
        let df = dfs[0];
        if find_step(all, df.from_step@) is None {
            Some("data_flow: from_step '"@ + df.from_step@ + "' is not a declared step"@)
        } else if find_step(all, df.to_step@) is None {
            Some("data_flow: to_step '"@ + df.to_step@ + "' is not a declared step"@)
        } else if lookup(declared, df.binding@) is None {
            Some("data_flow: binding '"@ + df.binding@ + "' is not declared by any step"@)
        } else if !consumes(find_step(all, df.to_step@).unwrap(), df) {
            Some(
                "data_flow: step '"@ + df.to_step@ + "' does not consume binding '"@ + df.binding@
                    + "' from '"@ + df.from_step@ + "'"@,
            )
        } else {
            data_flow_s(dfs.drop_first(), all, declared)
        }
    }
}

/// Cross-check of the `control_flow` declarations against the step kinds.
pub open spec fn control_flow_s(cfs: Seq<ControlDecl>, all: Seq<PlanStep>) -> Option<Seq<char>>
    decreases cfs.len(),
{
    if cfs.len() == 0 {
        None
    } else {
        let cf = cfs[0];
        match find_step(all, cf.step@) {
            None => Some("control_flow: step '"@ + cf.step@ + "' is not a declared step"@),
            Some(step) => if cf.kind@ == "foreach"@ && step.kind == StepKind::Foreach {
                if cf.over is Some && (step.over is None || step.over.unwrap()@
                    != cf.over.unwrap()@) {
                    Some(
                        "control_flow: step '"@ + cf.step@ + "' declared over '"@
                            + cf.over.unwrap()@ + "' but step says '"@ + (if step.over is Some {
                            step.over.unwrap()@
                        } else {
                            "<none>"@
                        }) + "'"@,
                    )
                } else {
                    control_flow_s(cfs.drop_first(), all)
                }
            } else if cf.kind@ == "conditional"@ && step.kind == StepKind::Conditional {
                if cf.condition is Some && (step.condition is None
                    || step.condition.unwrap()@ != cf.condition.unwrap()@) {
                    Some(
                        "control_flow: step '"@ + cf.step@
                            + "' declared condition differs from step's own"@,
                    )
                } else {
                    control_flow_s(cfs.drop_first(), all)
                }
            } else if cf.kind@ == "retry"@ && step.kind == StepKind::Retry {
                control_flow_s(cfs.drop_first(), all)
            } else {
                Some(
                    "control_flow: step '"@ + cf.step@ + "' has kind '"@ + kind_text(step.kind)
                        + "' but declared control kind '"@ + cf.kind@ + "'"@,
                )
            },
        }
    }
}

/// The verdict of plan validation: `None` for a valid plan, otherwise the
/// first violated rule's message.
pub open spec fn plan_check(plan: PlanIR) -> Option<Seq<char>> {
    if all_ws(plan.goal@) {
        Some("plan.goal must not be empty"@)
    } else if plan.steps@.len() == 0 {
        Some("plan.steps must contain at least one step"@)
    } else {
        match v_steps(plan.steps@, seq![], seq![], None) {
            Err(e) => Some(e),
            Ok((_, declared)) => match data_flow_s(
                plan.data_flow@,
                flatten(plan.steps@),
                declared,
            ) {
                Some(e) => Some(e),
                None => match control_flow_s(plan.control_flow@, flatten(plan.steps@)) {
                    Some(e) => Some(e),
                    None => bad_out(post_outs(plan.steps@), 0),
                },
            },
        }
    }
}

/// The output each emitted node declares, in emission order (a body before
/// its step): primitive, retry and foreach steps declare theirs.
pub open spec fn post_outs(steps: Seq<PlanStep>) -> Seq<Option<Seq<char>>>
    decreases steps, 0int,
{
    if steps.len() == 0 {
        seq![]
    } else {
        step_outs(steps[0]) + post_outs(steps.drop_first())
    }
}

pub open spec fn own_out(s: PlanStep) -> Option<Seq<char>> {
    if s.kind != StepKind::Conditional && s.output is Some {
        Some(s.output.unwrap().name@)
    } else {
        None
    }
}

pub open spec fn step_outs(s: PlanStep) -> Seq<Option<Seq<char>>>
    decreases s, 1int,
{
    if s.kind == StepKind::Foreach || s.kind == StepKind::Conditional {
        post_outs(s.body@).push(own_out(s))
    } else {
        seq![own_out(s)]
    }
}

/// The first output name, from position `i`, that is reserved for the task
/// inputs or repeats an earlier one.
pub open spec fn bad_out(os: Seq<Option<Seq<char>>>, i: int) -> Option<Seq<char>>
    decreases os.len() - i,
{
    if i < 0 || i >= os.len() {
        None
    } else {
        match os[i] {
            Some(x) => if x == "input_files"@ {
                Some("output name 'input_files' is reserved for the task inputs"@)
            } else if os.take(i).contains(Some(x)) {
                Some("output '"@ + x + "' is declared twice (output names must be globally unique)"@)
            } else {
                bad_out(os, i + 1)
            },
            None => bad_out(os, i + 1),
        }
    }
}

pub open spec fn opt_views(v: Seq<Option<String>>) -> Seq<Option<Seq<char>>> {
    v.map_values(|o: Option<String>| opt_text_view(o))
}

fn collect_outs(steps: &Vec<PlanStep>, out: &mut Vec<Option<String>>)
    ensures
        opt_views(final(out)@) == opt_views(old(out)@) + post_outs(steps@),
    decreases steps@, 0int,
{
    let mut i: usize = 0;
    assert(steps@.skip(0) =~= steps@);
    assert(opt_views(out@) + post_outs(steps@) =~= opt_views(old(out)@) + post_outs(steps@));
    while i < steps.len()
        invariant
            i <= steps@.len(),
            opt_views(old(out)@) + post_outs(steps@) == opt_views(out@) + post_outs(steps@.skip(i as int)),
        decreases steps@.len() - i,
    {
        assert(steps@.skip(i as int)[0] == steps@[i as int]);
        assert(steps@.skip(i as int).drop_first() =~= steps@.skip(i + 1));
        let ghost before = opt_views(out@);
        collect_step(&steps[i], out);
        assert(before + post_outs(steps@.skip(i as int)) =~= opt_views(out@) + post_outs(
            steps@.skip(i + 1),
        ));
        i = i + 1;
    }
    assert(steps@.skip(i as int) =~= seq![]);
    assert(opt_views(out@) + Seq::<Option<Seq<char>>>::empty() =~= opt_views(out@));
}

fn collect_step(s: &PlanStep, out: &mut Vec<Option<String>>)
    ensures
        opt_views(final(out)@) == opt_views(old(out)@) + step_outs(*s),
    decreases *s, 1int,
{
    if s.kind == StepKind::Foreach || s.kind == StepKind::Conditional {
        proof {
            assert(decreases_to!(*s => s.body));
        }
        collect_outs(&s.body, out);
    }
    let own: Option<String> = if s.kind != StepKind::Conditional {
        match &s.output {
            Some(o) => Some(o.name.clone()),
            None => None,
        }
    } else {
        None
    };
    assert(opt_text_view(own) == own_out(*s));
    let ghost before = opt_views(out@);
    out.push(own);
    assert(opt_views(out@) =~= before.push(own_out(*s)));
    if s.kind == StepKind::Foreach || s.kind == StepKind::Conditional {
        assert(opt_views(old(out)@) + post_outs(s.body@).push(own_out(*s)) =~= before.push(own_out(*s)));
    } else {
        assert(opt_views(old(out)@) + seq![own_out(*s)] =~= opt_views(out@));
    }
}

/// Output names are globally unique, and `input_files` is kept for the
/// task inputs.
fn check_outs(os: &Vec<Option<String>>) -> (r: Result<(), String>)
    ensures
        err_view(r) == bad_out(opt_views(os@), 0),
{
    let ghost v = opt_views(os@);
    let mut i: usize = 0;
    while i < os.len()
        invariant
            i <= os@.len(),
            v == opt_views(os@),
            bad_out(v, 0) == bad_out(v, i as int),
        decreases os@.len() - i,
    {
        match &os[i] {
            Some(x) => {
                assert(v[i as int] == Some(x@));
                if str_eq(x.as_str(), "input_files") {
                    return Err(string_of("output name 'input_files' is reserved for the task inputs"));
                }
                let mut j: usize = 0;
                while j < i
                    invariant
                        j <= i < os@.len(),
                        v == opt_views(os@),
                        v[i as int] == Some(x@),
                        x@ != "input_files"@,
                        bad_out(v, 0) == bad_out(v, i as int),
                        forall|k: int| 0 <= k < j ==> v[k] != Some(x@),
                    decreases i - j,
                {
                    let same = match &os[j] {
                        Some(y) => str_eq(y.as_str(), x.as_str()),
                        None => false,
                    };
                    if same {
                        assert(v.take(i as int)[j as int] == Some(x@));
                        assert(v.take(i as int).contains(Some(x@)));
                        assert(x@ != "input_files"@);
                        let mut m = string_of("output '");
                        push_text(&mut m, x.as_str());
                        push_text(&mut m, "' is declared twice (output names must be globally unique)");
                        return Err(m);
                    }
                    j = j + 1;
                }
                assert(!v.take(i as int).contains(Some(x@))) by {
                    if v.take(i as int).contains(Some(x@)) {
                        let k = choose|k: int| 0 <= k < i && v.take(i as int)[k] == Some(x@);
                        assert(v[k] == Some(x@));
                    }
                }
            },
            None => {
                assert(v[i as int] == None::<Seq<char>>);
            },
        }
        i = i + 1;
    }
    Ok(())
}

/// Whether a plan passes validation.
pub open spec fn plan_valid(plan: PlanIR) -> bool {
    plan_check(plan) is None
}

pub open spec fn derefs(s: Seq<&PlanStep>) -> Seq<PlanStep> {
    s.map_values(|p: &PlanStep| *p)
}

/// Appends every step (recursively, preorder) to `out`.
pub fn collect_into<'a>(steps: &'a Vec<PlanStep>, out: &mut Vec<&'a PlanStep>)
    ensures
        derefs(final(out)@) == derefs(old(out)@) + flatten(steps@),
    decreases steps@,
{
    let mut i: usize = 0;
    assert(steps@.skip(0) =~= steps@);
    while i < steps.len()
        invariant
            i <= steps@.len(),
            derefs(old(out)@) + flatten(steps@) == derefs(out@) + flatten(steps@.skip(i as int)),
        decreases steps@.len() - i,
    {
        let s = &steps[i];
        let ghost before = derefs(out@);
        assert(steps@.skip(i as int)[0] == steps@[i as int]);
        assert(steps@.skip(i as int).drop_first() =~= steps@.skip(i + 1));
        out.push(s);
        assert(derefs(out@) =~= before.push(*s));
        proof {
            assert(decreases_to!(steps@ => steps@[i as int]));
            assert(decreases_to!(steps@[i as int] => steps@[i as int].body));
        }
        collect_into(&s.body, out);
        assert(before + flatten(steps@.skip(i as int)) =~= derefs(out@) + flatten(
            steps@.skip(i + 1),
        ));
        i = i + 1;
    }
    assert(derefs(out@) + seq![] =~= derefs(out@));
}

/// Every step (recursively) in array order.
pub fn collect_steps(plan: &PlanIR) -> (r: Vec<&PlanStep>)
    ensures
        derefs(r@) == flatten(plan.steps@),
{
    let mut out: Vec<&PlanStep> = Vec::new();
    assert(derefs(out@) =~= seq![]);
    collect_into(&plan.steps, &mut out);
    assert(seq![] + flatten(plan.steps@) =~= flatten(plan.steps@));
    out
}

/// The step called `name` among `all` (the last one listed).
pub fn find_step_exec<'a>(all: &Vec<&'a PlanStep>, name: &str) -> (r: Option<&'a PlanStep>)
    ensures
        match find_step(derefs(all@), name@) {
            None => r is None,
            Some(s) => r is Some && *r.unwrap() == s,
        },
{
    let mut i: usize = all.len();
    assert(derefs(all@).take(all@.len() as int) =~= derefs(all@));
    while i > 0
        invariant
            i <= all@.len(),
            find_step(derefs(all@), name@) == find_step(derefs(all@).take(i as int), name@),
        decreases i,
    {
        assert(derefs(all@).take(i as int).drop_last() =~= derefs(all@).take(i - 1));
        if str_eq(all[i - 1].name.as_str(), name) {
            return Some(all[i - 1]);
        }
        i = i - 1;
    }
    None
}

/// The kind name of a step kind.
pub fn kind_of(k: StepKind) -> (r: &'static str)
    ensures
        r@ == kind_text(k),
{
    match k {
        StepKind::Primitive => "primitive",
        StepKind::Foreach => "foreach",
        StepKind::Conditional => "conditional",
        StepKind::Retry => "retry",
    }
}

fn opt_eq(a: &Option<String>, b: &str) -> (r: bool)
    ensures
        r == (a is Some && a.unwrap()@ == b@),
{
    match a {
        Some(x) => str_eq(x.as_str(), b),
        None => false,
    }
}

/// Cross-checks `data_flow` declarations against actual step bindings.
pub fn validate_data_flow(plan: &PlanIR, declared: &Vec<&StepOutput>) -> (r: Result<(), String>)
    ensures
        err_view(r) == data_flow_s(plan.data_flow@, flatten(plan.steps@), scope_view(declared@)),
{
    let all = collect_steps(plan);
    let dfs = &plan.data_flow;
    let mut i: usize = 0;
    assert(dfs@.skip(0) =~= dfs@);
    while i < dfs.len()
        invariant
            i <= dfs@.len(),
            derefs(all@) == flatten(plan.steps@),
            *dfs == plan.data_flow,
            data_flow_s(plan.data_flow@, flatten(plan.steps@), scope_view(declared@))
                == data_flow_s(dfs@.skip(i as int), flatten(plan.steps@), scope_view(declared@)),
        decreases dfs@.len() - i,
    {
        let df = &dfs[i];
        assert(dfs@.skip(i as int)[0] == dfs@[i as int]);
        assert(dfs@.skip(i as int).drop_first() =~= dfs@.skip(i + 1));
        if find_step_exec(&all, df.from_step.as_str()).is_none() {
            let mut m = string_of("data_flow: from_step '");
            push_text(&mut m, df.from_step.as_str());
            push_text(&mut m, "' is not a declared step");
            return Err(m);
        }
        let to = match find_step_exec(&all, df.to_step.as_str()) {
            None => {
                let mut m = string_of("data_flow: to_step '");
                push_text(&mut m, df.to_step.as_str());
                push_text(&mut m, "' is not a declared step");
                return Err(m);
            },
            Some(t) => t,
        };
        if lookup_scope(declared, df.binding.as_str()).is_none() {
            let mut m = string_of("data_flow: binding '");
            push_text(&mut m, df.binding.as_str());
            push_text(&mut m, "' is not declared by any step");
            return Err(m);
        }
        let mut uses = false;
        let mut k: usize = 0;
        while k < to.input_bindings.len()
            invariant
                k <= to.input_bindings@.len(),
                uses == (exists|j: int|
                    0 <= j < k && (#[trigger] to.input_bindings@[j]).binding@ == df.binding@),
            decreases to.input_bindings@.len() - k,
        {
            if str_eq(to.input_bindings[k].binding.as_str(), df.binding.as_str()) {
                uses = true;
            }
            k = k + 1;
        }
        if !uses && to.kind == StepKind::Foreach && opt_eq(&to.over, df.from_step.as_str()) {
            uses = true;
        }
        if !uses {
            let mut m = string_of("data_flow: step '");
            push_text(&mut m, df.to_step.as_str());
            push_text(&mut m, "' does not consume binding '");
            push_text(&mut m, df.binding.as_str());
            push_text(&mut m, "' from '");
            push_text(&mut m, df.from_step.as_str());
            push_text(&mut m, "'");
            return Err(m);
        }
        i = i + 1;
    }
    Ok(())
}

/// Cross-checks `control_flow` declarations against step kinds.
pub fn validate_control_flow(plan: &PlanIR) -> (r: Result<(), String>)
    ensures
        err_view(r) == control_flow_s(plan.control_flow@, flatten(plan.steps@)),
{
    let all = collect_steps(plan);
    let cfs = &plan.control_flow;
    let mut i: usize = 0;
    assert(cfs@.skip(0) =~= cfs@);
    while i < cfs.len()
        invariant
            i <= cfs@.len(),
            derefs(all@) == flatten(plan.steps@),
            *cfs == plan.control_flow,
            control_flow_s(plan.control_flow@, flatten(plan.steps@)) == control_flow_s(
                cfs@.skip(i as int),
                flatten(plan.steps@),
            ),
        decreases cfs@.len() - i,
    {
        let cf = &cfs[i];
        assert(cfs@.skip(i as int)[0] == cfs@[i as int]);
        assert(cfs@.skip(i as int).drop_first() =~= cfs@.skip(i + 1));
        let step = match find_step_exec(&all, cf.step.as_str()) {
            None => {
                let mut m = string_of("control_flow: step '");
                push_text(&mut m, cf.step.as_str());
                push_text(&mut m, "' is not a declared step");
                return Err(m);
            },
            Some(s) => s,
        };
        let k = cf.kind.as_str();
        if str_eq(k, "foreach") && step.kind == StepKind::Foreach {
            match &cf.over {
                Some(over) => {
                    if !opt_eq(&step.over, over.as_str()) {
                        let mut m = string_of("control_flow: step '");
                        push_text(&mut m, cf.step.as_str());
                        push_text(&mut m, "' declared over '");
                        push_text(&mut m, over.as_str());
                        push_text(&mut m, "' but step says '");
                        match &step.over {
                            Some(o) => push_text(&mut m, o.as_str()),
                            None => push_text(&mut m, "<none>"),
                        }
                        push_text(&mut m, "'");
                        return Err(m);
                    }
                },
                None => {},
            }
        } else if str_eq(k, "conditional") && step.kind == StepKind::Conditional {
            match &cf.condition {
                Some(c) => {
                    if !opt_eq(&step.condition, c.as_str()) {
                        let mut m = string_of("control_flow: step '");
                        push_text(&mut m, cf.step.as_str());
                        push_text(&mut m, "' declared condition differs from step's own");
                        return Err(m);
                    }
                },
                None => {},
            }
        } else if str_eq(k, "retry") && step.kind == StepKind::Retry {
        } else {
            let mut m = string_of("control_flow: step '");
            push_text(&mut m, cf.step.as_str());
            push_text(&mut m, "' has kind '");
            push_text(&mut m, kind_of(step.kind));
            push_text(&mut m, "' but declared control kind '");
            push_text(&mut m, k);
            push_text(&mut m, "'");
            return Err(m);
        }
        i = i + 1;
    }
    Ok(())
}

/// Validates a Plan IR against the frozen schema. A valid plan is the
/// contract for `compile_plan`: step names are unique identifiers other than
/// `plan_root` and `task_inputs`, output names are unique across the plan, every `${...}` in a
/// step's code or write path is visible, and a condition (with each `${name}`
/// read as `name`) is an expression over visible outputs. The error text names
/// the first violated rule.
pub fn validate_plan(plan: &PlanIR) -> (r: Result<(), String>)
    ensures
        err_view(r) == plan_check(*plan),
        r is Ok <==> plan_valid(*plan),
{
    if is_all_ws(plan.goal.as_str()) {
        return Err(string_of("plan.goal must not be empty"));
    }
    if plan.steps.len() == 0 {
        return Err(string_of("plan.steps must contain at least one step"));
    }
    let mut seen: Vec<String> = Vec::new();
    let mut declared: Vec<&StepOutput> = Vec::new();
    assert(views(seen@) =~= seq![]);
    assert(scope_view(declared@) =~= seq![]);
    let c = validate_steps(&plan.steps, &mut seen, &mut declared, None);
    if c.is_err() {
        return c;
    }
    let c = validate_data_flow(plan, &declared);
    if c.is_err() {
        return c;
    }
    let c = validate_control_flow(plan);
    if c.is_err() {
        return c;
    }
    let mut outs: Vec<Option<String>> = Vec::new();
    assert(opt_views(outs@) =~= seq![]);
    collect_outs(&plan.steps, &mut outs);
    assert(opt_views(outs@) =~= post_outs(plan.steps@));
    check_outs(&outs)
}

} // verus!
