//! Stage data contracts of a CIR program: every declared output is complete,
//! every `${ref}` resolves to a visible binding with the named fields and a
//! compatible type, loop item variables shadow nothing, and a loop's aggregate
//! output is a list of what its body produces.
//!
//! The walk starts at each entry and descends through child links. The only
//! bindings that scoping adds are the item variables of enclosing loops; every
//! other name resolves to the last node that declares an output of that name.
//! A walk that revisits a node on its own descent never ends; such programs are
//! reported by [`data_contract_walk`] and excluded from [`validate_data_contract`].

use vstd::prelude::*;

use crate::cir::{check_result, err_is, CErr};
use crate::error::CompilerError;
use crate::json::JsonValue;
use crate::plan::{contains_name, find_field, find_field_exec, lemma_split_dot_nonempty, split_dot, split_on_dot};
use crate::reach::{find_last_node, last_node, lemma_last_node, push_all};
use crate::refs::{extract_refs, json_refs, views};
use crate::text::{is_blank, push_text, str_eq, string_of, trim_seq};
use crate::types::{fields_view, CirNode, CirNodeKind, CirProgram, FieldSpec, OutputSpec};

verus! {

/// How a contract walk ends.
pub enum WalkS {
    Pass,
    Fail(CErr),
    /// The walk descends forever (a child link cycle on its path).
    Unbounded,
}

/// The last declared output named `name`, in node order.
pub open spec fn last_producer(nodes: Seq<CirNode>, name: Seq<char>) -> Option<OutputSpec>
    decreases nodes.len(),
{
    if nodes.len() == 0 {
        None
    } else if nodes.last().output is Some && nodes.last().output.unwrap().name@ == name {
        nodes.last().output
    } else {
        last_producer(nodes.drop_last(), name)
    }
}

/// What a reference name resolves to: an item variable in scope (type `Any`,
/// no fields), else the last output of that name; its type and fields.
pub open spec fn resolve_s(nodes: Seq<CirNode>, scope: Seq<Seq<char>>, name: Seq<char>) -> Option<
    (Seq<char>, Seq<(Seq<char>, Seq<char>)>),
> {
    if scope.contains(name) {
        Some(("Any"@, seq![]))
    } else {
        match last_producer(nodes, name) {
            Some(o) => Some((o.type_label@, fields_view(o.fields@))),
            None => None,
        }
    }
}

pub open spec fn dcv(id: Seq<char>, msg: Seq<char>) -> CErr {
    CErr::DataContractViolation(id, msg)
}

/// The field path of a reference: each field must exist and be a scalar.
pub open spec fn field_path_s(
    id: Seq<char>,
    name: Seq<char>,
    path: Seq<Seq<char>>,
    fields: Seq<(Seq<char>, Seq<char>)>,
) -> Option<CErr>
    decreases path.len(),
{
    if path.len() == 0 {
        None
    } else {
        match find_field(fields, path[0]) {
            None => Some(dcv(id, "binding '"@ + name + "' has no field '"@ + path[0] + "'"@)),
            Some(t) => if t == "List"@ || t == "Record"@ {
                Some(
                    dcv(id, "field '"@ + path[0] + "' of '"@ + name + "' requires indexing (Phase 2)"@),
                )
            } else {
                field_path_s(id, name, path.drop_first(), fields)
            },
        }
    }
}

/// The declared type of input `key` (first declaration).
pub open spec fn type_for(its: Seq<(String, String)>, key: Seq<char>) -> Option<Seq<char>>
    decreases its.len(),
{
    if its.len() == 0 {
        None
    } else if its[0].0@ == key {
        Some(its[0].1@)
    } else {
        type_for(its.drop_first(), key)
    }
}

/// Declared and produced types agree; `number` and `integer` agree both ways.
pub open spec fn compatible(expected: Seq<char>, actual: Seq<char>) -> bool {
    expected == actual || (expected == "number"@ && actual == "integer"@) || (expected
        == "integer"@ && actual == "number"@)
}

/// One reference `raw` found in input `key` of node `n`.
pub open spec fn ref_s(
    n: CirNode,
    key: Seq<char>,
    raw: Seq<char>,
    scope: Seq<Seq<char>>,
    nodes: Seq<CirNode>,
) -> Option<CErr> {
    let parts = split_dot(raw);
    let name = parts[0];
    let id = n.node_id@;
    match resolve_s(nodes, scope, name) {
        None => Some(CErr::UnresolvedBinding(id, name)),
        Some(b) => match field_path_s(id, name, parts.drop_first(), b.1) {
            Some(e) => Some(e),
            None => match type_for(n.input_types@, key) {
                Some(exp) => if !compatible(exp, b.0) {
                    Some(
                        dcv(
                            id,
                            "input '"@ + key + "' expects '"@ + exp + "' but producer '"@ + name
                                + "' declares '"@ + b.0 + "'"@,
                        ),
                    )
                } else {
                    None
                },
                None => None,
            },
        },
    }
}

pub open spec fn refs_s(
    n: CirNode,
    key: Seq<char>,
    raws: Seq<Seq<char>>,
    scope: Seq<Seq<char>>,
    nodes: Seq<CirNode>,
) -> Option<CErr>
    decreases raws.len(),
{
    if raws.len() == 0 {
        None
    } else {
        match ref_s(n, key, raws[0], scope, nodes) {
            Some(e) => Some(e),
            None => refs_s(n, key, raws.drop_first(), scope, nodes),
        }
    }
}

pub open spec fn inputs_s(
    n: CirNode,
    ins: Seq<(String, JsonValue)>,
    scope: Seq<Seq<char>>,
    nodes: Seq<CirNode>,
) -> Option<CErr>
    decreases ins.len(),
{
    if ins.len() == 0 {
        None
    } else {
        match refs_s(n, ins[0].0@, json_refs(ins[0].1), scope, nodes) {
            Some(e) => Some(e),
            None => inputs_s(n, ins.drop_first(), scope, nodes),
        }
    }
}

/// Every reference in the inputs of `n`, in input order.
pub open spec fn node_refs_s(n: CirNode, scope: Seq<Seq<char>>, nodes: Seq<CirNode>) -> Option<CErr> {
    inputs_s(n, n.inputs@, scope, nodes)
}

/// The item variable a loop node declares.
pub open spec fn item_var_of(n: CirNode) -> Option<Seq<char>> {
    match n.control {
        Some(c) => match c.loop_spec {
            Some(ls) => match ls.item_var {
                Some(v) => Some(v@),
                None => None,
            },
            None => None,
        },
        None => None,
    }
}

/// The output type of the last child (scanning from the end) that resolves to
/// a node with an output.
pub open spec fn last_child_type(nodes: Seq<CirNode>, ids: Seq<Seq<char>>) -> Option<Seq<char>>
    decreases ids.len(),
{
    if ids.len() == 0 {
        None
    } else {
        let j = last_node(nodes, ids.last());
        if 0 <= j && nodes[j].output is Some {
            Some(nodes[j].output.unwrap().type_label@)
        } else {
            last_child_type(nodes, ids.drop_last())
        }
    }
}

/// A loop's aggregate output must be `List<T>` for the type `T` of its last
/// producing body child.
pub open spec fn aggregate_s(n: CirNode, nodes: Seq<CirNode>) -> Option<CErr> {
    match n.output {
        None => None,
        Some(o) => match last_child_type(nodes, views(n.children@)) {
            Some(t) => if o.type_label@ != "List<"@ + t + ">"@ {
                Some(
                    dcv(
                        n.node_id@,
                        "loop aggregate output type '"@ + o.type_label@ + "' must be '"@ + ("List<"@
                            + t + ">"@) + "'"@,
                    ),
                )
            } else {
                None
            },
            None => Some(
                dcv(
                    n.node_id@,
                    "loop output '"@ + o.name@ + "' declared but no body child produces a value"@,
                ),
            ),
        },
    }
}

/// The contract walk of node `n` with the item variables `scope`, allowed
/// `fuel` levels of descent.
pub open spec fn walk_s(nodes: Seq<CirNode>, n: CirNode, scope: Seq<Seq<char>>, fuel: nat) -> WalkS
    decreases fuel, 0nat, 0nat,
{
    if fuel == 0 {
        WalkS::Unbounded
    } else {
        let id = n.node_id@;
        let f = (fuel - 1) as nat;
        match node_refs_s(n, scope, nodes) {
            Some(e) => WalkS::Fail(e),
            None => match n.kind {
                CirNodeKind::Sequence | CirNodeKind::Conditional => match walk_list(
                    nodes,
                    id,
                    views(n.children@),
                    scope,
                    f,
                ) {
                    WalkS::Pass => walk_list(nodes, id, views(n.else_children@), scope, f),
                    other => other,
                },
                CirNodeKind::Parallel => walk_list(nodes, id, views(n.children@), scope, f),
                CirNodeKind::LoopMap => {
                    let shadow = item_var_of(n) is Some && last_producer(
                        nodes,
                        item_var_of(n).unwrap(),
                    ) is Some;
                    if shadow {
                        WalkS::Fail(
                            dcv(
                                id,
                                "loop item_var '"@ + item_var_of(n).unwrap()
                                    + "' shadows an existing top-level binding"@,
                            ),
                        )
                    } else {
                        let body = match item_var_of(n) {
                            Some(v) => scope.push(v),
                            None => scope,
                        };
                        match walk_list(nodes, id, views(n.children@), body, f) {
                            WalkS::Pass => match aggregate_s(n, nodes) {
                                Some(e) => WalkS::Fail(e),
                                None => WalkS::Pass,
                            },
                            other => other,
                        }
                    }
                },
                _ => WalkS::Pass,
            },
        }
    }
}

/// The walks of the children `ids` of node `pid`, in order, each in `scope`.
pub open spec fn walk_list(
    nodes: Seq<CirNode>,
    pid: Seq<char>,
    ids: Seq<Seq<char>>,
    scope: Seq<Seq<char>>,
    fuel: nat,
) -> WalkS
    decreases fuel, 1nat, ids.len(),
{
    if ids.len() == 0 {
        WalkS::Pass
    } else {
        let j = last_node(nodes, ids[0]);
        if j < 0 {
            WalkS::Fail(CErr::InvalidReference(pid, ids[0]))
        } else {
            match walk_s(nodes, nodes[j], scope, fuel) {
                WalkS::Pass => walk_list(nodes, pid, ids.drop_first(), scope, fuel),
                other => other,
            }
        }
    }
}

/// The walks from the entries `es` that resolve to a node, in order.
pub open spec fn entries_s(nodes: Seq<CirNode>, es: Seq<Seq<char>>, fuel: nat) -> WalkS
    decreases es.len(),
{
    if es.len() == 0 {
        WalkS::Pass
    } else {
        let j = last_node(nodes, es[0]);
        if j < 0 {
            entries_s(nodes, es.drop_first(), fuel)
        } else {
            match walk_s(nodes, nodes[j], seq![], fuel) {
                WalkS::Pass => entries_s(nodes, es.drop_first(), fuel),
                other => other,
            }
        }
    }
}

/// Output completeness: the first declared output with a blank name or type.
pub open spec fn outputs_complete_s(nodes: Seq<CirNode>) -> Option<CErr>
    decreases nodes.len(),
{
    if nodes.len() == 0 {
        None
    } else {
        let n = nodes[0];
        if n.output is Some && (trim_seq(n.output.unwrap().name@).len() == 0 || trim_seq(
            n.output.unwrap().type_label@,
        ).len() == 0) {
            Some(
                dcv(
                    n.node_id@,
                    "output schema incomplete (name='"@ + n.output.unwrap().name@ + "', type_name='"@
                        + n.output.unwrap().type_label@ + "')"@,
                ),
            )
        } else {
            outputs_complete_s(nodes.drop_first())
        }
    }
}

/// The whole data contract of `p`. The walk may descend at most as many levels
/// as there are nodes: a longer descent repeats a node and never ends.
pub open spec fn contract_s(p: CirProgram) -> WalkS {
    match outputs_complete_s(p.nodes@) {
        Some(e) => WalkS::Fail(e),
        None => entries_s(p.nodes@, views(p.entry@), p.nodes@.len()),
    }
}

/// The error a finished contract walk reports.
pub open spec fn contract_error(p: CirProgram) -> Option<CErr> {
    match contract_s(p) {
        WalkS::Fail(e) => Some(e),
        _ => None,
    }
}

// ── Executable contract walk ───────────────────────────────────────────────

/// How a contract walk ended.
pub enum ContractWalk {
    Passed,
    Failed(CompilerError),
    /// The walk would descend forever.
    Unbounded,
}

pub open spec fn walk_is(r: ContractWalk, s: WalkS) -> bool {
    match s {
        WalkS::Pass => r is Passed,
        WalkS::Fail(e) => r matches ContractWalk::Failed(x) && err_is(x, e),
        WalkS::Unbounded => r is Unbounded,
    }
}

fn violation(node_id: &String, message: String) -> (e: CompilerError)
    ensures
        err_is(e, dcv(node_id@, message@)),
{
    CompilerError::DataContractViolation { node_id: node_id.clone(), message }
}

/// The last declared output named `name`.
pub fn find_producer<'a>(nodes: &'a Vec<CirNode>, name: &str) -> (r: Option<&'a OutputSpec>)
    ensures
        match r {
            None => last_producer(nodes@, name@) is None,
            Some(o) => last_producer(nodes@, name@) == Some(*o),
        },
{
    let mut i: usize = nodes.len();
    assert(nodes@.take(i as int) =~= nodes@);
    while i > 0
        invariant
            i <= nodes@.len(),
            last_producer(nodes@, name@) == last_producer(nodes@.take(i as int), name@),
        decreases i,
    {
        let ghost t = nodes@.take(i as int);
        assert(t.last() == nodes@[i - 1]);
        assert(t.drop_last() =~= nodes@.take(i - 1));
        match &nodes[i - 1].output {
            Some(o) => {
                if str_eq(o.name.as_str(), name) {
                    return Some(o);
                }
            },
            None => {},
        }
        i = i - 1;
    }
    None
}

fn check_field_path(
    node_id: &String,
    name: &str,
    parts: &Vec<String>,
    fields: &Vec<FieldSpec>,
) -> (r: Result<(), CompilerError>)
    requires
        parts@.len() >= 1,
    ensures
        check_result(
            r,
            field_path_s(node_id@, name@, views(parts@).drop_first(), fields_view(fields@)),
        ),
{
    let ghost path = views(parts@).drop_first();
    let mut i: usize = 1;
    assert(path.skip(0) =~= path);
    while i < parts.len()
        invariant
            1 <= i <= parts@.len(),
            path == views(parts@).drop_first(),
            field_path_s(node_id@, name@, path, fields_view(fields@)) == field_path_s(
                node_id@,
                name@,
                path.skip(i - 1),
                fields_view(fields@),
            ),
        decreases parts@.len() - i,
    {
        assert(path.skip(i - 1)[0] == parts@[i as int]@);
        assert(path.skip(i - 1).drop_first() =~= path.skip(i as int));
        let f = parts[i].as_str();
        match find_field_exec(fields, f) {
            None => {
                let mut m = string_of("binding '");
                push_text(&mut m, name);
                push_text(&mut m, "' has no field '");
                push_text(&mut m, f);
                push_text(&mut m, "'");
                return Err(violation(node_id, m));
            },
            Some(t) => {
                if str_eq(t.as_str(), "List") || str_eq(t.as_str(), "Record") {
                    let mut m = string_of("field '");
                    push_text(&mut m, f);
                    push_text(&mut m, "' of '");
                    push_text(&mut m, name);
                    push_text(&mut m, "' requires indexing (Phase 2)");
                    return Err(violation(node_id, m));
                }
            },
        }
        i = i + 1;
    }
    Ok(())
}

fn find_input_type<'a>(its: &'a Vec<(String, String)>, key: &str) -> (r: Option<&'a String>)
    ensures
        match type_for(its@, key@) {
            None => r is None,
            Some(t) => r is Some && r.unwrap()@ == t,
        },
{
    let mut i: usize = 0;
    assert(its@.skip(0) =~= its@);
    while i < its.len()
        invariant
            i <= its@.len(),
            type_for(its@, key@) == type_for(its@.skip(i as int), key@),
        decreases its@.len() - i,
    {
        assert(its@.skip(i as int).drop_first() =~= its@.skip(i + 1));
        if str_eq(its[i].0.as_str(), key) {
            return Some(&its[i].1);
        }
        i = i + 1;
    }
    None
}

fn check_one_ref(
    n: &CirNode,
    key: &str,
    raw: &str,
    scope: &Vec<String>,
    nodes: &Vec<CirNode>,
) -> (r: Result<(), CompilerError>)
    ensures
        check_result(r, ref_s(*n, key@, raw@, views(scope@), nodes@)),
{
    let parts = split_on_dot(raw);
    proof {
        lemma_split_dot_nonempty(raw@);
    }
    let name = parts[0].as_str();
    let no_fields: Vec<FieldSpec> = Vec::new();
    let (ty, fields): (&str, &Vec<FieldSpec>) = if contains_name(scope, name) {
        assert(fields_view(no_fields@) =~= seq![]);
        ("Any", &no_fields)
    } else {
        match find_producer(nodes, name) {
            Some(o) => (o.type_label.as_str(), &o.fields),
            None => {
                return Err(
                    CompilerError::UnresolvedBinding {
                        node_id: n.node_id.clone(),
                        binding: string_of(name),
                    },
                );
            },
        }
    };
    let c = check_field_path(&n.node_id, name, &parts, fields);
    if c.is_err() {
        return c;
    }
    match find_input_type(&n.input_types, key) {
        Some(exp) => {
            let e = exp.as_str();
            let ok = str_eq(e, ty) || (str_eq(e, "number") && str_eq(ty, "integer")) || (str_eq(
                e,
                "integer",
            ) && str_eq(ty, "number"));
            if !ok {
                let mut m = string_of("input '");
                push_text(&mut m, key);
                push_text(&mut m, "' expects '");
                push_text(&mut m, e);
                push_text(&mut m, "' but producer '");
                push_text(&mut m, name);
                push_text(&mut m, "' declares '");
                push_text(&mut m, ty);
                push_text(&mut m, "'");
                return Err(violation(&n.node_id, m));
            }
            Ok(())
        },
        None => Ok(()),
    }
}

/// Checks every `${ref}` in the inputs of `n` against the bindings visible to it.
pub fn check_node_refs(n: &CirNode, scope: &Vec<String>, nodes: &Vec<CirNode>) -> (r: Result<
    (),
    CompilerError,
>)
    ensures
        check_result(r, node_refs_s(*n, views(scope@), nodes@)),
{
    let ins = &n.inputs;
    let mut i: usize = 0;
    assert(ins@.skip(0) =~= ins@);
    while i < ins.len()
        invariant
            ins@ == n.inputs@,
            i <= ins@.len(),
            inputs_s(*n, ins@, views(scope@), nodes@) == inputs_s(
                *n,
                ins@.skip(i as int),
                views(scope@),
                nodes@,
            ),
        decreases ins@.len() - i,
    {
        assert(ins@.skip(i as int)[0] == ins@[i as int]);
        assert(ins@.skip(i as int).drop_first() =~= ins@.skip(i + 1));
        let key = ins[i].0.as_str();
        let raws = extract_refs(&ins[i].1);
        let mut k: usize = 0;
        assert(views(raws@).skip(0) =~= views(raws@));
        while k < raws.len()
            invariant
                ins@ == n.inputs@,
                i < ins@.len(),
                key@ == ins@[i as int].0@,
                views(raws@) == json_refs(ins@[i as int].1),
                inputs_s(*n, ins@, views(scope@), nodes@) == inputs_s(
                    *n,
                    ins@.skip(i as int),
                    views(scope@),
                    nodes@,
                ),
                k <= raws@.len(),
                refs_s(*n, key@, views(raws@), views(scope@), nodes@) == refs_s(
                    *n,
                    key@,
                    views(raws@).skip(k as int),
                    views(scope@),
                    nodes@,
                ),
            decreases raws@.len() - k,
        {
            assert(views(raws@).skip(k as int)[0] == raws@[k as int]@);
            assert(views(raws@).skip(k as int).drop_first() =~= views(raws@).skip(k + 1));
            let c = check_one_ref(n, key, raws[k].as_str(), scope, nodes);
            if c.is_err() {
                return c;
            }
            k = k + 1;
        }
        i = i + 1;
    }
    Ok(())
}

fn last_child_output_type<'a>(nodes: &'a Vec<CirNode>, ids: &Vec<String>) -> (r: Option<&'a String>)
    ensures
        match last_child_type(nodes@, views(ids@)) {
            None => r is None,
            Some(t) => r is Some && r.unwrap()@ == t,
        },
{
    let mut i: usize = ids.len();
    assert(views(ids@).take(i as int) =~= views(ids@));
    while i > 0
        invariant
            i <= ids@.len(),
            last_child_type(nodes@, views(ids@)) == last_child_type(
                nodes@,
                views(ids@).take(i as int),
            ),
        decreases i,
    {
        let ghost t = views(ids@).take(i as int);
        assert(t.last() == ids@[i - 1]@);
        assert(t.drop_last() =~= views(ids@).take(i - 1));
        match find_last_node(nodes, ids[i - 1].as_str()) {
            Some(j) => {
                proof {
                    lemma_last_node(nodes@, ids@[i - 1]@);
                }
                match &nodes[j].output {
                    Some(o) => {
                        return Some(&o.type_label);
                    },
                    None => {},
                }
            },
            None => {},
        }
        i = i - 1;
    }
    None
}

fn check_aggregate(n: &CirNode, nodes: &Vec<CirNode>) -> (r: Result<(), CompilerError>)
    ensures
        check_result(r, aggregate_s(*n, nodes@)),
{
    match &n.output {
        None => Ok(()),
        Some(o) => match last_child_output_type(nodes, &n.children) {
            Some(t) => {
                let mut expected = string_of("List<");
                push_text(&mut expected, t.as_str());
                push_text(&mut expected, ">");
                if !str_eq(o.type_label.as_str(), expected.as_str()) {
                    let mut m = string_of("loop aggregate output type '");
                    push_text(&mut m, o.type_label.as_str());
                    push_text(&mut m, "' must be '");
                    push_text(&mut m, expected.as_str());
                    push_text(&mut m, "'");
                    return Err(violation(&n.node_id, m));
                }
                Ok(())
            },
            None => {
                let mut m = string_of("loop output '");
                push_text(&mut m, o.name.as_str());
                push_text(&mut m, "' declared but no body child produces a value");
                Err(violation(&n.node_id, m))
            },
        },
    }
}

fn item_var<'a>(n: &'a CirNode) -> (r: Option<&'a String>)
    ensures
        match item_var_of(*n) {
            None => r is None,
            Some(v) => r is Some && r.unwrap()@ == v,
        },
{
    match &n.control {
        Some(c) => match &c.loop_spec {
            Some(ls) => match &ls.item_var {
                Some(v) => Some(v),
                None => None,
            },
            None => None,
        },
        None => None,
    }
}

/// The contract walk of one node.
pub fn walk_node(nodes: &Vec<CirNode>, n: &CirNode, scope: &Vec<String>, fuel: usize) -> (r:
    ContractWalk)
    ensures
        walk_is(r, walk_s(nodes@, *n, views(scope@), fuel as nat)),
    decreases fuel, 0usize,
{
    if fuel == 0 {
        return ContractWalk::Unbounded;
    }
    let f = fuel - 1;
    match check_node_refs(n, scope, nodes) {
        Err(e) => {
            return ContractWalk::Failed(e);
        },
        Ok(()) => {},
    }
    match n.kind {
        CirNodeKind::Sequence | CirNodeKind::Conditional => {
            let r = walk_children(nodes, &n.node_id, &n.children, scope, f);
            match r {
                ContractWalk::Passed => walk_children(nodes, &n.node_id, &n.else_children, scope, f),
                _ => r,
            }
        },
        CirNodeKind::Parallel => walk_children(nodes, &n.node_id, &n.children, scope, f),
        CirNodeKind::LoopMap => {
            let mut body: Vec<String> = Vec::new();
            push_all(&mut body, scope);
            match item_var(n) {
                Some(v) => {
                    if find_producer(nodes, v.as_str()).is_some() {
                        let mut m = string_of("loop item_var '");
                        push_text(&mut m, v.as_str());
                        push_text(&mut m, "' shadows an existing top-level binding");
                        return ContractWalk::Failed(violation(&n.node_id, m));
                    }
                    body.push(v.clone());
                },
                None => {},
            }
            assert(views(body@) == match item_var_of(*n) {
                Some(v) => views(scope@).push(v),
                None => views(scope@),
            });
            let r = walk_children(nodes, &n.node_id, &n.children, &body, f);
            match r {
                ContractWalk::Passed => match check_aggregate(n, nodes) {
                    Err(e) => ContractWalk::Failed(e),
                    Ok(()) => ContractWalk::Passed,
                },
                _ => r,
            }
        },
        _ => ContractWalk::Passed,
    }
}

/// The contract walks of the children `ids` of node `pid`, in order.
pub fn walk_children(
    nodes: &Vec<CirNode>,
    pid: &String,
    ids: &Vec<String>,
    scope: &Vec<String>,
    fuel: usize,
) -> (r: ContractWalk)
    ensures
        walk_is(r, walk_list(nodes@, pid@, views(ids@), views(scope@), fuel as nat)),
    decreases fuel, 1usize,
{
    let mut i: usize = 0;
    assert(views(ids@).skip(0) =~= views(ids@));
    while i < ids.len()
        invariant
            i <= ids@.len(),
            walk_list(nodes@, pid@, views(ids@), views(scope@), fuel as nat) == walk_list(
                nodes@,
                pid@,
                views(ids@).skip(i as int),
                views(scope@),
                fuel as nat,
            ),
        decreases ids@.len() - i,
    {
        assert(views(ids@).skip(i as int)[0] == ids@[i as int]@);
        assert(views(ids@).skip(i as int).drop_first() =~= views(ids@).skip(i + 1));
        match find_last_node(nodes, ids[i].as_str()) {
            None => {
                return ContractWalk::Failed(
                    CompilerError::InvalidReference { node_id: pid.clone(), referenced: ids[i].clone() },
                );
            },
            Some(j) => {
                proof {
                    lemma_last_node(nodes@, ids@[i as int]@);
                }
                let r = walk_node(nodes, &nodes[j], scope, fuel);
                match r {
                    ContractWalk::Passed => {},
                    _ => {
                        return r;
                    },
                }
            },
        }
        i = i + 1;
    }
    ContractWalk::Passed
}

fn check_outputs_complete(nodes: &Vec<CirNode>) -> (r: Result<(), CompilerError>)
    ensures
        check_result(r, outputs_complete_s(nodes@)),
{
    let mut i: usize = 0;
    assert(nodes@.skip(0) =~= nodes@);
    while i < nodes.len()
        invariant
            i <= nodes@.len(),
            outputs_complete_s(nodes@) == outputs_complete_s(nodes@.skip(i as int)),
        decreases nodes@.len() - i,
    {
        assert(nodes@.skip(i as int)[0] == nodes@[i as int]);
        assert(nodes@.skip(i as int).drop_first() =~= nodes@.skip(i + 1));
        match &nodes[i].output {
            Some(o) => {
                if is_blank(o.name.as_str()) || is_blank(o.type_label.as_str()) {
                    let mut m = string_of("output schema incomplete (name='");
                    push_text(&mut m, o.name.as_str());
                    push_text(&mut m, "', type_name='");
                    push_text(&mut m, o.type_label.as_str());
                    push_text(&mut m, "')");
                    return Err(violation(&nodes[i].node_id, m));
                }
            },
            None => {},
        }
        i = i + 1;
    }
    Ok(())
}

/// Runs the whole data contract walk of `p`, reporting a walk that would
/// descend forever as `Unbounded`.
pub fn data_contract_walk(p: &CirProgram) -> (r: ContractWalk)
    ensures
        walk_is(r, contract_s(*p)),
{
    match check_outputs_complete(&p.nodes) {
        Err(e) => {
            return ContractWalk::Failed(e);
        },
        Ok(()) => {},
    }
    let nodes = &p.nodes;
    let fuel = nodes.len();
    let empty: Vec<String> = Vec::new();
    assert(views(empty@) =~= seq![]);
    let mut i: usize = 0;
    assert(views(p.entry@).skip(0) =~= views(p.entry@));
    while i < p.entry.len()
        invariant
            nodes@ == p.nodes@,
            fuel == nodes@.len(),
            views(empty@) == Seq::<Seq<char>>::empty(),
            i <= p.entry@.len(),
            outputs_complete_s(p.nodes@) is None,
            entries_s(nodes@, views(p.entry@), fuel as nat) == entries_s(
                nodes@,
                views(p.entry@).skip(i as int),
                fuel as nat,
            ),
        decreases p.entry@.len() - i,
    {
        assert(views(p.entry@).skip(i as int)[0] == p.entry@[i as int]@);
        assert(views(p.entry@).skip(i as int).drop_first() =~= views(p.entry@).skip(i + 1));
        match find_last_node(nodes, p.entry[i].as_str()) {
            None => {},
            Some(j) => {
                proof {
                    lemma_last_node(nodes@, p.entry@[i as int]@);
                }
                let r = walk_node(nodes, &nodes[j], &empty, fuel);
                match r {
                    ContractWalk::Passed => {},
                    _ => {
                        return r;
                    },
                }
            },
        }
        i = i + 1;
    }
    ContractWalk::Passed
}

/// Validates output completeness, binding resolution, field paths, declared
/// input types, item-variable shadowing and loop aggregate outputs.
pub fn validate_data_contract(p: &CirProgram) -> (r: Result<(), CompilerError>)
    requires
        !(contract_s(*p) is Unbounded),
    ensures
        check_result(r, contract_error(*p)),
{
    match data_contract_walk(p) {
        ContractWalk::Passed => Ok(()),
        ContractWalk::Failed(e) => Err(e),
        ContractWalk::Unbounded => Ok(()),
    }
}

} // verus!
