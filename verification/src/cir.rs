//! Structural and semantic validation of CIR programs.

use vstd::prelude::*;

use crate::error::CompilerError;
use crate::expr::{collect_identifiers, idents, parse, parse_error, parse_spec};
use crate::plan::{allowed_capability, is_allowed_capability};
use crate::refs::views;
use crate::text::{push_text, str_eq, string_of};
use crate::types::{CirNode, CirNodeKind, CirProgram, EffectDecl, EffectKind, LoopKind};

verus! {

/// The view of a compiler error that validation reports.
pub enum CErr {
    MissingRequiredField(Seq<char>),
    UnknownCapability(Seq<char>, Seq<char>),
    InvalidReference(Seq<char>, Seq<char>),
    InvalidControlSemantics(Seq<char>, Seq<char>),
    /// A conditional node (its id) whose condition does not parse, with the
    /// parser's message for it.
    BadCondition(Seq<char>, Seq<char>),
    InvalidEffect(Seq<char>),
    NoOpProgram,
    UnreachableNodes(Seq<Seq<char>>),
    UnresolvedBinding(Seq<char>, Seq<char>),
    DataContractViolation(Seq<char>, Seq<char>),
}

/// Whether the compiler error `e` is the one `s` describes.
pub open spec fn err_is(e: CompilerError, s: CErr) -> bool {
    match s {
        CErr::MissingRequiredField(f) => e matches CompilerError::MissingRequiredField { field }
            && field@ == f,
        CErr::UnknownCapability(n, c) => e matches CompilerError::UnknownCapability {
            node_id,
            capability,
        } && node_id@ == n && capability@ == c,
        CErr::InvalidReference(n, x) => e matches CompilerError::InvalidReference {
            node_id,
            referenced,
        } && node_id@ == n && referenced@ == x,
        CErr::InvalidControlSemantics(n, m) => e matches CompilerError::InvalidControlSemantics {
            node_id,
            message,
        } && node_id@ == n && message@ == m,
        CErr::BadCondition(n, d) => e matches CompilerError::InvalidControlSemantics {
            node_id,
            message,
        } && node_id@ == n && message@ == "invalid condition expression: "@ + ("validation failure: "@
            + d),
        CErr::InvalidEffect(m) => e matches CompilerError::InvalidEffect { message } && message@
            == m,
        CErr::NoOpProgram => e is NoOpProgram,
        CErr::UnreachableNodes(ids) => e matches CompilerError::UnreachableNodes { node_ids }
            && views(node_ids@) == ids,
        CErr::UnresolvedBinding(n, b) => e matches CompilerError::UnresolvedBinding {
            node_id,
            binding,
        } && node_id@ == n && binding@ == b,
        CErr::DataContractViolation(n, m) => e matches CompilerError::DataContractViolation {
            node_id,
            message,
        } && node_id@ == n && message@ == m,
    }
}

pub open spec fn check_result(r: Result<(), CompilerError>, s: Option<CErr>) -> bool {
    match s {
        None => r is Ok,
        Some(x) => r is Err && err_is(r->Err_0, x),
    }
}

// ── Specification of the structural stages ─────────────────────────────────

pub open spec fn has_id(nodes: Seq<CirNode>, id: Seq<char>) -> bool {
    exists|k: int| 0 <= k < nodes.len() && (#[trigger] nodes[k]).node_id@ == id
}

/// The first reference in `refs` that names no node.
pub open spec fn first_missing(refs: Seq<String>, nodes: Seq<CirNode>) -> Option<Seq<char>>
    decreases refs.len(),
{
    if refs.len() == 0 {
        None
    } else if !has_id(nodes, refs[0]@) {
        Some(refs[0]@)
    } else {
        first_missing(refs.drop_first(), nodes)
    }
}

pub open spec fn entry_s(p: CirProgram) -> Option<CErr> {
    if p.entry@.len() == 0 {
        Some(CErr::MissingRequiredField("entry"@))
    } else {
        match first_missing(p.entry@, p.nodes@) {
            Some(x) => Some(CErr::InvalidReference("<entry>"@, x)),
            None => None,
        }
    }
}

pub open spec fn children_s(rest: Seq<CirNode>, all: Seq<CirNode>) -> Option<CErr>
    decreases rest.len(),
{
    if rest.len() == 0 {
        None
    } else {
        match first_missing(rest[0].children@, all) {
            Some(x) => Some(CErr::InvalidReference(rest[0].node_id@, x)),
            None => children_s(rest.drop_first(), all),
        }
    }
}

pub open spec fn else_s(rest: Seq<CirNode>, all: Seq<CirNode>) -> Option<CErr>
    decreases rest.len(),
{
    if rest.len() == 0 {
        None
    } else {
        let n = rest[0];
        if n.kind != CirNodeKind::Conditional && n.else_children@.len() > 0 {
            Some(
                CErr::InvalidControlSemantics(
                    n.node_id@,
                    "else_children is only valid on conditional nodes"@,
                ),
            )
        } else {
            match first_missing(n.else_children@, all) {
                Some(x) => Some(CErr::InvalidReference(n.node_id@, x)),
                None => else_s(rest.drop_first(), all),
            }
        }
    }
}

pub open spec fn caps_s(rest: Seq<CirNode>) -> Option<CErr>
    decreases rest.len(),
{
    if rest.len() == 0 {
        None
    } else {
        match rest[0].capability {
            Some(c) => if !allowed_capability(c@) {
                Some(CErr::UnknownCapability(rest[0].node_id@, c@))
            } else {
                caps_s(rest.drop_first())
            },
            None => caps_s(rest.drop_first()),
        }
    }
}

pub open spec fn is_output_name(all: Seq<CirNode>, x: Seq<char>) -> bool {
    exists|k: int|
        0 <= k < all.len() && (#[trigger] all[k]).output is Some && all[k].output.unwrap().name@
            == x
}

pub open spec fn first_non_output(ids: Seq<Seq<char>>, all: Seq<CirNode>) -> Option<Seq<char>>
    decreases ids.len(),
{
    if ids.len() == 0 {
        None
    } else if !is_output_name(all, ids[0]) {
        Some(ids[0])
    } else {
        first_non_output(ids.drop_first(), all)
    }
}

pub open spec fn loop_kind_text(k: LoopKind) -> Seq<char> {
    match k {
        LoopKind::While => "While"@,
        LoopKind::Until => "Until"@,
        LoopKind::ForEach => "ForEach"@,
    }
}

/// Kind-specific control rules of one node.
pub open spec fn node_kind_s(n: CirNode, all: Seq<CirNode>) -> Option<CErr> {
    let id = n.node_id@;
    match n.kind {
        CirNodeKind::Conditional => {
            if n.control is None || n.control.unwrap().condition is None {
                Some(CErr::InvalidControlSemantics(id, "conditional node must have control.condition"@))
            } else {
                match parse_spec(n.control.unwrap().condition.unwrap().expression@) {
                    None => Some(
                        CErr::BadCondition(id, parse_error(n.control.unwrap().condition.unwrap().expression@)),
                    ),
                    Some(e) => match first_non_output(idents(e), all) {
                        Some(x) => Some(CErr::InvalidReference(id, x)),
                        None => None,
                    },
                }
            }
        },
        CirNodeKind::LoopMap => {
            if n.control is None || n.control.unwrap().loop_spec is None {
                Some(CErr::InvalidControlSemantics(id, "loop node must have control.loop_spec"@))
            } else {
                let ls = n.control.unwrap().loop_spec.unwrap();
                if (ls.kind == LoopKind::While || ls.kind == LoopKind::Until) && ls.condition is None {
                    Some(
                        CErr::InvalidControlSemantics(
                            id,
                            loop_kind_text(ls.kind) + " loop must set control.loop_spec.condition"@,
                        ),
                    )
                } else if (ls.kind == LoopKind::While || ls.kind == LoopKind::Until)
                    && ls.max_iterations is None {
                    Some(
                        CErr::InvalidControlSemantics(
                            id,
                            loop_kind_text(ls.kind)
                                + " loop must set max_iterations (termination guarantee)"@,
                        ),
                    )
                } else if ls.kind == LoopKind::ForEach && (ls.input is None || ls.item_var is None) {
                    Some(CErr::InvalidControlSemantics(id, "for_each loop must set input and item_var"@))
                } else if ls.max_iterations == Some(0u32) {
                    Some(CErr::InvalidControlSemantics(id, "max_iterations must be >= 1"@))
                } else {
                    None
                }
            }
        },
        _ => None,
    }
}

/// Control rules of one node: its kind's rules, then its retry policy.
pub open spec fn node_control_s(n: CirNode, all: Seq<CirNode>) -> Option<CErr> {
    match node_kind_s(n, all) {
        Some(e) => Some(e),
        None => if n.control is Some && n.control.unwrap().retry is Some
            && n.control.unwrap().retry.unwrap().max_attempts == 0 {
            Some(CErr::InvalidControlSemantics(n.node_id@, "retry.max_attempts must be >= 1"@))
        } else {
            None
        },
    }
}

pub open spec fn control_s(rest: Seq<CirNode>, all: Seq<CirNode>) -> Option<CErr>
    decreases rest.len(),
{
    if rest.len() == 0 {
        None
    } else {
        match node_control_s(rest[0], all) {
            Some(e) => Some(e),
            None => control_s(rest.drop_first(), all),
        }
    }
}

pub open spec fn effects_s(effs: Seq<EffectDecl>) -> Option<CErr>
    decreases effs.len(),
{
    if effs.len() == 0 {
        None
    } else if effs[0].kind == EffectKind::ExternalIrreversible && effs[0].reversible {
        Some(CErr::InvalidEffect("external_irreversible effect must have reversible: false"@))
    } else {
        effects_s(effs.drop_first())
    }
}

pub open spec fn has_primitive(nodes: Seq<CirNode>) -> bool {
    exists|k: int| 0 <= k < nodes.len() && (#[trigger] nodes[k]).capability is Some
}

// ── Executable structural stages ───────────────────────────────────────────

/// Whether some node has id `id`.
pub fn has_node_id(nodes: &Vec<CirNode>, id: &str) -> (b: bool)
    ensures
        b == has_id(nodes@, id@),
{
    let mut i: usize = 0;
    while i < nodes.len()
        invariant
            i <= nodes@.len(),
            forall|k: int| 0 <= k < i ==> (#[trigger] nodes@[k]).node_id@ != id@,
        decreases nodes@.len() - i,
    {
        if str_eq(nodes[i].node_id.as_str(), id) {
            assert(nodes@[i as int].node_id@ == id@);
            return true;
        }
        i = i + 1;
    }
    false
}

/// The first reference that names no node.
pub fn find_missing<'a>(refs: &'a Vec<String>, nodes: &Vec<CirNode>) -> (r: Option<&'a String>)
    ensures
        match first_missing(refs@, nodes@) {
            None => r is None,
            Some(x) => r is Some && r.unwrap()@ == x,
        },
{
    let mut i: usize = 0;
    assert(refs@.skip(0) =~= refs@);
    while i < refs.len()
        invariant
            i <= refs@.len(),
            first_missing(refs@, nodes@) == first_missing(refs@.skip(i as int), nodes@),
        decreases refs@.len() - i,
    {
        assert(refs@.skip(i as int)[0] == refs@[i as int]);
        assert(refs@.skip(i as int).drop_first() =~= refs@.skip(i + 1));
        if !has_node_id(nodes, refs[i].as_str()) {
            return Some(&refs[i]);
        }
        i = i + 1;
    }
    None
}

fn invalid_reference(node_id: &str, referenced: &String) -> (e: CompilerError)
    ensures
        err_is(e, CErr::InvalidReference(node_id@, referenced@)),
{
    CompilerError::InvalidReference { node_id: string_of(node_id), referenced: referenced.clone() }
}

fn control_error(node_id: &String, message: String) -> (e: CompilerError)
    ensures
        err_is(e, CErr::InvalidControlSemantics(node_id@, message@)),
{
    CompilerError::InvalidControlSemantics { node_id: node_id.clone(), message }
}

pub fn check_entry(p: &CirProgram) -> (r: Result<(), CompilerError>)
    ensures
        check_result(r, entry_s(*p)),
{
    if p.entry.len() == 0 {
        return Err(CompilerError::MissingRequiredField { field: string_of("entry") });
    }
    match find_missing(&p.entry, &p.nodes) {
        Some(x) => Err(invalid_reference("<entry>", x)),
        None => Ok(()),
    }
}

pub fn check_children(p: &CirProgram) -> (r: Result<(), CompilerError>)
    ensures
        check_result(r, children_s(p.nodes@, p.nodes@)),
{
    let nodes = &p.nodes;
    let mut i: usize = 0;
    assert(nodes@.skip(0) =~= nodes@);
    while i < nodes.len()
        invariant
            i <= nodes@.len(),
            nodes@ == p.nodes@,
            children_s(nodes@, nodes@) == children_s(nodes@.skip(i as int), nodes@),
        decreases nodes@.len() - i,
    {
        assert(nodes@.skip(i as int)[0] == nodes@[i as int]);
        assert(nodes@.skip(i as int).drop_first() =~= nodes@.skip(i + 1));
        match find_missing(&nodes[i].children, nodes) {
            Some(x) => {
                return Err(invalid_reference(nodes[i].node_id.as_str(), x));
            },
            None => {},
        }
        i = i + 1;
    }
    Ok(())
}

pub fn check_else_children(p: &CirProgram) -> (r: Result<(), CompilerError>)
    ensures
        check_result(r, else_s(p.nodes@, p.nodes@)),
{
    let nodes = &p.nodes;
    let mut i: usize = 0;
    assert(nodes@.skip(0) =~= nodes@);
    while i < nodes.len()
        invariant
            i <= nodes@.len(),
            nodes@ == p.nodes@,
            else_s(nodes@, nodes@) == else_s(nodes@.skip(i as int), nodes@),
        decreases nodes@.len() - i,
    {
        assert(nodes@.skip(i as int)[0] == nodes@[i as int]);
        assert(nodes@.skip(i as int).drop_first() =~= nodes@.skip(i + 1));
        let n = &nodes[i];
        if n.kind != CirNodeKind::Conditional && n.else_children.len() > 0 {
            return Err(
                control_error(
                    &n.node_id,
                    string_of("else_children is only valid on conditional nodes"),
                ),
            );
        }
        match find_missing(&n.else_children, nodes) {
            Some(x) => {
                return Err(invalid_reference(n.node_id.as_str(), x));
            },
            None => {},
        }
        i = i + 1;
    }
    Ok(())
}

/// Validates that all capabilities are in the allowed set.
pub fn validate_capabilities(p: &CirProgram) -> (r: Result<(), CompilerError>)
    ensures
        check_result(r, caps_s(p.nodes@)),
{
    let nodes = &p.nodes;
    let mut i: usize = 0;
    assert(nodes@.skip(0) =~= nodes@);
    while i < nodes.len()
        invariant
            i <= nodes@.len(),
            nodes@ == p.nodes@,
            caps_s(nodes@) == caps_s(nodes@.skip(i as int)),
        decreases nodes@.len() - i,
    {
        assert(nodes@.skip(i as int)[0] == nodes@[i as int]);
        assert(nodes@.skip(i as int).drop_first() =~= nodes@.skip(i + 1));
        match &nodes[i].capability {
            Some(c) => {
                if !is_allowed_capability(c.as_str()) {
                    return Err(
                        CompilerError::UnknownCapability {
                            node_id: nodes[i].node_id.clone(),
                            capability: c.clone(),
                        },
                    );
                }
            },
            None => {},
        }
        i = i + 1;
    }
    Ok(())
}

/// The effect rule: declarations are refused exactly when one of them is an
/// external irreversible effect marked reversible, and the refusal says so.
pub proof fn lemma_effects_rule(effs: Seq<EffectDecl>)
    ensures
        effects_s(effs) is Some <==> exists|i: int|
            0 <= i < effs.len() && (#[trigger] effs[i]).kind == EffectKind::ExternalIrreversible
                && effs[i].reversible,
        effects_s(effs) is Some ==> effects_s(effs) == Some(
            CErr::InvalidEffect("external_irreversible effect must have reversible: false"@),
        ),
    decreases effs.len(),
{
    if effs.len() > 0 {
        let d = effs.drop_first();
        lemma_effects_rule(d);
        if exists|i: int|
            0 <= i < d.len() && (#[trigger] d[i]).kind == EffectKind::ExternalIrreversible
                && d[i].reversible {
            let i = choose|i: int|
                0 <= i < d.len() && (#[trigger] d[i]).kind == EffectKind::ExternalIrreversible
                    && d[i].reversible;
            assert(effs[i + 1] == d[i]);
        }
        if exists|i: int|
            0 <= i < effs.len() && (#[trigger] effs[i]).kind == EffectKind::ExternalIrreversible
                && effs[i].reversible {
            let i = choose|i: int|
                0 <= i < effs.len() && (#[trigger] effs[i]).kind == EffectKind::ExternalIrreversible
                    && effs[i].reversible;
            if i > 0 {
                assert(d[i - 1] == effs[i]);
            }
        }
    }
}

/// Validates effect declarations.
pub fn validate_effects(p: &CirProgram) -> (r: Result<(), CompilerError>)
    ensures
        check_result(r, effects_s(p.effects@)),
        r is Err <==> exists|i: int|
            0 <= i < p.effects@.len() && (#[trigger] p.effects@[i]).kind
                == EffectKind::ExternalIrreversible && p.effects@[i].reversible,
        r is Err ==> r->Err_0 is InvalidEffect,
{
    proof {
        lemma_effects_rule(p.effects@);
    }
    let effs = &p.effects;
    let mut i: usize = 0;
    assert(effs@.skip(0) =~= effs@);
    while i < effs.len()
        invariant
            i <= effs@.len(),
            effs@ == p.effects@,
            effects_s(effs@) == effects_s(effs@.skip(i as int)),
        decreases effs@.len() - i,
    {
        assert(effs@.skip(i as int)[0] == effs@[i as int]);
        assert(effs@.skip(i as int).drop_first() =~= effs@.skip(i + 1));
        if effs[i].kind == EffectKind::ExternalIrreversible && effs[i].reversible {
            return Err(
                CompilerError::InvalidEffect {
                    message: string_of("external_irreversible effect must have reversible: false"),
                },
            );
        }
        i = i + 1;
    }
    Ok(())
}

/// Whether some node declares output `x`.
pub fn has_output_name(all: &Vec<CirNode>, x: &str) -> (b: bool)
    ensures
        b == is_output_name(all@, x@),
{
    let mut i: usize = 0;
    while i < all.len()
        invariant
            i <= all@.len(),
            forall|k: int|
                0 <= k < i ==> !((#[trigger] all@[k]).output is Some
                    && all@[k].output.unwrap().name@ == x@),
        decreases all@.len() - i,
    {
        match &all[i].output {
            Some(o) => {
                if str_eq(o.name.as_str(), x) {
                    return true;
                }
            },
            None => {},
        }
        i = i + 1;
    }
    false
}

fn find_non_output<'a>(ids: &'a Vec<String>, all: &Vec<CirNode>) -> (r: Option<&'a String>)
    ensures
        match first_non_output(views(ids@), all@) {
            None => r is None,
            Some(x) => r is Some && r.unwrap()@ == x,
        },
{
    let mut i: usize = 0;
    assert(views(ids@).skip(0) =~= views(ids@));
    while i < ids.len()
        invariant
            i <= ids@.len(),
            first_non_output(views(ids@), all@) == first_non_output(
                views(ids@).skip(i as int),
                all@,
            ),
        decreases ids@.len() - i,
    {
        assert(views(ids@).skip(i as int)[0] == ids@[i as int]@);
        assert(views(ids@).skip(i as int).drop_first() =~= views(ids@).skip(i + 1));
        if !has_output_name(all, ids[i].as_str()) {
            return Some(&ids[i]);
        }
        i = i + 1;
    }
    None
}

fn loop_kind_name(k: LoopKind) -> (r: &'static str)
    ensures
        r@ == loop_kind_text(k),
{
    match k {
        LoopKind::While => "While",
        LoopKind::Until => "Until",
        LoopKind::ForEach => "ForEach",
    }
}

fn check_node_kind(n: &CirNode, all: &Vec<CirNode>) -> (r: Result<(), CompilerError>)
    ensures
        check_result(r, node_kind_s(*n, all@)),
{
    let id = &n.node_id;
    match n.kind {
        CirNodeKind::Conditional => {
            let cond = match &n.control {
                Some(c) => match &c.condition {
                    Some(cs) => cs.expression.as_str(),
                    None => {
                        return Err(
                            control_error(id, string_of("conditional node must have control.condition")),
                        );
                    },
                },
                None => {
                    return Err(
                        control_error(id, string_of("conditional node must have control.condition")),
                    );
                },
            };
            match parse(cond) {
                Err(e) => {
                    let mut m = string_of("invalid condition expression: ");
                    let t = e.to_text();
                    push_text(&mut m, t.as_str());
                    Err(CompilerError::InvalidControlSemantics { node_id: id.clone(), message: m })
                },
                Ok(expr) => {
                    proof {
                        crate::expr::lemma_parse_wf(cond@);
                    }
                    let ids = collect_identifiers(&expr);
                    match find_non_output(&ids, all) {
                        Some(x) => Err(invalid_reference(id.as_str(), x)),
                        None => Ok(()),
                    }
                },
            }
        },
        CirNodeKind::LoopMap => {
            let ls = match &n.control {
                Some(c) => match &c.loop_spec {
                    Some(l) => l,
                    None => {
                        return Err(control_error(id, string_of("loop node must have control.loop_spec")));
                    },
                },
                None => {
                    return Err(control_error(id, string_of("loop node must have control.loop_spec")));
                },
            };
            match ls.kind {
                LoopKind::While | LoopKind::Until => {
                    if ls.condition.is_none() {
                        let mut m = string_of(loop_kind_name(ls.kind));
                        push_text(&mut m, " loop must set control.loop_spec.condition");
                        return Err(control_error(id, m));
                    }
                    if ls.max_iterations.is_none() {
                        let mut m = string_of(loop_kind_name(ls.kind));
                        push_text(&mut m, " loop must set max_iterations (termination guarantee)");
                        return Err(control_error(id, m));
                    }
                },
                LoopKind::ForEach => {
                    if ls.input.is_none() || ls.item_var.is_none() {
                        return Err(
                            control_error(id, string_of("for_each loop must set input and item_var")),
                        );
                    }
                },
            }
            match ls.max_iterations {
                Some(m) => {
                    if m == 0 {
                        return Err(control_error(id, string_of("max_iterations must be >= 1")));
                    }
                },
                None => {},
            }
            Ok(())
        },
        _ => Ok(()),
    }
}

/// Validates control semantics node by node.
pub fn validate_control_semantics(p: &CirProgram) -> (r: Result<(), CompilerError>)
    ensures
        check_result(r, control_s(p.nodes@, p.nodes@)),
{
    let nodes = &p.nodes;
    let mut i: usize = 0;
    assert(nodes@.skip(0) =~= nodes@);
    while i < nodes.len()
        invariant
            i <= nodes@.len(),
            nodes@ == p.nodes@,
            control_s(nodes@, nodes@) == control_s(nodes@.skip(i as int), nodes@),
        decreases nodes@.len() - i,
    {
        assert(nodes@.skip(i as int)[0] == nodes@[i as int]);
        assert(nodes@.skip(i as int).drop_first() =~= nodes@.skip(i + 1));
        let n = &nodes[i];
        let c = check_node_kind(n, nodes);
        if c.is_err() {
            return c;
        }
        match &n.control {
            Some(c) => match &c.retry {
                Some(rp) => {
                    if rp.max_attempts == 0 {
                        return Err(control_error(&n.node_id, string_of("retry.max_attempts must be >= 1")));
                    }
                },
                None => {},
            },
            None => {},
        }
        i = i + 1;
    }
    Ok(())
}

/// Whether some node invokes a capability.
pub fn any_primitive(nodes: &Vec<CirNode>) -> (b: bool)
    ensures
        b == has_primitive(nodes@),
{
    let mut i: usize = 0;
    while i < nodes.len()
        invariant
            i <= nodes@.len(),
            forall|k: int| 0 <= k < i ==> (#[trigger] nodes@[k]).capability is None,
        decreases nodes@.len() - i,
    {
        if nodes[i].capability.is_some() {
            return true;
        }
        i = i + 1;
    }
    false
}

} // verus!
