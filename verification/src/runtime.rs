//! The runtime's decisions: run reports, recovery proposals and their
//! validation, retry safety, loop stepping, reference templates and the
//! lookup of bindings and JSON paths in a run's environment.

use vstd::prelude::*;

use crate::error::AcosError;
use crate::expr::Operand;
use crate::json::{get_member, member_of, JsonValue};
use crate::lower::{opt_view, pairs_view};
use crate::plan::{contains_name, starts_with};
use crate::refs::views;
use crate::text::{
    chars_of, find_chars, find_from, lemma_find_from_bounds, push_text, slice_chars, str_eq,
    string_from_chars, string_of, u64_text, dec_text,
};
use crate::traits::{Event, RunStatus};
use crate::types::{
    fields_view, clone_fields, CirNode, CirNodeKind, CirProgram, EffectKind, FailureClass, LoopKind,
    OutputSpec, RunId, TypedValue,
};

verus! {

// ── Run reports ────────────────────────────────────────────────────────────

/// A piece of evidence collected during a run.
pub struct Evidence {
    pub description: String,
    pub logged: bool,
}

impl Evidence {
    /// Whether this evidence was persisted to the event log.
    pub fn is_logged(&self) -> (b: bool)
        ensures
            b == self.logged,
    {
        self.logged
    }
}

/// The result of executing a program.
pub struct RunReport {
    pub run_id: RunId,
    pub status: RunStatus,
    pub artifacts: Vec<String>,
    pub evidence: Vec<Evidence>,
}

impl RunReport {
    /// The names of produced artifacts.
    pub fn artifacts(&self) -> (r: &Vec<String>)
        ensures
            r == &self.artifacts,
    {
        &self.artifacts
    }

    /// The collected evidence.
    pub fn evidence(&self) -> (r: &Vec<Evidence>)
        ensures
            r == &self.evidence,
    {
        &self.evidence
    }
}

// ── Recovery ───────────────────────────────────────────────────────────────

/// The context of a runtime failure handed to a replanner.
pub struct FailureContext {
    pub run_id: RunId,
    pub node_id: String,
    pub error_class: FailureClass,
    pub error_message: String,
    pub attempts: u32,
    pub recent_events: Vec<Event>,
}

// ── Recovery driving ───────────────────────────────────────────────────────

/// Recovery (replanning) attempts allowed per run before it fails.
pub const MAX_RECOVERY_ATTEMPTS: u32 = 3;

/// At most how many recent events a failure context carries.
pub const RECENT_EVENTS: usize = 5;

/// The most recent events of a run log, newest first, at most
/// `RECENT_EVENTS` of them.
pub fn recent_events(events: Vec<Event>) -> (r: Vec<Event>)
    ensures
        r@ == events@.reverse().take(
            if events@.len() < RECENT_EVENTS {
                events@.len() as int
            } else {
                RECENT_EVENTS as int
            },
        ),
{
    let ghost orig = events@;
    let mut rest = events;
    let mut r: Vec<Event> = Vec::new();
    while r.len() < RECENT_EVENTS && rest.len() > 0
        invariant
            r@.len() <= RECENT_EVENTS,
            rest@.len() + r@.len() == orig.len(),
            rest@ == orig.take(rest@.len() as int),
            r@ == orig.reverse().take(r@.len() as int),
        decreases rest@.len(),
    {
        let ghost k = r@.len() as int;
        let e = rest.pop().unwrap();
        proof {
            assert(e == orig[orig.len() - 1 - k]);
            assert(orig.reverse()[k] == orig[orig.len() - 1 - k]);
        }
        r.push(e);
        assert(rest@ =~= orig.take(rest@.len() as int));
        assert(r@ =~= orig.reverse().take(r@.len() as int));
    }
    r
}

/// What the executor does next while recovering from a node failure.
#[derive(Debug, Clone, Copy, PartialEq, Eq, Structural)]
pub enum RecoveryAction {
    /// Ask the rule replanner for a patch.
    AskRule,
    /// Ask the model replanner for a patch.
    AskModel,
    /// A patch was committed: run the program again.
    Rerun,
    /// Give up: the run fails with the node's error.
    Fail,
}

/// What a node failure leads to after `attempts` committed patches.
pub open spec fn failure_action(attempts: u32, has_rule: bool, has_model: bool) -> RecoveryAction {
    if attempts >= MAX_RECOVERY_ATTEMPTS {
        RecoveryAction::Fail
    } else if has_rule {
        RecoveryAction::AskRule
    } else if has_model {
        RecoveryAction::AskModel
    } else {
        RecoveryAction::Fail
    }
}

/// The recovery state of one run: how many patches were committed.
pub struct RecoveryDriver {
    pub attempts: u32,
    pub has_rule: bool,
    pub has_model: bool,
}

impl RecoveryDriver {
    /// A run with the given replanners and no patch yet.
    pub fn new(has_rule: bool, has_model: bool) -> (r: Self)
        ensures
            r.attempts == 0,
            r.has_rule == has_rule,
            r.has_model == has_model,
    {
        RecoveryDriver { attempts: 0, has_rule, has_model }
    }

    /// A node failed: below the attempt limit the rule replanner is asked
    /// first, else the model replanner; with neither, or at the limit, the
    /// run fails.
    pub fn on_failure(&self) -> (a: RecoveryAction)
        ensures
            a == failure_action(self.attempts, self.has_rule, self.has_model),
    {
        if self.attempts >= MAX_RECOVERY_ATTEMPTS {
            RecoveryAction::Fail
        } else if self.has_rule {
            RecoveryAction::AskRule
        } else if self.has_model {
            RecoveryAction::AskModel
        } else {
            RecoveryAction::Fail
        }
    }

    /// The rule replanner answered: a committed patch reruns the program,
    /// else the model replanner is asked if there is one.
    pub fn on_rule_outcome(&mut self, committed: bool) -> (a: RecoveryAction)
        requires
            old(self).attempts < MAX_RECOVERY_ATTEMPTS,
        ensures
            final(self).has_rule == old(self).has_rule,
            final(self).has_model == old(self).has_model,
            committed ==> a == RecoveryAction::Rerun && final(self).attempts == old(self).attempts + 1,
            !committed ==> final(self).attempts == old(self).attempts && a == if old(self).has_model {
                RecoveryAction::AskModel
            } else {
                RecoveryAction::Fail
            },
    {
        if committed {
            self.attempts = self.attempts + 1;
            RecoveryAction::Rerun
        } else if self.has_model {
            RecoveryAction::AskModel
        } else {
            RecoveryAction::Fail
        }
    }

    /// The model replanner answered: a committed patch reruns the program,
    /// else the run fails.
    pub fn on_model_outcome(&mut self, committed: bool) -> (a: RecoveryAction)
        requires
            old(self).attempts < MAX_RECOVERY_ATTEMPTS,
        ensures
            final(self).has_rule == old(self).has_rule,
            final(self).has_model == old(self).has_model,
            committed ==> a == RecoveryAction::Rerun && final(self).attempts == old(self).attempts + 1,
            !committed ==> a == RecoveryAction::Fail && final(self).attempts == old(self).attempts,
    {
        if committed {
            self.attempts = self.attempts + 1;
            RecoveryAction::Rerun
        } else {
            RecoveryAction::Fail
        }
    }
}

/// A run commits at most `MAX_RECOVERY_ATTEMPTS` patches: a replanner is
/// only asked below the limit, and each commit counts one attempt.
pub proof fn lemma_recovery_bounded(attempts: u32, has_rule: bool, has_model: bool)
    requires
        attempts <= MAX_RECOVERY_ATTEMPTS,
    ensures
        attempts == MAX_RECOVERY_ATTEMPTS ==> failure_action(attempts, has_rule, has_model)
            == RecoveryAction::Fail,
        failure_action(attempts, has_rule, has_model) != RecoveryAction::Fail ==> attempts + 1
            <= MAX_RECOVERY_ATTEMPTS,
{
}

/// A recovery patch: a subgraph whose root replaces a failing node.
pub struct RecoveryProposal {
    pub replace_node: String,
    pub subgraph: Vec<CirNode>,
    pub reason: String,
}

/// Falls back to reading a local file when a node fails with a transient
/// failure class.
#[derive(Debug)]
pub struct OfflineFallbackRule {
    pub fallback_path: String,
}

/// The transient failure classes.
pub open spec fn transient(c: FailureClass) -> bool {
    c == FailureClass::Timeout || c == FailureClass::RateLimit || c
        == FailureClass::TransientNetworkError
}

/// The first node with id `id`.
pub open spec fn first_with_id(nodes: Seq<CirNode>, id: Seq<char>) -> Option<CirNode>
    decreases nodes.len(),
{
    if nodes.len() == 0 {
        None
    } else if nodes[0].node_id@ == id {
        Some(nodes[0])
    } else {
        first_with_id(nodes.drop_first(), id)
    }
}

pub open spec fn same_output(a: Option<OutputSpec>, b: Option<OutputSpec>) -> bool {
    match (a, b) {
        (None, None) => true,
        (Some(x), Some(y)) => x.name@ == y.name@ && x.type_label@ == y.type_label@ && fields_view(
            x.fields@,
        ) == fields_view(y.fields@),
        _ => false,
    }
}

/// The fallback node: the failing node turned into a `read_file` of the
/// fallback path, with no children and no control.
pub open spec fn fallback_node(n: CirNode, failing: CirNode, path: Seq<char>) -> bool {
    &&& n.kind == CirNodeKind::PrimitiveInvocation
    &&& n.node_id@ == failing.node_id@
    &&& opt_view(n.capability) == Some("read_file"@)
    &&& same_output(n.output, failing.output)
    &&& pairs_view(n.input_types@) == pairs_view(failing.input_types@)
    &&& n.children@.len() == 0
    &&& views(n.else_children@) == views(failing.else_children@)
    &&& n.inputs@.len() == 1
    &&& n.inputs@[0].0@ == "path"@
    &&& (n.inputs@[0].1 matches JsonValue::Str(s) && s@ == path)
    &&& n.control is None
}

fn copy_strings(v: &Vec<String>) -> (r: Vec<String>)
    ensures
        views(r@) == views(v@),
{
    let mut r: Vec<String> = Vec::new();
    crate::reach::push_all(&mut r, v);
    assert(views(r@) =~= views(v@));
    r
}

fn copy_pairs(v: &Vec<(String, String)>) -> (r: Vec<(String, String)>)
    ensures
        pairs_view(r@) == pairs_view(v@),
{
    let mut r: Vec<(String, String)> = Vec::new();
    let mut i: usize = 0;
    while i < v.len()
        invariant
            i <= v@.len(),
            pairs_view(r@) == pairs_view(v@.take(i as int)),
        decreases v@.len() - i,
    {
        let ghost before = pairs_view(r@);
        r.push((v[i].0.clone(), v[i].1.clone()));
        assert(pairs_view(r@) =~= before.push((v@[i as int].0@, v@[i as int].1@)));
        assert(pairs_view(v@.take(i + 1)) =~= pairs_view(v@.take(i as int)).push(
            (v@[i as int].0@, v@[i as int].1@),
        ));
        i = i + 1;
    }
    assert(v@.take(i as int) =~= v@);
    r
}

fn copy_output(o: &Option<OutputSpec>) -> (r: Option<OutputSpec>)
    ensures
        same_output(r, *o),
{
    match o {
        Some(x) => Some(
            OutputSpec {
                name: x.name.clone(),
                type_label: x.type_label.clone(),
                fields: clone_fields(&x.fields),
            },
        ),
        None => None,
    }
}

impl OfflineFallbackRule {
    /// The rule applies to transient failures.
    pub fn matches(&self, failure: &FailureContext) -> (b: bool)
        ensures
            b == transient(failure.error_class),
    {
        match failure.error_class {
            FailureClass::Timeout | FailureClass::RateLimit | FailureClass::TransientNetworkError => true,
            _ => false,
        }
    }

    /// Replaces the failing node in place by a read of the fallback file.
    #[verifier::loop_isolation(false)]
    pub fn propose(&self, failure: &FailureContext, program: &CirProgram) -> (r: Option<
        RecoveryProposal,
    >)
        ensures
            match first_with_id(program.nodes@, failure.node_id@) {
                None => r is None,
                Some(failing) => r is Some && {
                    let p = r.unwrap();
                    &&& p.replace_node@ == failure.node_id@
                    &&& p.subgraph@.len() == 1
                    &&& fallback_node(p.subgraph@[0], failing, self.fallback_path@)
                    &&& p.reason@ == failure.error_message@ + ": falling back to local file '"@
                        + self.fallback_path@ + "'"@
                },
            },
    {
        let nodes = &program.nodes;
        let mut i: usize = 0;
        assert(nodes@.skip(0) =~= nodes@);
        while i < nodes.len()
            invariant
                i <= nodes@.len(),
                first_with_id(nodes@, failure.node_id@) == first_with_id(
                    nodes@.skip(i as int),
                    failure.node_id@,
                ),
            decreases nodes@.len() - i,
        {
            assert(nodes@.skip(i as int)[0] == nodes@[i as int]);
            assert(nodes@.skip(i as int).drop_first() =~= nodes@.skip(i + 1));
            let n = &nodes[i];
            if str_eq(n.node_id.as_str(), failure.node_id.as_str()) {
                let mut inputs: Vec<(String, JsonValue)> = Vec::new();
                inputs.push((string_of("path"), JsonValue::Str(self.fallback_path.clone())));
                let root = CirNode {
                    kind: CirNodeKind::PrimitiveInvocation,
                    node_id: n.node_id.clone(),
                    capability: Some(string_of("read_file")),
                    output: copy_output(&n.output),
                    input_types: copy_pairs(&n.input_types),
                    children: Vec::new(),
                    else_children: copy_strings(&n.else_children),
                    inputs,
                    control: None,
                };
                let mut subgraph: Vec<CirNode> = Vec::new();
                subgraph.push(root);
                let mut reason = failure.error_message.clone();
                push_text(&mut reason, ": falling back to local file '");
                push_text(&mut reason, self.fallback_path.as_str());
                push_text(&mut reason, "'");
                return Some(
                    RecoveryProposal { replace_node: failure.node_id.clone(), subgraph, reason },
                );
            }
            i = i + 1;
        }
        None
    }
}

// ── Proposal validation ────────────────────────────────────────────────────

pub open spec fn node_ids_of(nodes: Seq<CirNode>) -> Seq<Seq<char>> {
    nodes.map_values(|n: CirNode| n.node_id@)
}

/// The first subgraph node (from index `i`) whose id is neither the replaced
/// node's nor new: `known` collects the program's ids and the ids seen so far.
pub open spec fn first_duplicate(
    sub: Seq<CirNode>,
    i: int,
    replace: Seq<char>,
    known: Seq<Seq<char>>,
) -> Option<Seq<char>>
    decreases sub.len() - i,
{
    if i < 0 || i >= sub.len() {
        None
    } else {
        let id = sub[i].node_id@;
        if id != replace && known.contains(id) {
            Some(id)
        } else {
            first_duplicate(
                sub,
                i + 1,
                replace,
                if id != replace {
                    known.push(id)
                } else {
                    known
                },
            )
        }
    }
}

/// Every id the program and subgraph know after the duplicate check.
pub open spec fn known_after(sub: Seq<CirNode>, i: int, replace: Seq<char>, known: Seq<Seq<char>>) -> Seq<Seq<char>>
    decreases sub.len() - i,
{
    if i < 0 || i >= sub.len() {
        known
    } else {
        let id = sub[i].node_id@;
        known_after(
            sub,
            i + 1,
            replace,
            if id != replace {
                known.push(id)
            } else {
                known
            },
        )
    }
}

/// The first child reference of the subgraph that names no known node.
pub open spec fn first_unknown_child(sub: Seq<CirNode>, known: Seq<Seq<char>>) -> Option<Seq<char>> {
    let bad = |c: Seq<char>| !node_ids_of(sub).contains(c) && !known.contains(c);
    first_bad_child(sub, 0, bad)
}

pub open spec fn first_bad_child(sub: Seq<CirNode>, i: int, bad: spec_fn(Seq<char>) -> bool) -> Option<
    Seq<char>,
>
    decreases sub.len() - i,
{
    if i < 0 || i >= sub.len() {
        None
    } else {
        match first_in(views(sub[i].children@), bad) {
            Some(c) => Some(c),
            None => first_bad_child(sub, i + 1, bad),
        }
    }
}

pub open spec fn first_in(cs: Seq<Seq<char>>, bad: spec_fn(Seq<char>) -> bool) -> Option<Seq<char>>
    decreases cs.len(),
{
    if cs.len() == 0 {
        None
    } else if bad(cs[0]) {
        Some(cs[0])
    } else {
        first_in(cs.drop_first(), bad)
    }
}

pub open spec fn effect_kind_name(k: EffectKind) -> Seq<char> {
    match k {
        EffectKind::FsRead => "FsRead"@,
        EffectKind::FsWrite => "FsWrite"@,
        EffectKind::NetworkRead => "NetworkRead"@,
        EffectKind::NetworkWrite => "NetworkWrite"@,
        EffectKind::ProcessSpawn => "ProcessSpawn"@,
        EffectKind::SecretRead => "SecretRead"@,
        EffectKind::ExternalIrreversible => "ExternalIrreversible"@,
    }
}

/// Why the capability step of proposal validation fails, if it does: for
/// each subgraph node with a capability in order, the capability must
/// resolve (`resolved[i]`), and each effect kind it declares must already be
/// declared by the program.
pub open spec fn capability_error(
    sub: Seq<CirNode>,
    resolved: Seq<Option<Seq<EffectKind>>>,
    declared: Seq<EffectKind>,
    i: int,
) -> Option<Seq<char>>
    decreases sub.len() - i,
{
    if i < 0 || i >= sub.len() {
        None
    } else if sub[i].capability is Some {
        let cap = sub[i].capability.unwrap()@;
        match resolved[i] {
            None => Some("recovery subgraph capability '"@ + cap + "' is unavailable"@),
            Some(ks) => match first_undeclared(ks, declared) {
                Some(k) => Some(
                    "recovery subgraph effect "@ + effect_kind_name(k)
                        + " not declared in program.effects"@,
                ),
                None => capability_error(sub, resolved, declared, i + 1),
            },
        }
    } else {
        capability_error(sub, resolved, declared, i + 1)
    }
}

pub open spec fn first_undeclared(ks: Seq<EffectKind>, declared: Seq<EffectKind>) -> Option<EffectKind>
    decreases ks.len(),
{
    if ks.len() == 0 {
        None
    } else if !declared.contains(ks[0]) {
        Some(ks[0])
    } else {
        first_undeclared(ks.drop_first(), declared)
    }
}

/// Why a recovery proposal is refused, if it is.
pub open spec fn proposal_error(
    program: CirProgram,
    p: RecoveryProposal,
    resolved: Seq<Option<Seq<EffectKind>>>,
) -> Option<Seq<char>> {
    let sub = p.subgraph@;
    let replace = p.replace_node@;
    let prog_ids = node_ids_of(program.nodes@);
    let declared = program.effects@.map_values(|e: crate::types::EffectDecl| e.kind);
    if sub.len() == 0 {
        Some("recovery proposal has empty subgraph"@)
    } else if sub[0].node_id@ != replace {
        Some(
            "recovery subgraph root '"@ + sub[0].node_id@ + "' must reuse replace_node id '"@
                + replace + "'"@,
        )
    } else if first_duplicate(sub, 0, replace, prog_ids) is Some {
        Some(
            "recovery subgraph introduces duplicate node id '"@ + first_duplicate(
                sub,
                0,
                replace,
                prog_ids,
            ).unwrap() + "'"@,
        )
    } else if first_unknown_child(sub, known_after(sub, 0, replace, prog_ids)) is Some {
        Some(
            "recovery subgraph references unknown child '"@ + first_unknown_child(
                sub,
                known_after(sub, 0, replace, prog_ids),
            ).unwrap() + "'"@,
        )
    } else {
        capability_error(sub, resolved, declared, 0)
    }
}


pub open spec fn resolved_view(r: Seq<Option<Vec<EffectKind>>>) -> Seq<Option<Seq<EffectKind>>> {
    r.map_values(
        |o: Option<Vec<EffectKind>>|
            match o {
                Some(v) => Some(v@),
                None => None,
            },
    )
}

fn refuse(message: String) -> (e: AcosError)
    ensures
        e matches AcosError::ValidationFailure { message: m } && m@ == message@,
{
    AcosError::ValidationFailure { message }
}

fn kind_label(k: EffectKind) -> (r: &'static str)
    ensures
        r@ == effect_kind_name(k),
{
    match k {
        EffectKind::FsRead => "FsRead",
        EffectKind::FsWrite => "FsWrite",
        EffectKind::NetworkRead => "NetworkRead",
        EffectKind::NetworkWrite => "NetworkWrite",
        EffectKind::ProcessSpawn => "ProcessSpawn",
        EffectKind::SecretRead => "SecretRead",
        EffectKind::ExternalIrreversible => "ExternalIrreversible",
    }
}

/// Validates a recovery proposal against the program before it is
/// committed: a non-empty subgraph whose root reuses the replaced id, no
/// duplicate ids, only known children, and capabilities that resolve
/// (`resolved[i]` holds the effect kinds of node `i`'s capability, `None`
/// when it does not resolve) with effects the program already declares.
#[verifier::loop_isolation(false)]
pub fn validate_proposal(
    program: &CirProgram,
    proposal: &RecoveryProposal,
    resolved: &Vec<Option<Vec<EffectKind>>>,
) -> (r: Result<(), AcosError>)
    requires
        resolved@.len() == proposal.subgraph@.len(),
    ensures
        match proposal_error(*program, *proposal, resolved_view(resolved@)) {
            None => r is Ok,
            Some(m) => r matches Err(AcosError::ValidationFailure { message }) && message@ == m,
        },
{
    let sub = &proposal.subgraph;
    let replace = proposal.replace_node.as_str();
    if sub.len() == 0 {
        return Err(refuse(string_of("recovery proposal has empty subgraph")));
    }
    if !str_eq(sub[0].node_id.as_str(), replace) {
        let mut m = string_of("recovery subgraph root '");
        push_text(&mut m, sub[0].node_id.as_str());
        push_text(&mut m, "' must reuse replace_node id '");
        push_text(&mut m, replace);
        push_text(&mut m, "'");
        return Err(refuse(m));
    }
    let ghost prog_ids = node_ids_of(program.nodes@);
    let mut known: Vec<String> = Vec::new();
    let mut j: usize = 0;
    while j < program.nodes.len()
        invariant
            j <= program.nodes@.len(),
            views(known@) == node_ids_of(program.nodes@.take(j as int)),
        decreases program.nodes@.len() - j,
    {
        let ghost before = views(known@);
        known.push(program.nodes[j].node_id.clone());
        assert(views(known@) =~= before.push(program.nodes@[j as int].node_id@));
        assert(node_ids_of(program.nodes@.take(j + 1)) =~= node_ids_of(program.nodes@.take(j as int)).push(
            program.nodes@[j as int].node_id@,
        ));
        j = j + 1;
    }
    assert(program.nodes@.take(j as int) =~= program.nodes@);
    let mut i: usize = 0;
    while i < sub.len()
        invariant
            i <= sub@.len(),
            sub@ == proposal.subgraph@,
            replace@ == proposal.replace_node@,
            first_duplicate(sub@, 0, replace@, prog_ids) == first_duplicate(
                sub@,
                i as int,
                replace@,
                views(known@),
            ),
            known_after(sub@, 0, replace@, prog_ids) == known_after(
                sub@,
                i as int,
                replace@,
                views(known@),
            ),
        decreases sub@.len() - i,
    {
        let id = sub[i].node_id.as_str();
        if !str_eq(id, replace) {
            if contains_name(&known, id) {
                let mut m = string_of("recovery subgraph introduces duplicate node id '");
                push_text(&mut m, id);
                push_text(&mut m, "'");
                return Err(refuse(m));
            }
            let ghost before = views(known@);
            known.push(sub[i].node_id.clone());
            assert(views(known@) =~= before.push(id@));
        }
        i = i + 1;
    }
    let ghost kn = views(known@);
    let ghost bad = |c: Seq<char>| !node_ids_of(sub@).contains(c) && !kn.contains(c);
    assert(first_unknown_child(sub@, kn) == first_bad_child(sub@, 0, bad));
    let mut i: usize = 0;
    while i < sub.len()
        invariant
            i <= sub@.len(),
            views(known@) == kn,
            first_bad_child(sub@, 0, bad) == first_bad_child(sub@, i as int, bad),
            bad == (|c: Seq<char>| !node_ids_of(sub@).contains(c) && !kn.contains(c)),
        decreases sub@.len() - i,
    {
        let cs = &sub[i].children;
        let mut k: usize = 0;
        assert(views(cs@).skip(0) =~= views(cs@));
        while k < cs.len()
            invariant
                k <= cs@.len(),
                views(known@) == kn,
                bad == (|c: Seq<char>| !node_ids_of(sub@).contains(c) && !kn.contains(c)),
                first_in(views(cs@), bad) == first_in(views(cs@).skip(k as int), bad),
            decreases cs@.len() - k,
        {
            assert(views(cs@).skip(k as int)[0] == cs@[k as int]@);
            assert(views(cs@).skip(k as int).drop_first() =~= views(cs@).skip(k + 1));
            let c = cs[k].as_str();
            let in_sub = crate::lower::node_ids_contain(sub, c);
            assert(in_sub == node_ids_of(sub@).contains(c@));
            if !in_sub && !contains_name(&known, c) {
                let mut m = string_of("recovery subgraph references unknown child '");
                push_text(&mut m, c);
                push_text(&mut m, "'");
                return Err(refuse(m));
            }
            k = k + 1;
        }
        assert(views(cs@).skip(k as int) =~= seq![]);
        i = i + 1;
    }
    let ghost declared = program.effects@.map_values(|e: crate::types::EffectDecl| e.kind);
    let ghost rv = resolved_view(resolved@);
    let mut i: usize = 0;
    while i < sub.len()
        invariant
            i <= sub@.len(),
            resolved@.len() == sub@.len(),
            rv == resolved_view(resolved@),
            declared == program.effects@.map_values(|e: crate::types::EffectDecl| e.kind),
            capability_error(sub@, rv, declared, 0) == capability_error(sub@, rv, declared, i as int),
        decreases sub@.len() - i,
    {
        match &sub[i].capability {
            Some(cap) => match &resolved[i] {
                None => {
                    let mut m = string_of("recovery subgraph capability '");
                    push_text(&mut m, cap.as_str());
                    push_text(&mut m, "' is unavailable");
                    return Err(refuse(m));
                },
                Some(kinds) => {
                    let mut k: usize = 0;
                    assert(kinds@.skip(0) =~= kinds@);
                    while k < kinds.len()
                        invariant
                            k <= kinds@.len(),
                            declared == program.effects@.map_values(
                                |e: crate::types::EffectDecl| e.kind,
                            ),
                            first_undeclared(kinds@, declared) == first_undeclared(
                                kinds@.skip(k as int),
                                declared,
                            ),
                        decreases kinds@.len() - k,
                    {
                        assert(kinds@.skip(k as int)[0] == kinds@[k as int]);
                        assert(kinds@.skip(k as int).drop_first() =~= kinds@.skip(k + 1));
                        let kind = kinds[k];
                        let mut found = false;
                        let mut e: usize = 0;
                        while e < program.effects.len()
                            invariant
                                e <= program.effects@.len(),
                                declared == program.effects@.map_values(
                                    |e: crate::types::EffectDecl| e.kind,
                                ),
                                found == (exists|m: int| 0 <= m < e && declared[m] == kind),
                            decreases program.effects@.len() - e,
                        {
                            if program.effects[e].kind == kind {
                                assert(declared[e as int] == kind);
                                found = true;
                            }
                            e = e + 1;
                        }
                        assert(found == declared.contains(kind));
                        if !found {
                            let mut m = string_of("recovery subgraph effect ");
                            push_text(&mut m, kind_label(kind));
                            push_text(&mut m, " not declared in program.effects");
                            return Err(refuse(m));
                        }
                        k = k + 1;
                    }
                    assert(kinds@.skip(k as int) =~= seq![]);
                },
            },
            None => {},
        }
        i = i + 1;
    }
    Ok(())
}

// ── Retry safety and loops ─────────────────────────────────────────────────

/// Whether an effect only reads.
pub open spec fn read_only(k: EffectKind) -> bool {
    k == EffectKind::FsRead || k == EffectKind::NetworkRead
}

/// Whether a failed node may be retried: containers always; a primitive only
/// when its primitive resolved and is idempotent or only reads.
/// `resolved` is the primitive's idempotence and effect kinds.
pub open spec fn retry_safe_s(kind: CirNodeKind, resolved: Option<(bool, Seq<EffectKind>)>) -> bool {
    if kind != CirNodeKind::PrimitiveInvocation {
        true
    } else {
        match resolved {
            None => false,
            Some((idempotent, ks)) => idempotent || forall|i: int|
                0 <= i < ks.len() ==> read_only(#[trigger] ks[i]),
        }
    }
}

/// A resolved primitive's idempotence and effect kinds.
pub open spec fn resolution(r: Option<(bool, &Vec<EffectKind>)>) -> Option<(bool, Seq<EffectKind>)> {
    match r {
        Some(p) => Some((p.0, p.1@)),
        None => None,
    }
}

/// What follows a failed attempt of a node with a retry policy.
#[derive(Debug, Clone, Copy, PartialEq, Eq, Structural)]
pub enum RetryStep {
    /// Run the node again, as attempt `n`.
    Retry(u32),
    /// Stop after more than one attempt: the retries are exhausted.
    Exhausted,
    /// Stop after the first attempt: the failure is not retried.
    Fail,
}

/// The step after failed attempt `attempt` (counted from 1) with failure
/// class `class`: stop at the attempt limit, for a class the policy does not
/// list (an empty list retries every class), or when a retry is unsafe.
pub open spec fn retry_step_s(
    attempt: u32,
    max_attempts: u32,
    retry_on: Seq<FailureClass>,
    class: FailureClass,
    safe: bool,
) -> RetryStep {
    if attempt >= max_attempts || !(retry_on.len() == 0 || retry_on.contains(class)) || !safe {
        if attempt > 1 {
            RetryStep::Exhausted
        } else {
            RetryStep::Fail
        }
    } else {
        RetryStep::Retry((attempt + 1) as u32)
    }
}

/// Decides what follows a failed attempt of a node with a retry policy.
pub fn retry_step(
    attempt: u32,
    max_attempts: u32,
    retry_on: &Vec<FailureClass>,
    class: FailureClass,
    safe: bool,
) -> (r: RetryStep)
    requires
        attempt >= 1,
    ensures
        r == retry_step_s(attempt, max_attempts, retry_on@, class, safe),
{
    let mut listed = retry_on.len() == 0;
    let mut k: usize = 0;
    while k < retry_on.len() && !listed
        invariant
            k <= retry_on@.len(),
            listed == (retry_on@.len() == 0 || exists|m: int| 0 <= m < k && retry_on@[m] == class),
        decreases retry_on@.len() - k,
    {
        if retry_on[k] == class {
            listed = true;
        }
        k = k + 1;
    }
    proof {
        if !listed {
            assert(k == retry_on@.len());
            if retry_on@.contains(class) {
                let m = choose|m: int| 0 <= m < retry_on@.len() && retry_on@[m] == class;
                assert(false);
            }
        } else if retry_on@.len() > 0 {
            let m = choose|m: int| 0 <= m < k && retry_on@[m] == class;
            assert(retry_on@.contains(class));
        }
    }
    if attempt >= max_attempts || !listed || !safe {
        if attempt > 1 {
            RetryStep::Exhausted
        } else {
            RetryStep::Fail
        }
    } else {
        RetryStep::Retry(attempt + 1)
    }
}

/// The number of attempts a node with a retry policy makes when its attempts
/// fail with the classes and safety verdicts of `outcomes`, in turn, having
/// made `attempt` attempts so far.
pub open spec fn retry_attempts(
    max_attempts: u32,
    retry_on: Seq<FailureClass>,
    outcomes: Seq<(FailureClass, bool)>,
    attempt: u32,
) -> nat
    decreases outcomes.len(),
{
    if outcomes.len() == 0 {
        attempt as nat
    } else {
        match retry_step_s(attempt, max_attempts, retry_on, outcomes[0].0, outcomes[0].1) {
            RetryStep::Retry(n) => retry_attempts(max_attempts, retry_on, outcomes.drop_first(), n),
            _ => attempt as nat,
        }
    }
}

proof fn lemma_retry_attempts_from(
    max_attempts: u32,
    retry_on: Seq<FailureClass>,
    outcomes: Seq<(FailureClass, bool)>,
    attempt: u32,
)
    requires
        1 <= attempt,
        attempt <= max_attempts || attempt == 1,
    ensures
        retry_attempts(max_attempts, retry_on, outcomes, attempt) <= if max_attempts > 1 {
            max_attempts as int
        } else {
            1
        },
    decreases outcomes.len(),
{
    if outcomes.len() > 0 {
        match retry_step_s(attempt, max_attempts, retry_on, outcomes[0].0, outcomes[0].1) {
            RetryStep::Retry(n) => lemma_retry_attempts_from(max_attempts, retry_on, outcomes.drop_first(), n),
            _ => {},
        }
    }
}

/// The retry bound: however its attempts fail, a node with a retry policy
/// runs at most `max(max_attempts, 1)` times, and a retry follows only a
/// failure whose class the policy lists (or any class, for an empty list)
/// and that is safe to retry.
pub proof fn lemma_retry_bounded(
    max_attempts: u32,
    retry_on: Seq<FailureClass>,
    outcomes: Seq<(FailureClass, bool)>,
    attempt: u32,
    class: FailureClass,
    safe: bool,
)
    ensures
        retry_attempts(max_attempts, retry_on, outcomes, 1) <= if max_attempts > 1 {
            max_attempts as int
        } else {
            1
        },
        retry_step_s(attempt, max_attempts, retry_on, class, safe) is Retry ==> safe && (retry_on.len()
            == 0 || retry_on.contains(class)) && attempt < max_attempts,
{
    lemma_retry_attempts_from(max_attempts, retry_on, outcomes, 1);
}

/// Decides whether a failed node may be retried.
#[verifier::loop_isolation(false)]
pub fn retry_safe(kind: CirNodeKind, resolved: Option<(bool, &Vec<EffectKind>)>) -> (b: bool)
    ensures
        b == retry_safe_s(kind, resolution(resolved)),
{
    if kind != CirNodeKind::PrimitiveInvocation {
        return true;
    }
    match resolved {
        None => false,
        Some((idempotent, ks)) => {
            assert(resolution(resolved) == Some((idempotent, ks@)));
            if idempotent {
                return true;
            }
            let mut i: usize = 0;
            while i < ks.len()
                invariant
                    i <= ks@.len(),
                    forall|k: int| 0 <= k < i ==> read_only(#[trigger] ks@[k]),
                decreases ks@.len() - i,
            {
                if !(ks[i] == EffectKind::FsRead || ks[i] == EffectKind::NetworkRead) {
                    assert(!read_only(ks@[i as int]));
                    assert(kind == CirNodeKind::PrimitiveInvocation);
                    assert(!idempotent);
                    assert(!(forall|k: int| 0 <= k < ks@.len() ==> read_only(#[trigger] ks@[k])));
                    return false;
                }
                i = i + 1;
            }
            true
        }
    }
}

/// What a while/until loop does next.
pub enum LoopStep {
    /// Run the body once more (as iteration `n`).
    Iterate(u32),
    /// Leave the loop.
    Exit,
    /// The iteration limit is reached without the exit condition.
    LimitReached,
}

/// The next step of a conditional loop after `done` iterations: the limit is
/// checked first, then the condition (`while` runs while it holds, `until`
/// stops once it holds).
pub open spec fn loop_step_s(kind: LoopKind, done: u32, max: Option<u32>, condition: bool) -> LoopStep {
    if max is Some && done >= max.unwrap() {
        LoopStep::LimitReached
    } else if (kind == LoopKind::Until && condition) || (kind == LoopKind::While && !condition) {
        LoopStep::Exit
    } else {
        LoopStep::Iterate((done + 1) as u32)
    }
}

/// The number of iterations a conditional loop runs when its condition reads
/// `conds[0]`, `conds[1]`, ... before successive steps, starting after `done`.
pub open spec fn iterations(kind: LoopKind, max: Option<u32>, conds: Seq<bool>, done: u32) -> nat
    decreases conds.len(),
{
    if conds.len() == 0 {
        done as nat
    } else {
        match loop_step_s(kind, done, max, conds[0]) {
            LoopStep::Iterate(n) => iterations(kind, max, conds.drop_first(), n),
            _ => done as nat,
        }
    }
}

proof fn lemma_iterations_from(kind: LoopKind, max: u32, conds: Seq<bool>, done: u32)
    requires
        done <= max,
    ensures
        iterations(kind, Some(max), conds, done) <= max,
    decreases conds.len(),
{
    if conds.len() > 0 {
        match loop_step_s(kind, done, Some(max), conds[0]) {
            LoopStep::Iterate(n) => lemma_iterations_from(kind, max, conds.drop_first(), n),
            _ => {},
        }
    }
}

/// The iteration limit is a termination guarantee: whatever its condition
/// reads, a conditional loop with limit `max` runs at most `max` iterations.
pub proof fn lemma_loop_iterations_bounded(kind: LoopKind, max: u32, conds: Seq<bool>)
    ensures
        iterations(kind, Some(max), conds, 0) <= max,
{
    lemma_iterations_from(kind, max, conds, 0);
}

/// Below its iteration limit, a `while` loop runs its body exactly while its
/// condition holds and an `until` loop exactly until its condition holds; at
/// the limit the step reports the limit, whatever the condition.
pub proof fn lemma_loop_step_meaning(kind: LoopKind, done: u32, max: Option<u32>, condition: bool)
    requires
        kind != LoopKind::ForEach,
    ensures
        max is Some && done >= max.unwrap() ==> loop_step_s(kind, done, max, condition)
            == LoopStep::LimitReached,
        !(max is Some && done >= max.unwrap()) ==> {
            &&& kind == LoopKind::While && condition ==> loop_step_s(kind, done, max, condition)
                == LoopStep::Iterate((done + 1) as u32)
            &&& kind == LoopKind::While && !condition ==> loop_step_s(kind, done, max, condition)
                == LoopStep::Exit
            &&& kind == LoopKind::Until && !condition ==> loop_step_s(kind, done, max, condition)
                == LoopStep::Iterate((done + 1) as u32)
            &&& kind == LoopKind::Until && condition ==> loop_step_s(kind, done, max, condition)
                == LoopStep::Exit
        },
{
}

/// An `until` loop over a condition steps as a `while` loop over its
/// negation.
pub proof fn lemma_until_is_while_not(done: u32, max: Option<u32>, condition: bool)
    ensures
        loop_step_s(LoopKind::Until, done, max, condition) == loop_step_s(
            LoopKind::While,
            done,
            max,
            !condition,
        ),
{
}

/// Decides the next step of a while/until loop.
pub fn loop_step(kind: LoopKind, done: u32, max: Option<u32>, condition: bool) -> (r: LoopStep)
    requires
        kind != LoopKind::ForEach,
        done < u32::MAX,
    ensures
        r == loop_step_s(kind, done, max, condition),
        max is Some && done >= max.unwrap() ==> r == LoopStep::LimitReached,
        !(max is Some && done >= max.unwrap()) ==> (r == LoopStep::Exit <==> (kind == LoopKind::Until
            && condition) || (kind == LoopKind::While && !condition)),
        !(max is Some && done >= max.unwrap()) && r != LoopStep::Exit ==> r == LoopStep::Iterate(
            (done + 1) as u32,
        ),
{
    match max {
        Some(m) => {
            if done >= m {
                return LoopStep::LimitReached;
            }
        },
        None => {},
    }
    if (kind == LoopKind::Until && condition) || (kind == LoopKind::While && !condition) {
        LoopStep::Exit
    } else {
        LoopStep::Iterate(done + 1)
    }
}

/// The message of a loop that hit its limit.
pub fn loop_limit_message(node_id: &str, max: u32) -> (r: String)
    ensures
        r@ == "loop node '"@ + node_id@ + "' reached max_iterations ("@ + dec_text(max as nat)
            + ") without satisfying exit condition"@,
{
    let mut m = string_of("loop node '");
    push_text(&mut m, node_id);
    push_text(&mut m, "' reached max_iterations (");
    let t = u64_text(max as u64);
    push_text(&mut m, t.as_str());
    push_text(&mut m, ") without satisfying exit condition");
    m
}

/// How many items a for-each loop visits: all of them, or at most `max`.
pub fn foreach_count(items: usize, max: Option<u32>) -> (n: usize)
    ensures
        n == match max {
            Some(m) => if (m as int) < (items as int) {
                m as int
            } else {
                items as int
            },
            None => items as int,
        },
{
    match max {
        Some(m) => {
            if (m as u64) < (items as u64) {
                m as usize
            } else {
                items
            }
        },
        None => items,
    }
}


// ── References and templates ───────────────────────────────────────────────

/// The binding name a reference token names: `${name}`, or `$name`.
pub open spec fn reference_name(t: Seq<char>) -> Option<Seq<char>> {
    if starts_with(t, "${"@) && t.len() > 2 && t.last() == '}' {
        Some(t.subrange(2, t.len() - 1))
    } else if starts_with(t, "$"@) {
        Some(t.skip(1))
    } else {
        None
    }
}

/// Whether a whole string is one reference: `${...}`, or `$` followed by no
/// space.
pub open spec fn single_reference(s: Seq<char>) -> bool {
    (starts_with(s, "${"@) && s.len() > 0 && s.last() == '}') || (starts_with(s, "$"@) && !s.skip(
        1,
    ).contains(' '))
}

/// The pieces of a template: text, and `${...}` tokens up to the next `}`.
/// An opening `${` without a closing `}` is text.
pub open spec fn template_s(rest: Seq<char>) -> Seq<(bool, Seq<char>)>
    decreases rest.len(),
{
    let s = find_from(rest, "${"@, 0);
    proof {
        lemma_find_from_bounds(rest, "${"@, 0);
    }
    if s < 0 {
        seq![(false, rest)]
    } else {
        let tail = rest.skip(s);
        let e = find_from(tail, seq!['}'], 0);
        proof {
            lemma_find_from_bounds(tail, seq!['}'], 0);
        }
        if e < 0 {
            seq![(false, rest)]
        } else {
            seq![(false, rest.take(s)), (true, tail.take(e + 1))] + template_s(tail.skip(e + 1))
        }
    }
}

/// A piece of a reference template.
pub enum TemplatePiece {
    Text(String),
    Reference(String),
}

pub open spec fn piece_view(p: TemplatePiece) -> (bool, Seq<char>) {
    match p {
        TemplatePiece::Text(t) => (false, t@),
        TemplatePiece::Reference(t) => (true, t@),
    }
}

/// The binding name of a reference token.
pub fn reference_name_of(t: &str) -> (r: Option<String>)
    ensures
        match reference_name(t@) {
            None => r is None,
            Some(n) => r is Some && r.unwrap()@ == n,
        },
{
    let v = chars_of(t);
    if crate::plan::chars_start_with(&v, "${") && v.len() > 2 && v[v.len() - 1] == '}' {
        proof {
            reveal_strlit("${");
        }
        let n = slice_chars(&v, 2, v.len() - 1);
        return Some(string_from_chars(n.as_slice()));
    }
    if crate::plan::chars_start_with(&v, "$") {
        proof {
            reveal_strlit("$");
        }
        let n = slice_chars(&v, 1, v.len());
        assert(n@ =~= v@.skip(1));
        return Some(string_from_chars(n.as_slice()));
    }
    None
}

/// Whether a whole string is exactly one reference.
pub fn is_single_reference(s: &str) -> (b: bool)
    ensures
        b == single_reference(s@),
{
    let v = chars_of(s);
    if crate::plan::chars_start_with(&v, "${") && v.len() > 0 && v[v.len() - 1] == '}' {
        return true;
    }
    if crate::plan::chars_start_with(&v, "$") {
        proof {
            reveal_strlit("$");
        }
        let mut i: usize = 1;
        while i < v.len()
            invariant
                1 <= i <= v@.len(),
                v@ == s@,
                !(starts_with(s@, "${"@) && s@.len() > 0 && s@.last() == '}'),
                forall|k: int| 1 <= k < i ==> v@[k] != ' ',
            decreases v@.len() - i,
        {
            if v[i] == ' ' {
                assert(v@.skip(1)[i - 1] == ' ');
                return false;
            }
            i = i + 1;
        }
        assert forall|k: int| 0 <= k < v@.skip(1).len() implies v@.skip(1)[k] != ' ' by {
            assert(v@.skip(1)[k] == v@[k + 1]);
        }
        return true;
    }
    false
}

/// Splits a template into text and `${...}` reference pieces.
pub fn split_template(s: &str) -> (r: Vec<TemplatePiece>)
    ensures
        r@.map_values(|p: TemplatePiece| piece_view(p)) == template_s(s@),
{
    let v = chars_of(s);
    let open = chars_of("${");
    let close = chars_of("}");
    proof {
        reveal_strlit("${");
        reveal_strlit("}");
        assert(close@ =~= seq!['}']);
    }
    let mut out: Vec<TemplatePiece> = Vec::new();
    let mut i: usize = 0;
    assert(v@.skip(0) =~= v@);
    loop
        invariant
            v@ == s@,
            open@ == "${"@,
            close@ == seq!['}'],
            i <= v@.len(),
            out@.map_values(|p: TemplatePiece| piece_view(p)) + template_s(v@.skip(i as int))
                == template_s(s@),
        decreases v@.len() - i,
    {
        let ghost rest = v@.skip(i as int);
        let ghost before = out@.map_values(|p: TemplatePiece| piece_view(p));
        let tail = slice_chars(&v, i, v.len());
        assert(tail@ =~= rest);
        match find_chars(&tail, &open, 0) {
            None => {
                out.push(TemplatePiece::Text(string_from_chars(tail.as_slice())));
                assert(out@.map_values(|p: TemplatePiece| piece_view(p)) =~= before + template_s(rest));
                return out;
            },
            Some(st) => {
                proof {
                    lemma_find_from_bounds(rest, "${"@, 0);
                }
                let after = slice_chars(&tail, st, tail.len());
                assert(after@ =~= rest.skip(st as int));
                match find_chars(&after, &close, 0) {
                    None => {
                        out.push(TemplatePiece::Text(string_from_chars(tail.as_slice())));
                        assert(out@.map_values(|p: TemplatePiece| piece_view(p)) =~= before + template_s(rest));
                        return out;
                    },
                    Some(e) => {
                        proof {
                            lemma_find_from_bounds(after@, seq!['}'], 0);
                        }
                        let text = slice_chars(&tail, 0, st);
                        let tok = slice_chars(&after, 0, e + 1);
                        assert(text@ =~= rest.take(st as int));
                        assert(tok@ =~= after@.take(e + 1));
                        out.push(TemplatePiece::Text(string_from_chars(text.as_slice())));
                        out.push(TemplatePiece::Reference(string_from_chars(tok.as_slice())));
                        assert(rest.skip(st as int).skip(e + 1) =~= v@.skip(i + st + e + 1));
                        assert(out@.map_values(|p: TemplatePiece| piece_view(p)) =~= before + seq![
                            (false, rest.take(st as int)),
                            (true, after@.take(e + 1)),
                        ]);
                        assert(template_s(rest) =~= seq![
                            (false, rest.take(st as int)),
                            (true, after@.take(e + 1)),
                        ] + template_s(v@.skip(i + st + e + 1)));
                        i = i + st + e + 1;
                    },
                }
            },
        }
    }
}

// ── The run environment ────────────────────────────────────────────────────

/// The value bound to `name` (the last binding of that name).
pub open spec fn env_get(env: Seq<(String, TypedValue)>, name: Seq<char>) -> Option<TypedValue>
    decreases env.len(),
{
    if env.len() == 0 {
        None
    } else if env.last().0@ == name {
        Some(env.last().1)
    } else {
        env_get(env.drop_last(), name)
    }
}

/// Walks the object fields `segs` from `v`.
pub open spec fn json_walk(v: JsonValue, segs: Seq<Seq<char>>) -> Option<JsonValue>
    decreases segs.len(),
{
    if segs.len() == 0 {
        Some(v)
    } else {
        match v {
            JsonValue::Object(ms) => match member_of(ms@, segs[0]) {
                Some(x) => json_walk(x, segs.drop_first()),
                None => None,
            },
            _ => None,
        }
    }
}

/// Looks up a binding of the environment.
pub fn env_lookup<'a>(env: &'a Vec<(String, TypedValue)>, name: &str) -> (r: Option<&'a TypedValue>)
    ensures
        match env_get(env@, name@) {
            None => r is None,
            Some(tv) => r == Some(&tv),
        },
{
    let mut i: usize = env.len();
    assert(env@.take(i as int) =~= env@);
    while i > 0
        invariant
            i <= env@.len(),
            env_get(env@, name@) == env_get(env@.take(i as int), name@),
        decreases i,
    {
        assert(env@.take(i as int).drop_last() =~= env@.take(i - 1));
        if str_eq(env[i - 1].0.as_str(), name) {
            return Some(&env[i - 1].1);
        }
        i = i - 1;
    }
    None
}

/// Walks object fields from a value.
pub fn walk_fields<'a>(v: &'a JsonValue, segs: &Vec<String>, from: usize) -> (r: Option<&'a JsonValue>)
    requires
        from <= segs@.len(),
    ensures
        match json_walk(*v, views(segs@).skip(from as int)) {
            None => r is None,
            Some(x) => r == Some(&x),
        },
{
    let mut cur = v;
    let mut i = from;
    assert(views(segs@).skip(from as int) == views(segs@).skip(i as int));
    while i < segs.len()
        invariant
            from <= i <= segs@.len(),
            json_walk(*v, views(segs@).skip(from as int)) == json_walk(*cur, views(segs@).skip(i as int)),
        decreases segs@.len() - i,
    {
        assert(views(segs@).skip(i as int)[0] == segs@[i as int]@);
        assert(views(segs@).skip(i as int).drop_first() =~= views(segs@).skip(i + 1));
        match cur {
            JsonValue::Object(ms) => match get_member(ms, segs[i].as_str()) {
                Some(x) => {
                    cur = x;
                },
                None => {
                    return None;
                },
            },
            _ => {
                return None;
            },
        }
        i = i + 1;
    }
    assert(views(segs@).skip(i as int) =~= seq![]);
    Some(cur)
}

/// Resolves a condition path in the environment: the root names a binding,
/// the rest walk object fields. Unbound or unreachable paths are `None`; an
/// empty path is an error.
pub fn resolve_path<'a>(segments: &Vec<String>, env: &'a Vec<(String, TypedValue)>) -> (r: Result<
    Option<&'a JsonValue>,
    AcosError,
>)
    ensures
        segments@.len() == 0 ==> (r matches Err(AcosError::ValidationFailure { message })
            && message@ == "empty path in condition"@),
        segments@.len() > 0 ==> r is Ok && match env_get(env@, segments@[0]@) {
            None => r->Ok_0 is None,
            Some(tv) => match json_walk(tv.payload, views(segments@).skip(1)) {
                None => r->Ok_0 is None,
                Some(x) => r->Ok_0 == Some(&x),
            },
        },
{
    if segments.len() == 0 {
        return Err(AcosError::ValidationFailure { message: string_of("empty path in condition") });
    }
    match env_lookup(env, segments[0].as_str()) {
        None => Ok(None),
        Some(tv) => Ok(walk_fields(&tv.payload, segments, 1)),
    }
}

/// The value a non-empty condition path names in the environment.
pub open spec fn path_value(segs: Seq<String>, env: Seq<(String, TypedValue)>) -> Option<JsonValue> {
    match env_get(env, segs[0]@) {
        None => None,
        Some(tv) => json_walk(tv.payload, views(segs).skip(1)),
    }
}

/// Resolves a comparison operand: a literal is itself; a path must name a
/// value, else the condition is rejected.
pub fn resolve_operand<'a>(op: &'a Operand, env: &'a Vec<(String, TypedValue)>) -> (r: Result<
    &'a JsonValue,
    AcosError,
>)
    ensures
        match *op {
            Operand::Literal(v) => r matches Ok(x) && *x == v,
            Operand::Path(p) => if p.segments@.len() == 0 {
                r matches Err(AcosError::ValidationFailure { message }) && message@
                    == "empty path in condition"@
            } else {
                match path_value(p.segments@, env@) {
                    None => r matches Err(AcosError::ValidationFailure { message }) && message@
                        == "condition referenced unknown binding '"@ + p.segments@[0]@ + "'"@,
                    Some(x) => r matches Ok(y) && *y == x,
                }
            },
        },
{
    match op {
        Operand::Literal(v) => Ok(v),
        Operand::Path(p) => {
            match resolve_path(&p.segments, env) {
                Err(e) => Err(e),
                Ok(Some(v)) => Ok(v),
                Ok(None) => {
                    let mut m = string_of("condition referenced unknown binding '");
                    push_text(&mut m, p.segments[0].as_str());
                    push_text(&mut m, "'");
                    Err(AcosError::ValidationFailure { message: m })
                },
            }
        },
    }
}

/// Resolves a dotted `${a.b.c}` reference: `a` names a binding and `b`, `c`
/// walk object fields.
pub open spec fn dotted_s(t: Seq<char>, env: Seq<(String, TypedValue)>) -> Option<JsonValue> {
    if starts_with(t, "${"@) && t.len() > 2 && t.last() == '}' {
        let parts = crate::plan::split_dot(t.subrange(2, t.len() - 1));
        match env_get(env, parts[0]) {
            Some(tv) => json_walk(tv.payload, parts.drop_first()),
            None => None,
        }
    } else {
        None
    }
}

/// Resolves a dotted reference in the environment.
pub fn resolve_dotted<'a>(t: &str, env: &'a Vec<(String, TypedValue)>) -> (r: Option<&'a JsonValue>)
    ensures
        match dotted_s(t@, env@) {
            None => r is None,
            Some(x) => r == Some(&x),
        },
{
    let v = chars_of(t);
    if !(crate::plan::chars_start_with(&v, "${") && v.len() > 2 && v[v.len() - 1] == '}') {
        return None;
    }
    proof {
        reveal_strlit("${");
    }
    let inner = slice_chars(&v, 2, v.len() - 1);
    let name = string_from_chars(inner.as_slice());
    let parts = crate::plan::split_on_dot(name.as_str());
    proof {
        crate::plan::lemma_split_dot_nonempty(name@);
    }
    match env_lookup(env, parts[0].as_str()) {
        None => None,
        Some(tv) => {
            let r = walk_fields(&tv.payload, &parts, 1);
            assert(views(parts@).skip(1) =~= views(parts@).drop_first());
            r
        },
    }
}

// ── Reference resolution ───────────────────────────────────────────────────

/// A piece of a resolved reference string: text, or a non-string value that
/// is rendered as its JSON text.
pub enum Rendered<'a> {
    Text(String),
    Json(&'a JsonValue),
}

pub enum RenderedView {
    Text(Seq<char>),
    Json(JsonValue),
}

pub open spec fn rendered_view(r: Rendered) -> RenderedView {
    match r {
        Rendered::Text(t) => RenderedView::Text(t@),
        Rendered::Json(v) => RenderedView::Json(*v),
    }
}

/// The value a reference token names: the binding of its name, else the
/// field its dotted path walks to.
pub open spec fn token_value(token: Seq<char>, env: Seq<(String, TypedValue)>) -> Option<JsonValue> {
    match reference_name(token) {
        None => None,
        Some(n) => match env_get(env, n) {
            Some(tv) => Some(tv.payload),
            None => dotted_s(token, env),
        },
    }
}

/// How a token renders: a string value as its text, another value as JSON,
/// and a token that names nothing as itself.
pub open spec fn token_render(token: Seq<char>, env: Seq<(String, TypedValue)>) -> RenderedView {
    match token_value(token, env) {
        Some(JsonValue::Str(s)) => RenderedView::Text(s@),
        Some(v) => RenderedView::Json(v),
        None => RenderedView::Text(token),
    }
}

/// The rendering of a whole reference string: one token when the string is a
/// single reference, else its template pieces with each `${...}` resolved.
pub open spec fn ref_render(s: Seq<char>, env: Seq<(String, TypedValue)>) -> Seq<RenderedView> {
    if single_reference(s) {
        seq![token_render(s, env)]
    } else {
        template_s(s).map_values(
            |p: (bool, Seq<char>)|
                if p.0 {
                    token_render(p.1, env)
                } else {
                    RenderedView::Text(p.1)
                },
        )
    }
}

/// Resolves a `$name` or `${name}` token against the environment.
pub fn resolve_ref_token<'a>(token: &str, env: &'a Vec<(String, TypedValue)>) -> (r: Rendered<'a>)
    ensures
        rendered_view(r) == token_render(token@, env@),
{
    let value = match reference_name_of(token) {
        None => None,
        Some(n) => match env_lookup(env, n.as_str()) {
            Some(tv) => Some(&tv.payload),
            None => resolve_dotted(token, env),
        },
    };
    match value {
        Some(JsonValue::Str(s)) => Rendered::Text(string_of(s.as_str())),
        Some(v) => Rendered::Json(v),
        None => Rendered::Text(string_of(token)),
    }
}

/// Resolves a reference string: a single reference renders alone; otherwise
/// every `${name}` inside the text is replaced by its value.
pub fn resolve_ref<'a>(s: &str, env: &'a Vec<(String, TypedValue)>) -> (r: Vec<Rendered<'a>>)
    ensures
        r@.map_values(|x: Rendered<'a>| rendered_view(x)) == ref_render(s@, env@),
{
    let mut out: Vec<Rendered<'a>> = Vec::new();
    if is_single_reference(s) {
        out.push(resolve_ref_token(s, env));
        assert(out@.map_values(|x: Rendered<'a>| rendered_view(x)) =~= ref_render(s@, env@));
        return out;
    }
    let pieces = split_template(s);
    let ghost pv = pieces@.map_values(|p: TemplatePiece| piece_view(p));
    let mut i: usize = 0;
    while i < pieces.len()
        invariant
            i <= pieces@.len(),
            pv == pieces@.map_values(|p: TemplatePiece| piece_view(p)),
            pv == template_s(s@),
            !single_reference(s@),
            out@.map_values(|x: Rendered<'a>| rendered_view(x)) == ref_render(s@, env@).take(
                i as int,
            ),
        decreases pieces@.len() - i,
    {
        let ghost before = out@.map_values(|x: Rendered<'a>| rendered_view(x));
        assert(pv[i as int] == piece_view(pieces@[i as int]));
        assert(ref_render(s@, env@).len() == pv.len());
        assert(ref_render(s@, env@)[i as int] == (if pv[i as int].0 {
            token_render(pv[i as int].1, env@)
        } else {
            RenderedView::Text(pv[i as int].1)
        }));
        let ghost raw = out@;
        assert(before.len() == i);
        assert(raw.len() == i);
        match &pieces[i] {
            TemplatePiece::Text(t) => out.push(Rendered::Text(string_of(t.as_str()))),
            TemplatePiece::Reference(t) => out.push(resolve_ref_token(t.as_str(), env)),
        }
        assert(out@ == raw.push(out@[i as int]));
        assert(rendered_view(out@[i as int]) == ref_render(s@, env@)[i as int]);
        assert(out@.map_values(|x: Rendered<'a>| rendered_view(x)) =~= before.push(
            rendered_view(out@[i as int]),
        ));
        assert(out@.map_values(|x: Rendered<'a>| rendered_view(x)) =~= ref_render(s@, env@).take(
            i + 1,
        ));
        i = i + 1;
    }
    assert(ref_render(s@, env@).take(i as int) =~= ref_render(s@, env@));
    out
}

// ── Committing a recovery ───────────────────────────────────────────────────

/// The nodes other than those with id `id`, in order.
pub open spec fn without_id(nodes: Seq<CirNode>, id: Seq<char>) -> Seq<CirNode>
    decreases nodes.len(),
{
    if nodes.len() == 0 {
        seq![]
    } else if nodes.last().node_id@ == id {
        without_id(nodes.drop_last(), id)
    } else {
        without_id(nodes.drop_last(), id).push(nodes.last())
    }
}

/// Patches a program with a recovery proposal: the replaced node goes and the
/// subgraph is added after the remaining nodes.
pub fn apply_proposal(program: &mut CirProgram, proposal: RecoveryProposal)
    ensures
        final(program).nodes@ == without_id(old(program).nodes@, proposal.replace_node@)
            + proposal.subgraph@,
        final(program).id == old(program).id,
        final(program).task_id == old(program).task_id,
        final(program).entry == old(program).entry,
        final(program).effects == old(program).effects,
{
    let RecoveryProposal { replace_node, subgraph, reason: _ } = proposal;
    let mut nodes: Vec<CirNode> = Vec::new();
    std::mem::swap(&mut nodes, &mut program.nodes);
    let ghost all = nodes@;
    let mut kept: Vec<CirNode> = Vec::new();
    while nodes.len() > 0
        invariant
            nodes@ == all.take(nodes@.len() as int),
            nodes@.len() <= all.len(),
            without_id(all, replace_node@) == without_id(nodes@, replace_node@) + kept@,
        decreases nodes@.len(),
    {
        let ghost before = nodes@;
        let n = nodes.pop().unwrap();
        assert(before.drop_last() =~= nodes@);
        assert(nodes@ =~= all.take(nodes@.len() as int));
        let ghost k0 = kept@;
        if !str_eq(n.node_id.as_str(), replace_node.as_str()) {
            kept.insert(0, n);
            assert(kept@ =~= seq![n] + k0);
            assert(without_id(before, replace_node@) == without_id(nodes@, replace_node@).push(n));
        }
        assert(without_id(all, replace_node@) =~= without_id(nodes@, replace_node@) + kept@);
    }
    assert(all.take(0) =~= seq![]);
    let mut sub = subgraph;
    kept.append(&mut sub);
    program.nodes = kept;
}

proof fn lemma_without_id_drops(nodes: Seq<CirNode>, id: Seq<char>)
    ensures
        forall|i: int|
            0 <= i < without_id(nodes, id).len() ==> #[trigger] without_id(nodes, id)[i].node_id@
                != id,
    decreases nodes.len(),
{
    if nodes.len() > 0 {
        lemma_without_id_drops(nodes.drop_last(), id);
    }
}

/// Committing an accepted recovery proposal leaves no old node with the
/// replaced id, and puts the subgraph root, which carries that id, in its
/// place.
pub proof fn lemma_commit_replaces(
    program: CirProgram,
    p: RecoveryProposal,
    resolved: Seq<Option<Seq<EffectKind>>>,
)
    requires
        proposal_error(program, p, resolved) is None,
    ensures
        ({
            let kept = without_id(program.nodes@, p.replace_node@);
            let nodes = kept + p.subgraph@;
            &&& forall|i: int| 0 <= i < kept.len() ==> #[trigger] nodes[i].node_id@ != p.replace_node@
            &&& nodes[kept.len() as int] == p.subgraph@[0]
            &&& nodes[kept.len() as int].node_id@ == p.replace_node@
        }),
{
    lemma_without_id_drops(program.nodes@, p.replace_node@);
}

} // verus!
