//! Error types of the library: the failure domains of ACOS and the specific
//! errors of CIR compilation.

use vstd::prelude::*;

use crate::text::{debug_str, debug_text, dec_text, push_text, string_of, u64_text};
use crate::types::FailureClass;

verus! {

/// The top-level error type, one variant per failure domain.
pub enum AcosError {
    /// A primitive operation failed.
    PrimitiveFailure { message: String, primitive_id: Option<String>, class: FailureClass },
    /// A primitive provider failed.
    ProviderFailure { message: String, provider: String },
    /// The compiler could not produce a valid program.
    CompilerFailure { message: String },
    /// Pre-execution validation of a program failed.
    ValidationFailure { message: String },
    /// A compensation (rollback) operation itself failed.
    CompensationFailure { message: String, effect: Option<String> },
    /// Runtime infrastructure failed.
    RuntimeInfrastructureFailure { message: String },
    /// An external system failed.
    ExternalSystemFailure { message: String, system: Option<String> },
    /// The operation was rejected by user policy.
    UserPolicyRejection { message: String },
    /// A catch-all for errors that do not fit other domains.
    Internal { message: String },
}

pub open spec fn opt_debug(o: Option<String>) -> Seq<char> {
    match o {
        None => "None"@,
        Some(s) => "Some("@ + debug_text(s@) + ")"@,
    }
}

/// The human-readable text of an error.
pub open spec fn acos_error_text(e: AcosError) -> Seq<char> {
    match e {
        AcosError::PrimitiveFailure { message, primitive_id, .. } => "primitive failure: "@
            + message@ + " (primitive="@ + opt_debug(primitive_id) + ")"@,
        AcosError::ProviderFailure { message, provider } => "provider failure: "@ + message@
            + " (provider="@ + debug_text(provider@) + ")"@,
        AcosError::CompilerFailure { message } => "compiler failure: "@ + message@,
        AcosError::ValidationFailure { message } => "validation failure: "@ + message@,
        AcosError::CompensationFailure { message, effect } => "compensation failure: "@ + message@
            + " (effect="@ + opt_debug(effect) + ")"@,
        AcosError::RuntimeInfrastructureFailure { message } => "runtime infrastructure failure: "@
            + message@,
        AcosError::ExternalSystemFailure { message, system } => "external system failure: "@
            + message@ + " (system="@ + opt_debug(system) + ")"@,
        AcosError::UserPolicyRejection { message } => "user-policy rejection: "@ + message@,
        AcosError::Internal { message } => "internal error: "@ + message@,
    }
}

fn push_opt_debug(out: &mut String, o: &Option<String>)
    ensures
        final(out)@ == old(out)@ + opt_debug(*o),
{
    match o {
        None => push_text(out, "None"),
        Some(s) => {
            push_text(out, "Some(");
            let d = debug_str(s.as_str());
            push_text(out, d.as_str());
            push_text(out, ")");
        },
    }
}

impl AcosError {
    /// Returns `true` if this error requires human intervention
    /// (compensation failures always do).
    pub fn requires_human_intervention(&self) -> (b: bool)
        ensures
            b == (*self is CompensationFailure),
    {
        match self {
            AcosError::CompensationFailure { .. } => true,
            _ => false,
        }
    }

    /// The failure class of the error: a primitive failure carries its own,
    /// every other domain is `Unknown`.
    pub fn classify(&self) -> (c: FailureClass)
        ensures
            c == match *self {
                AcosError::PrimitiveFailure { class, .. } => class,
                _ => FailureClass::Unknown,
            },
    {
        match self {
            AcosError::PrimitiveFailure { class, .. } => *class,
            _ => FailureClass::Unknown,
        }
    }

    /// The human-readable text of the error.
    pub fn to_text(&self) -> (r: String)
        ensures
            r@ == acos_error_text(*self),
    {
        match self {
            AcosError::PrimitiveFailure { message, primitive_id, .. } => {
                let mut m = string_of("primitive failure: ");
                push_text(&mut m, message.as_str());
                push_text(&mut m, " (primitive=");
                push_opt_debug(&mut m, primitive_id);
                push_text(&mut m, ")");
                m
            },
            AcosError::ProviderFailure { message, provider } => {
                let mut m = string_of("provider failure: ");
                push_text(&mut m, message.as_str());
                push_text(&mut m, " (provider=");
                let d = debug_str(provider.as_str());
                push_text(&mut m, d.as_str());
                push_text(&mut m, ")");
                m
            },
            AcosError::CompilerFailure { message } => {
                let mut m = string_of("compiler failure: ");
                push_text(&mut m, message.as_str());
                m
            },
            AcosError::ValidationFailure { message } => {
                let mut m = string_of("validation failure: ");
                push_text(&mut m, message.as_str());
                m
            },
            AcosError::CompensationFailure { message, effect } => {
                let mut m = string_of("compensation failure: ");
                push_text(&mut m, message.as_str());
                push_text(&mut m, " (effect=");
                push_opt_debug(&mut m, effect);
                push_text(&mut m, ")");
                m
            },
            AcosError::RuntimeInfrastructureFailure { message } => {
                let mut m = string_of("runtime infrastructure failure: ");
                push_text(&mut m, message.as_str());
                m
            },
            AcosError::ExternalSystemFailure { message, system } => {
                let mut m = string_of("external system failure: ");
                push_text(&mut m, message.as_str());
                push_text(&mut m, " (system=");
                push_opt_debug(&mut m, system);
                push_text(&mut m, ")");
                m
            },
            AcosError::UserPolicyRejection { message } => {
                let mut m = string_of("user-policy rejection: ");
                push_text(&mut m, message.as_str());
                m
            },
            AcosError::Internal { message } => {
                let mut m = string_of("internal error: ");
                push_text(&mut m, message.as_str());
                m
            },
        }
    }
}

/// A validation failure with the given message.
pub fn validation_error(message: String) -> (e: AcosError)
    ensures
        e is ValidationFailure,
        e->ValidationFailure_message == message,
{
    AcosError::ValidationFailure { message }
}

// ── Compiler errors ─────────────────────────────────────────────────────────

/// Specific errors of CIR compilation, one per pipeline stage.
pub enum CompilerError {
    /// JSON syntax is malformed.
    JsonSyntaxError { message: String, raw_excerpt: String },
    /// JSON parses but does not match the CIR schema shape.
    JsonShapeError { message: String },
    /// A required field is missing.
    MissingRequiredField { field: String },
    /// A node references a capability not in the allowed set.
    UnknownCapability { node_id: String, capability: String },
    /// A node references an output, child, or entry that does not exist.
    InvalidReference { node_id: String, referenced: String },
    /// Control semantics (condition/loop/retry) violate invariants.
    InvalidControlSemantics { node_id: String, message: String },
    /// Effect declaration is invalid.
    InvalidEffect { message: String },
    /// The program contains no executable node.
    NoOpProgram,
    /// Nodes that are not reachable from any entry node.
    UnreachableNodes { node_ids: Vec<String> },
    /// A `${ref}` does not resolve to any producer binding.
    UnresolvedBinding { node_id: String, binding: String },
    /// Data contract rule violation.
    DataContractViolation { node_id: String, message: String },
    /// Repair did not produce a valid CIR within the attempt limit.
    RepairExhausted { attempts: u32, last_error: Box<CompilerError> },
}

/// `items` joined with `sep`.
pub open spec fn join_text(items: Seq<Seq<char>>, sep: Seq<char>) -> Seq<char>
    decreases items.len(),
{
    if items.len() == 0 {
        seq![]
    } else if items.len() == 1 {
        items[0]
    } else {
        join_text(items.drop_last(), sep) + sep + items.last()
    }
}

/// The human-readable text of a compiler error.
pub open spec fn compiler_error_text(e: CompilerError) -> Seq<char>
    decreases e,
{
    match e {
        CompilerError::JsonSyntaxError { message, .. } => "JSON syntax error: "@ + message@,
        CompilerError::JsonShapeError { message } => "CIR schema mismatch: "@ + message@,
        CompilerError::MissingRequiredField { field } => "missing required field: "@ + field@,
        CompilerError::UnknownCapability { node_id, capability } => "node '"@ + node_id@
            + "' uses unknown capability '"@ + capability@ + "'"@,
        CompilerError::InvalidReference { node_id, referenced } => "node '"@ + node_id@
            + "' references unknown id '"@ + referenced@ + "'"@,
        CompilerError::InvalidControlSemantics { node_id, message } => "node '"@ + node_id@
            + "' has invalid control semantics: "@ + message@,
        CompilerError::InvalidEffect { message } => "invalid effect declaration: "@ + message@,
        CompilerError::NoOpProgram => "no-op program: the CIR contains no executable node"@,
        CompilerError::UnreachableNodes { node_ids } => "unreachable nodes: "@ + join_text(
            crate::refs::views(node_ids@),
            ", "@,
        ) + " are not reachable from any entry node"@,
        CompilerError::UnresolvedBinding { node_id, binding } => "node '"@ + node_id@
            + "' references unresolved binding '${"@ + binding@ + "}'"@,
        CompilerError::DataContractViolation { node_id, message } => "node '"@ + node_id@
            + "' violates data contract: "@ + message@,
        CompilerError::RepairExhausted { attempts, last_error } => "repair exhausted after "@
            + dec_text(attempts as nat) + " attempts; last error: "@ + compiler_error_text(
            *last_error,
        ),
    }
}

/// `items` joined with `sep`.
pub fn join_strings(items: &Vec<String>, sep: &str) -> (r: String)
    ensures
        r@ == join_text(crate::refs::views(items@), sep@),
{
    let mut out = String::new();
    let mut i: usize = 0;
    while i < items.len()
        invariant
            i <= items@.len(),
            out@ == join_text(crate::refs::views(items@).take(i as int), sep@),
        decreases items@.len() - i,
    {
        let ghost tk = crate::refs::views(items@).take(i + 1);
        assert(tk.drop_last() =~= crate::refs::views(items@).take(i as int));
        if i > 0 {
            push_text(&mut out, sep);
        } else {
            assert(out@ =~= seq![]);
        }
        push_text(&mut out, items[i].as_str());
        i = i + 1;
    }
    assert(crate::refs::views(items@).take(items@.len() as int) =~= crate::refs::views(items@));
    out
}

impl CompilerError {
    /// The human-readable text of the error.
    pub fn to_text(&self) -> (r: String)
        ensures
            r@ == compiler_error_text(*self),
        decreases self,
    {
        match self {
            CompilerError::JsonSyntaxError { message, .. } => {
                let mut m = string_of("JSON syntax error: ");
                push_text(&mut m, message.as_str());
                m
            },
            CompilerError::JsonShapeError { message } => {
                let mut m = string_of("CIR schema mismatch: ");
                push_text(&mut m, message.as_str());
                m
            },
            CompilerError::MissingRequiredField { field } => {
                let mut m = string_of("missing required field: ");
                push_text(&mut m, field.as_str());
                m
            },
            CompilerError::UnknownCapability { node_id, capability } => {
                let mut m = string_of("node '");
                push_text(&mut m, node_id.as_str());
                push_text(&mut m, "' uses unknown capability '");
                push_text(&mut m, capability.as_str());
                push_text(&mut m, "'");
                m
            },
            CompilerError::InvalidReference { node_id, referenced } => {
                let mut m = string_of("node '");
                push_text(&mut m, node_id.as_str());
                push_text(&mut m, "' references unknown id '");
                push_text(&mut m, referenced.as_str());
                push_text(&mut m, "'");
                m
            },
            CompilerError::InvalidControlSemantics { node_id, message } => {
                let mut m = string_of("node '");
                push_text(&mut m, node_id.as_str());
                push_text(&mut m, "' has invalid control semantics: ");
                push_text(&mut m, message.as_str());
                m
            },
            CompilerError::InvalidEffect { message } => {
                let mut m = string_of("invalid effect declaration: ");
                push_text(&mut m, message.as_str());
                m
            },
            CompilerError::NoOpProgram => string_of(
                "no-op program: the CIR contains no executable node",
            ),
            CompilerError::UnreachableNodes { node_ids } => {
                let mut m = string_of("unreachable nodes: ");
                let j = join_strings(node_ids, ", ");
                push_text(&mut m, j.as_str());
                push_text(&mut m, " are not reachable from any entry node");
                m
            },
            CompilerError::UnresolvedBinding { node_id, binding } => {
                let mut m = string_of("node '");
                push_text(&mut m, node_id.as_str());
                push_text(&mut m, "' references unresolved binding '${");
                push_text(&mut m, binding.as_str());
                push_text(&mut m, "}'");
                m
            },
            CompilerError::DataContractViolation { node_id, message } => {
                let mut m = string_of("node '");
                push_text(&mut m, node_id.as_str());
                push_text(&mut m, "' violates data contract: ");
                push_text(&mut m, message.as_str());
                m
            },
            CompilerError::RepairExhausted { attempts, last_error } => {
                let mut m = string_of("repair exhausted after ");
                let a = u64_text(*attempts as u64);
                push_text(&mut m, a.as_str());
                push_text(&mut m, " attempts; last error: ");
                let inner = (**last_error).to_text();
                push_text(&mut m, inner.as_str());
                m
            },
        }
    }

    /// The public error that a compiler error becomes: a compiler failure
    /// carrying the error's text.
    pub fn to_acos_error(&self) -> (e: AcosError)
        ensures
            e is CompilerFailure,
            e->CompilerFailure_message@ == compiler_error_text(*self),
    {
        AcosError::CompilerFailure { message: self.to_text() }
    }
}

impl From<CompilerError> for AcosError {
    fn from(e: CompilerError) -> (r: AcosError) {
        e.to_acos_error()
    }
}

/// The conversion's content is stated by `CompilerError::to_acos_error`; a
/// `String` built at run time has no spec-level value to equate it with here.
impl vstd::std_specs::convert::FromSpecImpl<CompilerError> for AcosError {
    open spec fn obeys_from_spec() -> bool {
        false
    }

    open spec fn from_spec(v: CompilerError) -> AcosError {
        AcosError::CompilerFailure { message: arbitrary() }
    }
}

} // verus!
