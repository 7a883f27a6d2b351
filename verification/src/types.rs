use vstd::prelude::*;

use crate::json::JsonValue;

verus! {

// ── Identifiers ─────────────────────────────────────────────────────────────

/// A run identifier (a UUID, as its 128-bit value).
#[derive(Debug, Clone, Copy, PartialEq, Eq, Structural)]
pub struct RunId(pub u128);

/// A program identifier.
#[derive(Debug, Clone, Copy, PartialEq, Eq, Structural)]
pub struct ProgramId(pub u128);

/// A task identifier.
#[derive(Debug, Clone, Copy, PartialEq, Eq, Structural)]
pub struct TaskId(pub u128);

/// A primitive identifier.
#[derive(Debug, Clone, Copy, PartialEq, Eq, Structural)]
pub struct PrimitiveId(pub u128);

/// An artifact identifier.
#[derive(Debug, Clone, Copy, PartialEq, Eq, Structural)]
pub struct ArtifactId(pub u128);

/// A version-4 UUID in its 128-bit form: the version nibble (bits 76..80) is
/// 4 and the variant (bits 62..64) is the RFC 4122 one, `0b10`.
pub open spec fn is_v4(v: u128) -> bool {
    &&& (v >> 76u128) & 0xfu128 == 4u128
    &&& (v >> 62u128) & 0x3u128 == 2u128
}

/// Draws a fresh random UUID with `uuid::Uuid::new_v4`, which masks random
/// bits and sets the version-4 nibble and the RFC 4122 variant bits; the rest
/// of the value is random and nothing is claimed of it.
#[verifier::external_body]
pub(crate) fn fresh_uuid() -> (r: u128)
    ensures
        is_v4(r),
{
    uuid::Uuid::new_v4().as_u128()
}

/// Hex digit `k` (most significant first) of a 128-bit value.
pub open spec fn hex_nibble(v: u128, k: int) -> char {
    crate::json::hex_digit_lower(((v >> (((31 - k) * 4) as u128)) & 0xfu128) as int)
}

/// The hyphenated lowercase text of a UUID: 8-4-4-4-12 hex digits of its
/// 128-bit value, most significant first.
pub open spec fn uuid_text(v: u128) -> Seq<char> {
    Seq::new(
        36,
        |i: int|
            if i == 8 || i == 13 || i == 18 || i == 23 {
                '-'
            } else {
                hex_nibble(
                    v,
                    i - if i < 8 {
                        0int
                    } else if i < 13 {
                        1int
                    } else if i < 18 {
                        2int
                    } else if i < 23 {
                        3int
                    } else {
                        4int
                    },
                )
            },
    )
}

/// `uuid::Uuid::from_u128(v).to_string()`: the hyphenated lowercase form, in
/// which `Display` and `Debug` agree.
#[verifier::external_body]
pub(crate) fn uuid_string(v: u128) -> (r: String)
    ensures
        r@ == uuid_text(v),
{
    uuid::Uuid::from_u128(v).to_string()
}

impl RunId {
    /// A fresh random version-4 identifier.
    pub fn new() -> (r: Self)
        ensures
            is_v4(r.0),
    {
        RunId(fresh_uuid())
    }
}

impl ProgramId {
    /// A fresh random version-4 identifier.
    pub fn new() -> (r: Self)
        ensures
            is_v4(r.0),
    {
        ProgramId(fresh_uuid())
    }
}

impl TaskId {
    /// A fresh random version-4 identifier.
    pub fn new() -> (r: Self)
        ensures
            is_v4(r.0),
    {
        TaskId(fresh_uuid())
    }
}

impl PrimitiveId {
    /// A fresh random version-4 identifier.
    pub fn new() -> (r: Self)
        ensures
            is_v4(r.0),
    {
        PrimitiveId(fresh_uuid())
    }
}

impl ArtifactId {
    /// A fresh random version-4 identifier.
    pub fn new() -> (r: Self)
        ensures
            is_v4(r.0),
    {
        ArtifactId(fresh_uuid())
    }
}

// ── Task specification ─────────────────────────────────────────────────────

/// A single task input.
pub struct TaskInput {
    pub input_type: String,
    pub path: String,
    pub format: Option<String>,
}

/// A single task output.
pub struct TaskOutput {
    pub output_type: String,
    pub format: Option<String>,
}

/// Optimization intent.
pub struct OptimizationGoal {
    pub primary: String,
    pub secondary: Option<String>,
}

/// Approval policy for external side effects.
pub struct ApprovalPolicy {
    pub external_side_effects: String,
}

/// A cognitive task specification: the stable front-end input to the compiler.
pub struct TaskSpec {
    pub api_version: String,
    pub id: TaskId,
    pub goal: String,
    pub inputs: Vec<TaskInput>,
    pub outputs: Vec<TaskOutput>,
    pub optimization: Option<OptimizationGoal>,
    pub approval: Option<ApprovalPolicy>,
}

// ── Typed values ────────────────────────────────────────────────────────────

/// The type of a typed value.
#[derive(Debug, Clone, Copy, PartialEq, Eq, Structural)]
pub enum ValueType {
    Scalar,
    Record,
    List,
    Optional,
    Result,
    Nominal,
}

/// A typed value flowing through the execution graph.
pub struct TypedValue {
    pub value_type: ValueType,
    pub payload: JsonValue,
}

// ── Effects ─────────────────────────────────────────────────────────────────

/// The kind of effect a primitive may have.
#[derive(Debug, Clone, Copy, PartialEq, Eq, Structural)]
pub enum EffectKind {
    FsRead,
    FsWrite,
    NetworkRead,
    NetworkWrite,
    ProcessSpawn,
    SecretRead,
    ExternalIrreversible,
}

/// A declared effect with its compensation.
pub struct EffectDecl {
    pub kind: EffectKind,
    pub description: String,
    pub reversible: bool,
}

// ── CIR ─────────────────────────────────────────────────────────────────────

/// The kind of a CIR node.
#[derive(Debug, Clone, Copy, PartialEq, Eq, Structural)]
pub enum CirNodeKind {
    PrimitiveInvocation,
    Sequence,
    Parallel,
    Conditional,
    LoopMap,
    Retry,
    Checkpoint,
    Verification,
    ArtifactRef,
}

/// Condition expression attached to a `Conditional` node.
pub struct ConditionSpec {
    pub expression: String,
}

/// Loop kind of a `LoopMap` node.
#[derive(Debug, Clone, Copy, PartialEq, Eq, Structural)]
pub enum LoopKind {
    While,
    Until,
    ForEach,
}

/// Loop configuration of a `LoopMap` node.
pub struct LoopSpec {
    pub kind: LoopKind,
    pub condition: Option<String>,
    pub max_iterations: Option<u32>,
    pub input: Option<String>,
    pub item_var: Option<String>,
}

/// Retry strategy.
#[derive(Debug, Clone, Copy, PartialEq, Eq, Structural)]
pub enum RetryStrategy {
    Fixed,
}

/// Failure class used to decide retry/recovery behavior.
#[derive(Debug, Clone, Copy, PartialEq, Eq, Structural)]
pub enum FailureClass {
    Timeout,
    RateLimit,
    TransientNetworkError,
    InvalidInput,
    PermissionDenied,
    SyntaxError,
    Unknown,
}

/// Retry policy attached via `ControlSpec::retry`.
pub struct RetryPolicy {
    pub max_attempts: u32,
    pub backoff_ms: u64,
    pub strategy: RetryStrategy,
    pub retry_on: Vec<FailureClass>,
}

/// Control semantics attached to a node.
pub struct ControlSpec {
    pub condition: Option<ConditionSpec>,
    pub loop_spec: Option<LoopSpec>,
    pub retry: Option<RetryPolicy>,
}

/// A single field declaration inside an output schema.
pub struct FieldSpec {
    pub name: String,
    pub type_label: String,
}

/// A declared output binding with its data contract.
pub struct OutputSpec {
    pub name: String,
    pub type_label: String,
    pub fields: Vec<FieldSpec>,
}

/// A single node in the CIR graph. Maps of the wire format are kept as
/// ordered key/value lists.
pub struct CirNode {
    pub kind: CirNodeKind,
    pub node_id: String,
    pub capability: Option<String>,
    pub output: Option<OutputSpec>,
    pub input_types: Vec<(String, String)>,
    pub children: Vec<String>,
    pub else_children: Vec<String>,
    pub inputs: Vec<(String, JsonValue)>,
    pub control: Option<ControlSpec>,
}

/// A compiled cognitive program (the CIR).
pub struct CirProgram {
    pub id: ProgramId,
    pub task_id: TaskId,
    pub entry: Vec<String>,
    pub nodes: Vec<CirNode>,
    pub effects: Vec<EffectDecl>,
}

// ── Views of schema values ──────────────────────────────────────────────────

/// The view of a field declaration: its name and type name.
pub open spec fn field_view(f: FieldSpec) -> (Seq<char>, Seq<char>) {
    (f.name@, f.type_label@)
}

pub open spec fn fields_view(fs: Seq<FieldSpec>) -> Seq<(Seq<char>, Seq<char>)> {
    fs.map_values(|f: FieldSpec| field_view(f))
}

pub fn clone_field(f: &FieldSpec) -> (r: FieldSpec)
    ensures
        field_view(r) == field_view(*f),
{
    FieldSpec { name: f.name.clone(), type_label: f.type_label.clone() }
}

/// A copy of a list of field declarations.
pub fn clone_fields(fs: &Vec<FieldSpec>) -> (r: Vec<FieldSpec>)
    ensures
        fields_view(r@) == fields_view(fs@),
{
    let mut r: Vec<FieldSpec> = Vec::new();
    let mut i: usize = 0;
    while i < fs.len()
        invariant
            i <= fs@.len(),
            r@.len() == i,
            fields_view(r@) == fields_view(fs@.take(i as int)),
        decreases fs@.len() - i,
    {
        let f = clone_field(&fs[i]);
        assert(field_view(f) == field_view(fs@[i as int]));
        let ghost before = r@;
        r.push(f);
        assert forall|k: int| 0 <= k < i + 1 implies #[trigger] field_view(r@[k]) == field_view(
            fs@[k],
        ) by {
            if k < i {
                assert(fields_view(before)[k] == fields_view(fs@.take(i as int))[k]);
            }
        }
        assert(fields_view(r@) =~= fields_view(fs@.take(i + 1)));
        i = i + 1;
    }
    assert(fs@.take(fs@.len() as int) =~= fs@);
    r
}

} // verus!
