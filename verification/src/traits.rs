//! Plain records exchanged between the layers: capability descriptions,
//! diagnostics, compile results, run states and primitive manifests.

use vstd::prelude::*;

use crate::json::JsonValue;
use crate::types::{CirProgram, RunId};

verus! {

/// Describes a primitive capability.
pub struct CapabilityDesc {
    pub id: String,
    pub name: String,
    pub input_type: String,
    pub output_type: String,
}

/// Severity of a compiler diagnostic.
#[derive(Debug, Clone, Copy, PartialEq, Eq, Structural)]
pub enum DiagnosticLevel {
    Note,
    Warning,
    Error,
}

/// A compiler diagnostic.
pub struct Diagnostic {
    pub level: DiagnosticLevel,
    pub message: String,
}

/// A compiled program with its diagnostics.
pub struct CompileResult {
    pub program: CirProgram,
    pub diagnostics: Vec<Diagnostic>,
}

/// Execution status of a run.
#[derive(Debug, Clone, Copy, PartialEq, Eq, Structural)]
pub enum RunStatus {
    Pending,
    Running,
    Completed,
    Failed,
    Compensating,
    Compensated,
}

/// An entry of a run's event log.
pub struct Event {
    pub seq: u64,
    pub run_id: RunId,
    pub event_type: String,
    pub payload: JsonValue,
}

/// Manifest describing how to load a primitive.
pub struct PrimitiveManifest {
    pub api_version: String,
    pub id: String,
    pub version: String,
    pub capability: String,
    pub runtime: String,
    pub command: String,
}

} // verus!
