//! Verified core of the ACOS cognitive runtime: condition expressions, CIR and
//! plan validation, data contracts, verification checks and run bookkeeping.

pub mod json;
pub mod text;
pub mod refs;
pub mod types;
pub mod plan;
pub mod expr;
pub mod error;
pub mod cir;
pub mod reach;
pub mod contract;
pub mod compiler;
pub mod traits;
pub mod rule;
pub mod lower;
pub mod lowered;
pub mod verify;
pub mod plugin;
pub mod csv;
pub mod bench;
pub mod workflow;
pub mod llm;
pub mod runtime;
pub mod schema;
pub mod probe;
pub mod repair;
pub mod baseline;
pub mod state;
