//! Metrics of the fixed-workflow baseline: the four-layer outcome, the
//! engineering cost of the hand-written script, and the flagship inputs.

use vstd::prelude::*;

use crate::plugin::{count_nonblank_lines, kept_lines, text_lines};

verus! {

/// Flagship task input CSV files.
pub const FLAGSHIP_INPUTS: [&'static str; 4] = ["sales_q1.csv", "sales_q2.csv", "sales_q3.csv", "sales_q4.csv"];

/// The layered result of one run.
pub struct LayerOutcomes {
    pub contract: bool,
    pub execute: bool,
    pub adequacy: bool,
}

/// Engineering cost of the hand-authored program.
pub struct EngineeringCost {
    /// Non-blank lines of the workflow script.
    pub loc: usize,
    /// Estimated author time in minutes.
    pub author_time_minutes: u32,
    /// No CIR nodes: the program is authored directly.
    pub nodes: Option<u32>,
}

/// Full fixed-workflow run record.
pub struct FixedWorkflowMetrics {
    pub system: String,
    pub task: String,
    pub execution_time_ms: u64,
    pub layers: LayerOutcomes,
    pub engineering_cost: EngineeringCost,
    /// Number of per-file processing steps observed from script output.
    pub steps: usize,
}

impl FixedWorkflowMetrics {
    /// Whether the contract, execution and adequacy layers all passed.
    pub fn all_passed(&self) -> (b: bool)
        ensures
            b == (self.layers.contract && self.layers.execute && self.layers.adequacy),
    {
        self.layers.contract && self.layers.execute && self.layers.adequacy
    }
}

/// Counts the non-blank lines of a workflow script.
pub fn count_script_loc(source: &str) -> (n: usize)
    ensures
        n == kept_lines(text_lines(source@)).len(),
{
    count_nonblank_lines(source)
}

} // verus!
