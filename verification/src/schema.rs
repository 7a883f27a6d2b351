//! Structural checks on task specifications.

use vstd::prelude::*;

use crate::error::AcosError;
use crate::text::{is_blank, string_of, trim_seq};
use crate::types::TaskSpec;

verus! {

/// The error a task spec is rejected with, if any: a missing API version
/// first, then a blank goal.
pub open spec fn task_spec_error(task: TaskSpec) -> Option<Seq<char>> {
    if task.api_version@.len() == 0 {
        Some("task.api_version is required"@)
    } else if trim_seq(task.goal@).len() == 0 {
        Some("task.spec.goal is required"@)
    } else {
        None
    }
}

/// Validates a task spec for its required fields.
pub fn validate_task_spec(task: &TaskSpec) -> (r: Result<(), AcosError>)
    ensures
        match task_spec_error(*task) {
            None => r is Ok,
            Some(m) => r matches Err(AcosError::ValidationFailure { message }) && message@ == m,
        },
{
    if task.api_version.unicode_len() == 0 {
        return Err(AcosError::ValidationFailure { message: string_of("task.api_version is required") });
    }
    if is_blank(task.goal.as_str()) {
        return Err(AcosError::ValidationFailure { message: string_of("task.spec.goal is required") });
    }
    Ok(())
}

} // verus!
