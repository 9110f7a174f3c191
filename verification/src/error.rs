//! The failures that the stores report.

use vstd::prelude::*;

verus! {

/// What a lookup was for, when it found nothing.
#[derive(Debug, Clone, Copy, PartialEq, Eq, Structural)]
pub enum Entity {
    Content,
    Module,
    Quiz,
    Enrollment,
    ContentProgress,
    QuizAttempt,
    Session,
    Media,
}

/// Why an operation was refused. A refused operation leaves the store as it
/// was.
#[derive(Debug, Clone, Copy, PartialEq, Eq, Structural)]
pub enum StoreError {
    /// The named record is not in the store.
    NotFound(Entity),
    /// The input is malformed or lacks a required value.
    InvalidInput,
    /// Storing the input would break a uniqueness or reference rule.
    ConstraintViolation,
}

} // verus!
