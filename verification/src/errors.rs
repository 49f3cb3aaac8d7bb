use vstd::prelude::*;

verus! {

/// Why a payload was refused before anything was written.
#[derive(Clone, Copy, Debug, PartialEq, Eq, Structural)]
pub enum ValidationError {
    /// A workout was submitted without any exercise.
    EmptyExerciseList,
    /// A set's repetition count lies outside `1..=36`.
    RepsOutOfRange,
    /// A set's weight is negative.
    NegativeWeight,
    /// Two sets of one exercise carry the same set number.
    DuplicateSetNumber,
}

/// Which kind of row an identifier failed to name.
#[derive(Clone, Copy, Debug, PartialEq, Eq, Structural)]
pub enum Missing {
    Routine,
    Workout,
}

/// Why the store refused a write.
#[derive(Clone, Copy, Debug, PartialEq, Eq, Structural)]
pub enum StorageFault {
    /// An identifier sequence has no value left to hand out.
    SequenceExhausted,
    /// A session row needs both a start and an end time.
    MissingTimestamp,
    /// The store answered a command with a reply that belongs to another.
    UnexpectedReply,
}

/// Every way a request to the engine can fail.
#[derive(Clone, Copy, Debug, PartialEq, Eq, Structural)]
pub enum EngineError {
    Validation(ValidationError),
    NotFound(Missing),
    Storage(StorageFault),
}

impl EngineError {
    /// The HTTP status a front end answers with.
    pub open spec fn status(self) -> int {
        match self {
            EngineError::Validation(_) => 400,
            EngineError::NotFound(_) => 404,
            EngineError::Storage(_) => 500,
        }
    }

    pub fn status_code(&self) -> (code: u16)
        ensures
            code == self.status(),
    {
        match self {
            EngineError::Validation(_) => 400,
            EngineError::NotFound(_) => 404,
            EngineError::Storage(_) => 500,
        }
    }
}

} // verus!
