use crate::records::SetRecord;
use crate::session::NumberedSet;
use vstd::prelude::*;

verus! {

/// One exercise of a routine with the number of sets it prescribes.
#[derive(Clone, Copy, Debug, PartialEq, Eq, Structural)]
pub struct RoutineExercise {
    pub exercise_id: i32,
    pub sets: i32,
}

/// Why a routine is refused before anything is written.
#[derive(Clone, Copy, Debug, PartialEq, Eq, Structural)]
pub enum RoutineFault {
    EmptyName,
    NoExercises,
}

impl RoutineFault {
    /// What the client is told.
    pub open spec fn text(self) -> Seq<char> {
        match self {
            RoutineFault::EmptyName => "Routine name cannot be empty"@,
            RoutineFault::NoExercises => "Routine must include at least one exercise"@,
        }
    }

    /// What the client is told.
    pub fn message(&self) -> (text: &'static str)
        ensures
            text@ == self.text(),
    {
        match self {
            RoutineFault::EmptyName => "Routine name cannot be empty",
            RoutineFault::NoExercises => "Routine must include at least one exercise",
        }
    }
}

/// What is wrong with a routine, if anything: the name is judged first,
/// then the exercises.
pub open spec fn routine_fault(name: Seq<char>, exercises: Seq<RoutineExercise>) -> Option<
    RoutineFault,
> {
    if name.len() == 0 {
        Some(RoutineFault::EmptyName)
    } else if exercises.len() == 0 {
        Some(RoutineFault::NoExercises)
    } else {
        None
    }
}

/// Judges a routine that is to be created or replaced.
pub fn check_routine(name: &str, exercises: &Vec<RoutineExercise>) -> (r: Result<(), RoutineFault>)
    ensures
        match r {
            Ok(_) => routine_fault(name@, exercises@) is None,
            Err(fault) => routine_fault(name@, exercises@) == Some(fault),
        },
{
    if name.is_empty() {
        Err(RoutineFault::EmptyName)
    } else if exercises.len() == 0 {
        Err(RoutineFault::NoExercises)
    } else {
        Ok(())
    }
}

/// The set with which a workout started from a routine begins: nothing
/// moved yet.
pub open spec fn blank_set(number: int) -> NumberedSet {
    NumberedSet { number: number as i16, set: SetRecord { weight: 0, reps: 0 } }
}

/// The blank sets a workout started from a routine shows for one exercise:
/// one per prescribed set, numbered from one.
pub fn template_sets(number_of_sets: i16) -> (sets: Vec<NumberedSet>)
    ensures
        sets@.len() == if number_of_sets > 0 {
            number_of_sets as int
        } else {
            0
        },
        forall|i: int| 0 <= i < sets@.len() ==> #[trigger] sets@[i] == blank_set(i + 1),
{
    let mut sets: Vec<NumberedSet> = Vec::new();
    let mut number: i16 = 0;
    while number < number_of_sets
        invariant
            0 <= number,
            number_of_sets >= 0 ==> number <= number_of_sets,
            number_of_sets < 0 ==> number == 0,
            sets@.len() == number,
            forall|i: int| 0 <= i < sets@.len() ==> #[trigger] sets@[i] == blank_set(i + 1),
        decreases number_of_sets - number,
    {
        number += 1;
        sets.push(NumberedSet { number, set: SetRecord { weight: 0, reps: 0 } });
    }
    sets
}

} // verus!
