use vstd::prelude::*;

verus! {

/// Whether an exercise works one limb at a time or both together.
#[derive(Clone, Copy, Debug, PartialEq, Eq, Structural)]
pub enum ExerciseType {
    Single,
    Double,
}

/// An exercise as a routine names it.
#[derive(Clone, Debug, PartialEq, Eq)]
pub struct Exercise {
    name: String,
    exercise_type: ExerciseType,
}

/// A named list of exercises.
#[derive(Clone, Debug, PartialEq, Eq)]
pub struct Routine {
    name: String,
    exercise_list: Vec<Exercise>,
}

impl Exercise {
    pub closed spec fn title(&self) -> Seq<char> {
        self.name@
    }

    pub closed spec fn kind(&self) -> ExerciseType {
        self.exercise_type
    }

    pub fn new(name: String, exercise_type: ExerciseType) -> (exercise: Exercise)
        ensures
            exercise.title() == name@,
            exercise.kind() == exercise_type,
    {
        Exercise { name, exercise_type }
    }

    pub fn name(&self) -> (name: &str)
        ensures
            name@ == self.title(),
    {
        self.name.as_str()
    }

    pub fn exercise_type(&self) -> (exercise_type: ExerciseType)
        ensures
            exercise_type == self.kind(),
    {
        self.exercise_type
    }
}

impl Routine {
    pub closed spec fn title(&self) -> Seq<char> {
        self.name@
    }

    pub closed spec fn exercises(&self) -> Seq<Exercise> {
        self.exercise_list@
    }

    pub fn new(name: String, exercise_list: Vec<Exercise>) -> (routine: Routine)
        ensures
            routine.title() == name@,
            routine.exercises() == exercise_list@,
    {
        Routine { name, exercise_list }
    }

    pub fn name(&self) -> (name: &str)
        ensures
            name@ == self.title(),
    {
        self.name.as_str()
    }

    pub fn exercise_list(&self) -> (list: &Vec<Exercise>)
        ensures
            list@ == self.exercises(),
    {
        &self.exercise_list
    }
}

} // verus!
