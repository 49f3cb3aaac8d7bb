use crate::errors::{EngineError, StorageFault};
use crate::evaluation::{improvements, raised_best};
use crate::records::{LoggedSet, PersonalRecord, RecordMarks, RepsBest, SetRecord, WorkoutSession};
use vstd::prelude::*;

verus! {

/// The store as contracts see it: the routines that exist, the three
/// append-only tables in insertion order, the best repetitions keyed by
/// exercise and weight, and the next value of each identifier sequence.
#[verifier::ext_equal]
pub struct StoreState {
    pub routines: Set<i32>,
    pub workouts: Seq<WorkoutSession>,
    pub sets: Seq<LoggedSet>,
    pub records: Seq<PersonalRecord>,
    pub bests: Map<(i32, i16), RepsBest>,
    pub next_workout_id: i32,
    pub next_set_id: i32,
    pub next_record_id: i32,
}

/// The session with the given identifier, if the table holds one.
pub open spec fn find_workout(workouts: Seq<WorkoutSession>, id: i32) -> Option<WorkoutSession>
    decreases workouts.len(),
{
    if workouts.len() == 0 {
        None
    } else if workouts.last().id == id {
        Some(workouts.last())
    } else {
        find_workout(workouts.drop_last(), id)
    }
}

/// The ledger row inserted last for the exercise, whatever it holds.
pub open spec fn latest_record(records: Seq<PersonalRecord>, exercise_id: i32) -> Option<
    PersonalRecord,
>
    decreases records.len(),
{
    if records.len() == 0 {
        None
    } else if records.last().exercise_id == exercise_id {
        Some(records.last())
    } else {
        latest_record(records.drop_last(), exercise_id)
    }
}

/// How many ledger rows the exercise has.
pub open spec fn count_records(records: Seq<PersonalRecord>, exercise_id: i32) -> nat
    decreases records.len(),
{
    if records.len() == 0 {
        0
    } else if records.last().exercise_id == exercise_id {
        count_records(records.drop_last(), exercise_id) + 1
    } else {
        count_records(records.drop_last(), exercise_id)
    }
}

/// The key under which a best is stored.
pub open spec fn key_of(row: RepsBest) -> (i32, i16) {
    (row.exercise_id, row.weight)
}

/// The bests after `row` is offered: it replaces what is stored under its
/// key only where it holds strictly more repetitions.
pub open spec fn raise_best(bests: Map<(i32, i16), RepsBest>, row: RepsBest) -> Map<
    (i32, i16),
    RepsBest,
> {
    if bests.contains_key(key_of(row)) && bests[key_of(row)].highest_reps >= row.highest_reps {
        bests
    } else {
        bests.insert(key_of(row), row)
    }
}

impl StoreState {
    /// A store without rows whose sequences start at the given values.
    pub open spec fn fresh(next_workout_id: i32, next_set_id: i32, next_record_id: i32) -> StoreState {
        StoreState {
            routines: Set::empty(),
            workouts: Seq::empty(),
            sets: Seq::empty(),
            records: Seq::empty(),
            bests: Map::empty(),
            next_workout_id,
            next_set_id,
            next_record_id,
        }
    }

    /// Identifiers rise along each table and stay below the next value of
    /// their sequence, every ledger row holds a proper fraction, and every
    /// best is stored under its own key.
    pub open spec fn wf(self) -> bool {
        &&& forall|i: int|
            0 <= i < self.workouts.len() ==> (#[trigger] self.workouts[i]).id
                < self.next_workout_id
        &&& forall|i: int, j: int|
            0 <= i < j < self.workouts.len() ==> (#[trigger] self.workouts[i]).id < (
            #[trigger] self.workouts[j]).id
        &&& forall|i: int| 0 <= i < self.sets.len() ==> (#[trigger] self.sets[i]).id < self.next_set_id
        &&& forall|i: int, j: int|
            0 <= i < j < self.sets.len() ==> (#[trigger] self.sets[i]).id < (
            #[trigger] self.sets[j]).id
        &&& forall|i: int|
            0 <= i < self.records.len() ==> (#[trigger] self.records[i]).id < self.next_record_id
        &&& forall|i: int, j: int|
            0 <= i < j < self.records.len() ==> (#[trigger] self.records[i]).id < (
            #[trigger] self.records[j]).id
        &&& forall|i: int| 0 <= i < self.records.len() ==> (#[trigger] self.records[i]).marks.wf()
        &&& forall|k: (i32, i16)| #[trigger]
            self.bests.contains_key(k) ==> key_of(self.bests[k]) == k
    }

    pub open spec fn workout(self, id: i32) -> Option<WorkoutSession> {
        find_workout(self.workouts, id)
    }

    /// The marks of the ledger row inserted last for the exercise.
    pub open spec fn latest_marks(self, exercise_id: i32) -> Option<RecordMarks> {
        match latest_record(self.records, exercise_id) {
            Some(row) => Some(row.marks),
            None => None,
        }
    }

    /// The best stored for the exercise at the weight.
    pub open spec fn best(self, exercise_id: i32, weight: i16) -> Option<RepsBest> {
        if self.bests.contains_key((exercise_id, weight)) {
            Some(self.bests[(exercise_id, weight)])
        } else {
            None
        }
    }

    /// The most repetitions stored for the exercise at the weight.
    pub open spec fn best_reps(self, exercise_id: i32, weight: i16) -> Option<i16> {
        match self.best(exercise_id, weight) {
            Some(row) => Some(row.highest_reps),
            None => None,
        }
    }

    /// Why a session row with these times cannot be inserted, if it cannot:
    /// a row needs both times, and the sequence a value to hand out.
    pub open spec fn workout_fault(self, start: Option<i64>, end: Option<i64>) -> Option<
        StorageFault,
    > {
        if start.is_none() || end.is_none() {
            Some(StorageFault::MissingTimestamp)
        } else if self.next_workout_id == i32::MAX {
            Some(StorageFault::SequenceExhausted)
        } else {
            None
        }
    }

    /// The store after a session row is inserted.
    pub open spec fn with_workout(self, start: i64, end: i64, routine_id: Option<i32>) -> StoreState
        recommends
            self.next_workout_id < i32::MAX,
    {
        StoreState {
            workouts: self.workouts.push(
                WorkoutSession { id: self.next_workout_id, start, end, routine_id },
            ),
            next_workout_id: (self.next_workout_id + 1) as i32,
            ..self
        }
    }

    /// The store after a set is inserted for a workout and an exercise.
    pub open spec fn with_set(self, workout_id: i32, exercise_id: i32, set: SetRecord) -> StoreState
        recommends
            self.next_set_id < i32::MAX,
    {
        StoreState {
            sets: self.sets.push(LoggedSet { id: self.next_set_id, workout_id, exercise_id, set }),
            next_set_id: (self.next_set_id + 1) as i32,
            ..self
        }
    }

    /// The store after a row is appended to the ledger.
    pub open spec fn with_record(self, exercise_id: i32, workout_id: i32, marks: RecordMarks) -> StoreState
        recommends
            self.next_record_id < i32::MAX,
    {
        StoreState {
            records: self.records.push(
                PersonalRecord { id: self.next_record_id, exercise_id, workout_id, marks },
            ),
            next_record_id: (self.next_record_id + 1) as i32,
            ..self
        }
    }

    /// The store after a best is offered.
    pub open spec fn with_best(self, row: RepsBest) -> StoreState {
        StoreState { bests: raise_best(self.bests, row), ..self }
    }
}

/// The store after one set is evaluated and its improvements are written:
/// a ledger row where one of the three marks improved, and a raised best
/// where the repetitions did. Refused where the set is not valid or the
/// ledger has no identifier left.
pub open spec fn record_set(s: StoreState, workout_id: i32, exercise_id: i32, set: SetRecord) -> Result<
    StoreState,
    EngineError,
> {
    match set.fault() {
        Some(e) => Err(EngineError::Validation(e)),
        None => {
            let found = improvements(
                set,
                s.latest_marks(exercise_id),
                s.best_reps(exercise_id, set.weight),
            );
            if found.adds_record() && s.next_record_id == i32::MAX {
                Err(EngineError::Storage(StorageFault::SequenceExhausted))
            } else {
                let written = if found.adds_record() {
                    s.with_record(exercise_id, workout_id, set.marks())
                } else {
                    s
                };
                let created = if found.adds_record() {
                    Some(s.next_record_id)
                } else {
                    None
                };
                Ok(
                    match raised_best(
                        found,
                        exercise_id,
                        set,
                        created,
                        s.best(exercise_id, set.weight),
                    ) {
                        Some(row) => written.with_best(row),
                        None => written,
                    },
                )
            }
        },
    }
}

/// The store after one set is stored for its workout and exercise and then
/// evaluated.
pub open spec fn log_set(s: StoreState, workout_id: i32, exercise_id: i32, set: SetRecord) -> Result<
    StoreState,
    EngineError,
> {
    if s.next_set_id == i32::MAX {
        Err(EngineError::Storage(StorageFault::SequenceExhausted))
    } else {
        record_set(s.with_set(workout_id, exercise_id, set), workout_id, exercise_id, set)
    }
}

/// Appending a row makes it the latest of its exercise and leaves the
/// latest of every other exercise as it was.
pub proof fn lemma_latest_after_push(records: Seq<PersonalRecord>, row: PersonalRecord, exercise_id: i32)
    ensures
        latest_record(records.push(row), exercise_id) == if row.exercise_id == exercise_id {
            Some(row)
        } else {
            latest_record(records, exercise_id)
        },
        count_records(records.push(row), exercise_id) == if row.exercise_id == exercise_id {
            count_records(records, exercise_id) + 1
        } else {
            count_records(records, exercise_id)
        },
{
    assert(records.push(row).drop_last() =~= records);
}

/// A session is found under the identifier it was inserted with, and the
/// sessions found before are found still.
pub proof fn lemma_find_after_push(workouts: Seq<WorkoutSession>, row: WorkoutSession, id: i32)
    ensures
        find_workout(workouts.push(row), id) == if row.id == id {
            Some(row)
        } else {
            find_workout(workouts, id)
        },
{
    assert(workouts.push(row).drop_last() =~= workouts);
}

/// What is found carries the identifier asked for and stands in the table.
pub proof fn lemma_find_workout(workouts: Seq<WorkoutSession>, id: i32)
    ensures
        match find_workout(workouts, id) {
            Some(row) => row.id == id && workouts.contains(row),
            None => forall|i: int| 0 <= i < workouts.len() ==> (#[trigger] workouts[i]).id != id,
        },
    decreases workouts.len(),
{
    if workouts.len() > 0 {
        lemma_find_workout(workouts.drop_last(), id);
        if workouts.last().id != id {
            match find_workout(workouts, id) {
                Some(row) => {
                    let i = choose|i: int|
                        0 <= i < workouts.drop_last().len() && workouts.drop_last()[i] == row;
                    assert(workouts[i] == row);
                },
                None => {
                    assert forall|i: int| 0 <= i < workouts.len() implies (
                    #[trigger] workouts[i]).id != id by {
                        if i < workouts.len() - 1 {
                            assert(workouts.drop_last()[i] == workouts[i]);
                        }
                    }
                },
            }
        } else {
            assert(workouts[workouts.len() - 1] == workouts.last());
        }
    }
}

/// The latest row of an exercise belongs to it and stands in the ledger; an
/// exercise without a latest row has no row at all.
pub proof fn lemma_latest_record(records: Seq<PersonalRecord>, exercise_id: i32)
    ensures
        match latest_record(records, exercise_id) {
            Some(row) => row.exercise_id == exercise_id && records.contains(row)
                && count_records(records, exercise_id) > 0,
            None => count_records(records, exercise_id) == 0 && forall|i: int|
                0 <= i < records.len() ==> (#[trigger] records[i]).exercise_id != exercise_id,
        },
    decreases records.len(),
{
    if records.len() > 0 {
        lemma_latest_record(records.drop_last(), exercise_id);
        if records.last().exercise_id != exercise_id {
            match latest_record(records, exercise_id) {
                Some(row) => {
                    let i = choose|i: int|
                        0 <= i < records.drop_last().len() && records.drop_last()[i] == row;
                    assert(records[i] == row);
                },
                None => {
                    assert forall|i: int| 0 <= i < records.len() implies (
                    #[trigger] records[i]).exercise_id != exercise_id by {
                        if i < records.len() - 1 {
                            assert(records.drop_last()[i] == records[i]);
                        }
                    }
                },
            }
        } else {
            assert(records[records.len() - 1] == records.last());
        }
    }
}

/// Writing one set's improvements keeps the store well formed.
pub proof fn lemma_record_set_wf(s: StoreState, workout_id: i32, exercise_id: i32, set: SetRecord)
    requires
        s.wf(),
    ensures
        record_set(s, workout_id, exercise_id, set) matches Ok(after) ==> after.wf(),
{
    if let Ok(after) = record_set(s, workout_id, exercise_id, set) {
        crate::metrics::OneRepMax::lemma_estimate(set.weight, set.reps);
        assert(set.marks().wf());
    }
}

/// Storing and evaluating one set keeps the store well formed.
pub proof fn lemma_log_set_wf(s: StoreState, workout_id: i32, exercise_id: i32, set: SetRecord)
    requires
        s.wf(),
    ensures
        log_set(s, workout_id, exercise_id, set) matches Ok(after) ==> after.wf(),
{
    if s.next_set_id < i32::MAX {
        lemma_record_set_wf(s.with_set(workout_id, exercise_id, set), workout_id, exercise_id, set);
    }
}

} // verus!
