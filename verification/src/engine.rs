use crate::errors::{EngineError, ValidationError};
use crate::evaluation::{best_to_store, evaluate, evaluation, improvements, Evaluation};
use crate::model;
use crate::records::{RecordMarks, SetRecord};
use crate::store::Store;
use vstd::prelude::*;

verus! {

/// The marks of the ledger row inserted last for the exercise.
fn latest_marks(store: &Store, exercise_id: i32) -> (marks: Option<RecordMarks>)
    ensures
        marks == store@.latest_marks(exercise_id),
{
    match store.latest_record(exercise_id) {
        Some(row) => Some(row.marks),
        None => None,
    }
}

/// Evaluates one set against what the store holds and writes nothing: the
/// bests the set would improve, each with its new value.
pub fn validate_set(store: &Store, exercise_id: i32, set: &SetRecord) -> (r: Result<
    Evaluation,
    ValidationError,
>)
    requires
        store.wf(),
    ensures
        r == evaluation(
            *set,
            store@.latest_marks(exercise_id),
            store@.best_reps(exercise_id, set.weight),
        ),
{
    let latest = latest_marks(store, exercise_id);
    let prior_reps = match store.best(exercise_id, set.weight) {
        Some(row) => Some(row.highest_reps),
        None => None,
    };
    evaluate(set, latest, prior_reps)
}

/// Evaluates one set of a workout and writes its improvements: one ledger
/// row where any of the three marks improved, and a raised best where the
/// repetitions did. On failure nothing is written.
pub fn record_set(store: &mut Store, workout_id: i32, exercise_id: i32, set: &SetRecord) -> (r:
    Result<Evaluation, EngineError>)
    requires
        old(store).wf(),
    ensures
        final(store).wf(),
        match r {
            Ok(found) => model::record_set(old(store)@, workout_id, exercise_id, *set) == Ok::<
                model::StoreState,
                EngineError,
            >(final(store)@) && found == improvements(
                *set,
                old(store)@.latest_marks(exercise_id),
                old(store)@.best_reps(exercise_id, set.weight),
            ),
            Err(e) => model::record_set(old(store)@, workout_id, exercise_id, *set) == Err::<
                model::StoreState,
                EngineError,
            >(e) && final(store)@ == old(store)@,
        },
{
    let latest = latest_marks(store, exercise_id);
    let prior = store.best(exercise_id, set.weight);
    let prior_reps = match prior {
        Some(row) => Some(row.highest_reps),
        None => None,
    };
    let found = match evaluate(set, latest, prior_reps) {
        Err(e) => {
            return Err(EngineError::Validation(e));
        },
        Ok(found) => found,
    };
    let created = if found.owes_record() {
        match store.append_record(exercise_id, workout_id, set.compute_marks()) {
            Err(fault) => {
                return Err(EngineError::Storage(fault));
            },
            Ok(id) => Some(id),
        }
    } else {
        None
    };
    match best_to_store(&found, exercise_id, set, created, prior) {
        Some(row) => {
            store.raise_best(row);
        },
        None => {},
    }
    Ok(found)
}

} // verus!
