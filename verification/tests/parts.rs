use workout_tracker::errors::{EngineError, Missing, StorageFault, ValidationError};
use workout_tracker::evaluation::{best_to_store, evaluate, Evaluation, PrValue};
use workout_tracker::grouping::{group_rows, WorkoutRow};
use workout_tracker::metrics::OneRepMax;
use workout_tracker::records::{RecordMarks, RepsBest, SetRecord, WorkoutSession};
use workout_tracker::session::{routine_to_check, ExerciseEntry, NumberedSet};

fn row(exercise_id: i32, weight: i16, reps: i16) -> WorkoutRow {
    WorkoutRow { exercise_id, set: SetRecord { weight, reps } }
}

fn numbered(number: i16, weight: i16, reps: i16) -> NumberedSet {
    NumberedSet { number, set: SetRecord { weight, reps } }
}

#[test]
fn rows_are_listed_by_exercise_and_numbered_from_one() {
    let rows = vec![row(4, 40, 4), row(2, 20, 2), row(4, 41, 4), row(9, 90, 9), row(2, 21, 2), row(4, 42, 4)];
    assert_eq!(
        group_rows(&rows),
        vec![
            ExerciseEntry {
                exercise_id: 4,
                sets: vec![numbered(1, 40, 4), numbered(2, 41, 4), numbered(3, 42, 4)],
            },
            ExerciseEntry { exercise_id: 2, sets: vec![numbered(1, 20, 2), numbered(2, 21, 2)] },
            ExerciseEntry { exercise_id: 9, sets: vec![numbered(1, 90, 9)] },
        ]
    );
    assert_eq!(group_rows(&Vec::new()), Vec::new());
}

#[test]
fn improved_bests_are_listed_under_their_names() {
    let found = evaluate(&SetRecord { weight: 80, reps: 8 }, None, None).unwrap();
    let listed = found.list();
    assert_eq!(
        listed,
        vec![
            PrValue::Weight(80),
            PrValue::OneRM(OneRepMax::new(2880, 29).unwrap()),
            PrValue::Volume(640),
            PrValue::Reps(8),
        ]
    );
    let names: Vec<&str> = listed.iter().map(|value| value.name()).collect();
    assert_eq!(names, vec!["HeaviestWeight", "OneRM", "SetVolume", "HighestReps"]);

    let only_reps = Evaluation {
        heaviest_weight: None,
        one_rep_max: None,
        set_volume: None,
        highest_reps: Some(3),
    };
    assert_eq!(only_reps.list(), vec![PrValue::Reps(3)]);
    let nothing =
        Evaluation { heaviest_weight: None, one_rep_max: None, set_volume: None, highest_reps: None };
    assert_eq!(nothing.list(), Vec::new());
}

#[test]
fn a_best_is_offered_only_where_the_repetitions_improved() {
    let set = SetRecord { weight: 50, reps: 9 };
    let prior = RepsBest { exercise_id: 3, weight: 50, highest_reps: 7, record_id: Some(11) };
    let found = evaluate(&set, None, Some(7)).unwrap();
    assert_eq!(
        best_to_store(&found, 3, &set, Some(12), Some(prior)),
        Some(RepsBest { exercise_id: 3, weight: 50, highest_reps: 9, record_id: Some(12) })
    );
    assert_eq!(
        best_to_store(&found, 3, &set, None, Some(prior)),
        Some(RepsBest { exercise_id: 3, weight: 50, highest_reps: 9, record_id: Some(11) })
    );
    assert_eq!(
        best_to_store(&found, 3, &set, None, None),
        Some(RepsBest { exercise_id: 3, weight: 50, highest_reps: 9, record_id: None })
    );
    let same = evaluate(&set, None, Some(9)).unwrap();
    assert_eq!(best_to_store(&same, 3, &set, Some(12), Some(prior)), None);
}

#[test]
fn the_routine_is_looked_up_unless_the_session_holds_it() {
    let session = |routine_id| WorkoutSession { id: 1, start: 0, end: 1, routine_id };
    assert_eq!(routine_to_check(None, None), None);
    assert_eq!(routine_to_check(Some(5), None), Some(5));
    assert_eq!(routine_to_check(Some(5), Some(session(Some(5)))), None);
    assert_eq!(routine_to_check(Some(5), Some(session(Some(6)))), Some(5));
    assert_eq!(routine_to_check(Some(5), Some(session(None))), Some(5));
    assert_eq!(routine_to_check(None, Some(session(Some(6)))), None);
}

#[test]
fn marks_are_computed_for_valid_sets_only() {
    assert_eq!(
        SetRecord { weight: 80, reps: 8 }.checked_marks(),
        Ok(RecordMarks {
            heaviest_weight: 80,
            one_rep_max: OneRepMax::new(2880, 29).unwrap(),
            set_volume: 640,
        })
    );
    assert_eq!(SetRecord { weight: 80, reps: 0 }.checked_marks(), Err(ValidationError::RepsOutOfRange));
    assert_eq!(SetRecord { weight: -80, reps: 8 }.checked_marks(), Err(ValidationError::NegativeWeight));
    assert_eq!(SetRecord { weight: 0, reps: 36 }.check(), Ok(()));
    assert_eq!(SetRecord { weight: i16::MAX, reps: 1 }.check(), Ok(()));
}

#[test]
fn failures_map_to_their_status() {
    assert_eq!(EngineError::Validation(ValidationError::EmptyExerciseList).status_code(), 400);
    assert_eq!(EngineError::Validation(ValidationError::RepsOutOfRange).status_code(), 400);
    assert_eq!(EngineError::Validation(ValidationError::NegativeWeight).status_code(), 400);
    assert_eq!(EngineError::Validation(ValidationError::DuplicateSetNumber).status_code(), 400);
    assert_eq!(EngineError::NotFound(Missing::Routine).status_code(), 404);
    assert_eq!(EngineError::NotFound(Missing::Workout).status_code(), 404);
    assert_eq!(EngineError::Storage(StorageFault::SequenceExhausted).status_code(), 500);
    assert_eq!(EngineError::Storage(StorageFault::MissingTimestamp).status_code(), 500);
    assert_eq!(EngineError::Storage(StorageFault::UnexpectedReply).status_code(), 500);
}

#[test]
fn a_set_is_found_again_from_its_weight_and_volume() {
    assert_eq!(SetRecord::with_volume(80, 640), Some(SetRecord { weight: 80, reps: 8 }));
    assert_eq!(SetRecord::with_volume(80, 80), Some(SetRecord { weight: 80, reps: 1 }));
    assert_eq!(SetRecord::with_volume(80, 2880), Some(SetRecord { weight: 80, reps: 36 }));
    assert_eq!(SetRecord::with_volume(80, 2960), None);
    assert_eq!(SetRecord::with_volume(80, 641), None);
    assert_eq!(SetRecord::with_volume(80, 0), None);
    assert_eq!(SetRecord::with_volume(80, -640), None);
    assert_eq!(SetRecord::with_volume(0, 0), None);
    assert_eq!(SetRecord::with_volume(-80, -640), None);
    assert_eq!(SetRecord::with_volume(i16::MAX, i32::MAX), None);
    assert_eq!(
        SetRecord::with_volume(i16::MAX, 36 * i16::MAX as i32),
        Some(SetRecord { weight: i16::MAX, reps: 36 })
    );
}
