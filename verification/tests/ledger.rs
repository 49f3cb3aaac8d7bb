use workout_tracker::engine::record_set;
use workout_tracker::records::{RepsBest, SetRecord};
use workout_tracker::session::{finish_workout, ExerciseEntry, NumberedSet, WorkoutData};
use workout_tracker::store::Store;

fn single(exercise_id: i32, weight: i16, reps: i16, start: i64) -> WorkoutData {
    WorkoutData {
        exercises: vec![ExerciseEntry {
            exercise_id,
            sets: vec![NumberedSet { number: 1, set: SetRecord { weight, reps } }],
        }],
        start_time: Some(start),
        end_time: Some(start + 1),
        routine_id: None,
    }
}

#[test]
fn highest_reps_never_decrease_at_a_weight() {
    let mut store = Store::new();
    let reps_submitted = [5i16, 3, 8, 8, 1, 36, 2, 12];
    let mut highest = 0i16;
    for (i, reps) in reps_submitted.iter().enumerate() {
        record_set(&mut store, i as i32 + 1, 1, &SetRecord { weight: 100, reps: *reps }).unwrap();
        let stored = store.best(1, 100).unwrap().highest_reps;
        assert!(stored >= highest);
        highest = highest.max(*reps);
        assert_eq!(stored, highest);
    }
    assert_eq!(store.best(1, 100).unwrap().highest_reps, 36);
}

#[test]
fn bests_are_kept_per_exercise_and_weight() {
    let mut store = Store::new();
    record_set(&mut store, 1, 1, &SetRecord { weight: 100, reps: 5 }).unwrap();
    record_set(&mut store, 1, 1, &SetRecord { weight: 90, reps: 7 }).unwrap();
    record_set(&mut store, 1, 2, &SetRecord { weight: 100, reps: 2 }).unwrap();
    assert_eq!(store.best(1, 100).unwrap().highest_reps, 5);
    assert_eq!(store.best(1, 90).unwrap().highest_reps, 7);
    assert_eq!(store.best(2, 100).unwrap().highest_reps, 2);
    assert_eq!(store.best(2, 90), None);
    record_set(&mut store, 2, 1, &SetRecord { weight: 90, reps: 6 }).unwrap();
    assert_eq!(store.best(1, 90).unwrap().highest_reps, 7);
    assert_eq!(store.best(1, 100).unwrap().highest_reps, 5);
}

#[test]
fn the_store_drops_a_best_that_does_not_raise() {
    let mut store = Store::new();
    let first = RepsBest { exercise_id: 1, weight: 50, highest_reps: 9, record_id: None };
    store.raise_best(first);
    store.raise_best(RepsBest { exercise_id: 1, weight: 50, highest_reps: 9, record_id: Some(4) });
    assert_eq!(store.best(1, 50), Some(first));
    store.raise_best(RepsBest { exercise_id: 1, weight: 50, highest_reps: 4, record_id: Some(4) });
    assert_eq!(store.best(1, 50), Some(first));
    let higher = RepsBest { exercise_id: 1, weight: 50, highest_reps: 10, record_id: Some(4) };
    store.raise_best(higher);
    assert_eq!(store.best(1, 50), Some(higher));
}

#[test]
fn improving_submissions_grow_the_ledger_by_one_row_each() {
    let mut store = Store::new();
    finish_workout(&mut store, &single(2, 500, 5, 1)).unwrap();
    let before = store.records().len();
    let weights = [50i16, 55, 60, 65, 70];
    for (i, weight) in weights.iter().enumerate() {
        finish_workout(&mut store, &single(1, *weight, 5, 10 + i as i64)).unwrap();
    }
    let rows: Vec<_> = store.records().iter().filter(|row| row.exercise_id == 1).collect();
    assert_eq!(rows.len(), weights.len());
    assert_eq!(store.records().len(), before + weights.len());
    for (i, row) in rows.iter().enumerate() {
        assert_eq!(row.marks.heaviest_weight, weights[i]);
        for other in &rows[i + 1..] {
            assert_ne!(row.workout_id, other.workout_id);
        }
        assert!(store.find_workout(row.workout_id).is_some());
    }
}

#[test]
fn a_submission_that_improves_nothing_adds_no_row() {
    let mut store = Store::new();
    finish_workout(&mut store, &single(1, 100, 10, 1)).unwrap();
    finish_workout(&mut store, &single(1, 100, 10, 2)).unwrap();
    finish_workout(&mut store, &single(1, 90, 5, 3)).unwrap();
    assert_eq!(store.records().len(), 1);
    assert_eq!(store.logged_sets().len(), 3);
    // the first row stays as it was written
    assert_eq!(store.records()[0].workout_id, 1);
}

#[test]
fn the_ledger_only_grows_at_its_end() {
    let mut store = Store::new();
    let mut seen = Vec::new();
    for (i, (weight, reps)) in [(50i16, 5i16), (40, 12), (60, 1), (60, 1), (10, 30)].iter().enumerate() {
        finish_workout(&mut store, &single(1, *weight, *reps, i as i64)).unwrap();
        let now = store.records().clone();
        assert!(now.len() >= seen.len());
        assert_eq!(&now[..seen.len()], &seen[..]);
        seen = now;
    }
}
