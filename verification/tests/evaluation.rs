use workout_tracker::engine::{record_set, validate_set};
use workout_tracker::errors::{EngineError, StorageFault, ValidationError};
use workout_tracker::evaluation::{evaluate, Evaluation};
use workout_tracker::metrics::OneRepMax;
use workout_tracker::records::{RecordMarks, SetRecord};
use workout_tracker::store::Store;

fn marks(weight: i16, numerator: i64, denominator: i64, volume: i32) -> RecordMarks {
    RecordMarks {
        heaviest_weight: weight,
        one_rep_max: OneRepMax::new(numerator, denominator).unwrap(),
        set_volume: volume,
    }
}

#[test]
fn first_ever_set_improves_every_metric() {
    let store = Store::new();
    let found = validate_set(&store, 1, &SetRecord { weight: 80, reps: 8 }).unwrap();
    assert_eq!(found.heaviest_weight, Some(80));
    assert_eq!(found.one_rep_max, Some(OneRepMax::new(2880, 29).unwrap()));
    assert_eq!(found.set_volume, Some(640));
    assert_eq!(found.highest_reps, Some(8));
    let one_rm = found.one_rep_max.unwrap();
    let shown = one_rm.numerator() as f64 / one_rm.denominator() as f64;
    assert!((shown - 99.31).abs() < 0.005);
    assert!(found.owes_record());
    assert!(found.owes_reps());
    assert!(!found.nothing_improved());
}

#[test]
fn validating_writes_nothing() {
    let store = Store::new();
    let set = SetRecord { weight: 80, reps: 8 };
    let first = validate_set(&store, 1, &set).unwrap();
    let second = validate_set(&store, 1, &set).unwrap();
    assert_eq!(first, second);
    assert!(store.records().is_empty());
    assert!(store.logged_sets().is_empty());
    assert_eq!(store.best(1, 80), None);
}

#[test]
fn resubmitting_the_same_set_improves_nothing() {
    let mut store = Store::new();
    let set = SetRecord { weight: 80, reps: 8 };
    let written = record_set(&mut store, 1, 1, &set).unwrap();
    assert!(written.owes_record());
    let again = validate_set(&store, 1, &set).unwrap();
    assert_eq!(
        again,
        Evaluation { heaviest_weight: None, one_rep_max: None, set_volume: None, highest_reps: None }
    );
    assert!(again.nothing_improved());
    let committed = record_set(&mut store, 2, 1, &set).unwrap();
    assert!(committed.nothing_improved());
    assert_eq!(store.records().len(), 1);
}

#[test]
fn evaluation_refuses_repetitions_out_of_range() {
    let store = Store::new();
    assert_eq!(
        validate_set(&store, 1, &SetRecord { weight: 80, reps: 37 }),
        Err(ValidationError::RepsOutOfRange)
    );
    assert_eq!(
        validate_set(&store, 1, &SetRecord { weight: 80, reps: 0 }),
        Err(ValidationError::RepsOutOfRange)
    );
    assert_eq!(evaluate(&SetRecord { weight: 80, reps: -1 }, None, None), Err(ValidationError::RepsOutOfRange));
}

#[test]
fn evaluation_refuses_a_negative_weight() {
    let store = Store::new();
    assert_eq!(
        validate_set(&store, 1, &SetRecord { weight: -1, reps: 5 }),
        Err(ValidationError::NegativeWeight)
    );
    assert_eq!(
        validate_set(&store, 1, &SetRecord { weight: -1, reps: 50 }),
        Err(ValidationError::RepsOutOfRange)
    );
}

#[test]
fn each_metric_is_compared_on_its_own() {
    let prior = marks(100, 100, 1, 500);
    let heavier = evaluate(&SetRecord { weight: 101, reps: 1 }, Some(prior), Some(10)).unwrap();
    assert_eq!(heavier.heaviest_weight, Some(101));
    assert_eq!(heavier.one_rep_max, Some(OneRepMax::new(3636, 36).unwrap()));
    assert_eq!(heavier.set_volume, None);
    assert_eq!(heavier.highest_reps, None);

    let voluminous = evaluate(&SetRecord { weight: 60, reps: 10 }, Some(prior), Some(10)).unwrap();
    assert_eq!(voluminous.heaviest_weight, None);
    assert_eq!(voluminous.one_rep_max, None);
    assert_eq!(voluminous.set_volume, Some(600));
    assert_eq!(voluminous.highest_reps, None);

    let enduring = evaluate(&SetRecord { weight: 20, reps: 11 }, Some(prior), Some(10)).unwrap();
    assert_eq!(enduring.heaviest_weight, None);
    assert_eq!(enduring.one_rep_max, None);
    assert_eq!(enduring.set_volume, None);
    assert_eq!(enduring.highest_reps, Some(11));
    assert!(!enduring.owes_record());
    assert!(enduring.owes_reps());
}

#[test]
fn equal_marks_are_no_improvement() {
    let prior = marks(80, 5760, 58, 640);
    let found = evaluate(&SetRecord { weight: 80, reps: 8 }, Some(prior), Some(8)).unwrap();
    assert!(found.nothing_improved());
}

#[test]
fn a_missing_best_counts_as_improved() {
    let prior = marks(100, 1000, 1, 5000);
    let found = evaluate(&SetRecord { weight: 50, reps: 3 }, Some(prior), None).unwrap();
    assert_eq!(found.highest_reps, Some(3));
    assert!(!found.owes_record());
}

#[test]
fn the_latest_row_is_compared_not_the_highest() {
    let mut store = Store::new();
    record_set(&mut store, 1, 7, &SetRecord { weight: 100, reps: 1 }).unwrap();
    let second = record_set(&mut store, 2, 7, &SetRecord { weight: 50, reps: 10 }).unwrap();
    assert_eq!(second.heaviest_weight, None);
    assert_eq!(second.set_volume, Some(500));
    assert_eq!(store.records().len(), 2);
    assert_eq!(store.latest_record(7).unwrap().marks.heaviest_weight, 50);
    let third = validate_set(&store, 7, &SetRecord { weight: 60, reps: 1 }).unwrap();
    assert_eq!(third.heaviest_weight, Some(60));
}

#[test]
fn a_ledger_row_holds_the_marks_of_its_set() {
    let mut store = Store::new();
    record_set(&mut store, 4, 9, &SetRecord { weight: 80, reps: 8 }).unwrap();
    let row = store.latest_record(9).unwrap();
    assert_eq!(row.id, 1);
    assert_eq!(row.exercise_id, 9);
    assert_eq!(row.workout_id, 4);
    assert_eq!(row.marks, marks(80, 2880, 29, 640));
    assert_eq!(store.latest_record(8), None);
}

#[test]
fn a_raised_best_refers_to_the_row_of_its_update() {
    let mut store = Store::new();
    record_set(&mut store, 1, 3, &SetRecord { weight: 100, reps: 5 }).unwrap();
    let best = store.best(3, 100).unwrap();
    assert_eq!(best.highest_reps, 5);
    assert_eq!(best.record_id, Some(1));

    // lighter, fewer repetitions than anything: no ledger row, but a first best at this weight
    record_set(&mut store, 2, 3, &SetRecord { weight: 40, reps: 2 }).unwrap();
    assert_eq!(store.records().len(), 1);
    let light = store.best(3, 40).unwrap();
    assert_eq!(light.highest_reps, 2);
    assert_eq!(light.record_id, None);

    // more repetitions at 100 improve the estimate and the volume: new row, new reference
    record_set(&mut store, 3, 3, &SetRecord { weight: 100, reps: 6 }).unwrap();
    let raised = store.best(3, 100).unwrap();
    assert_eq!(raised.highest_reps, 6);
    assert_eq!(raised.record_id, Some(2));
}

#[test]
fn a_best_raised_without_a_new_row_keeps_its_reference() {
    let mut store = Store::new();
    record_set(&mut store, 1, 3, &SetRecord { weight: 40, reps: 2 }).unwrap();
    assert_eq!(store.best(3, 40).unwrap().record_id, Some(1));
    record_set(&mut store, 2, 3, &SetRecord { weight: 100, reps: 10 }).unwrap();
    assert_eq!(store.records().len(), 2);
    // 40 x 3 improves none of the three marks over 100 x 10, only the repetitions at 40
    let found = record_set(&mut store, 3, 3, &SetRecord { weight: 40, reps: 3 }).unwrap();
    assert!(!found.owes_record());
    assert_eq!(store.records().len(), 2);
    let best = store.best(3, 40).unwrap();
    assert_eq!(best.highest_reps, 3);
    assert_eq!(best.record_id, Some(1));
}

#[test]
fn an_exhausted_ledger_refuses_the_set_and_writes_nothing() {
    let mut store = Store::with_sequences(1, 1, i32::MAX);
    let r = record_set(&mut store, 1, 1, &SetRecord { weight: 80, reps: 8 });
    assert_eq!(r, Err(EngineError::Storage(StorageFault::SequenceExhausted)));
    assert!(store.records().is_empty());
    assert_eq!(store.best(1, 80), None);
}
