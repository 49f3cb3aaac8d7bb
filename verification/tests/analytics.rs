use workout_tracker::analytics::{
    max_weight_series, rank_records, volume_series, DateBounds, PrHistoryEntry, SetSample, VolumePoint,
    WeightPoint,
};
use workout_tracker::metrics::OneRepMax;
use workout_tracker::queries::{max_weight_over_time, pr_history, samples_of, volume_over_time};
use workout_tracker::records::SetRecord;
use workout_tracker::session::{finish_workout, ExerciseEntry, NumberedSet, WorkoutData};
use workout_tracker::store::Store;

fn sample(start: i64, weight: i16, reps: i16) -> SetSample {
    SetSample { start, weight, reps }
}

fn log(store: &mut Store, start: i64, exercise_id: i32, sets: &[(i16, i16)]) -> i32 {
    let sets = sets
        .iter()
        .enumerate()
        .map(|(i, (weight, reps))| NumberedSet {
            number: i as i16 + 1,
            set: SetRecord { weight: *weight, reps: *reps },
        })
        .collect();
    let data = WorkoutData {
        exercises: vec![ExerciseEntry { exercise_id, sets }],
        start_time: Some(start),
        end_time: Some(start + 60),
        routine_id: None,
    };
    finish_workout(store, &data).unwrap()
}

#[test]
fn an_exercise_never_logged_gives_empty_series() {
    let mut store = Store::new();
    let anywhere = DateBounds::open_ended();
    assert_eq!(volume_over_time(&store, 1, &anywhere), Vec::new());
    assert_eq!(max_weight_over_time(&store, 1, &anywhere), Vec::new());
    assert_eq!(pr_history(&store, 1), Vec::new());
    log(&mut store, 100, 2, &[(50, 5)]);
    assert_eq!(volume_over_time(&store, 1, &anywhere), Vec::new());
    assert_eq!(max_weight_over_time(&store, 1, &anywhere), Vec::new());
    assert_eq!(pr_history(&store, 1), Vec::new());
    assert_eq!(samples_of(&store, 1), Vec::new());
}

#[test]
fn volume_is_summed_per_workout_start_in_time_order() {
    let samples = vec![
        sample(300, 10, 10),
        sample(100, 50, 5),
        sample(200, 20, 2),
        sample(100, 60, 5),
        sample(300, 5, 1),
    ];
    let series = volume_series(&samples, &DateBounds::open_ended());
    assert_eq!(
        series,
        vec![
            VolumePoint { date: 100, volume: 550 },
            VolumePoint { date: 200, volume: 40 },
            VolumePoint { date: 300, volume: 105 },
        ]
    );
}

#[test]
fn max_weight_is_taken_per_workout_start_in_time_order() {
    let samples = vec![
        sample(300, 10, 10),
        sample(100, 50, 5),
        sample(200, 20, 2),
        sample(100, 60, 5),
        sample(100, 55, 5),
        sample(300, 5, 1),
    ];
    let series = max_weight_series(&samples, &DateBounds::open_ended());
    assert_eq!(
        series,
        vec![
            WeightPoint { date: 100, weight: 60 },
            WeightPoint { date: 200, weight: 20 },
            WeightPoint { date: 300, weight: 10 },
        ]
    );
}

#[test]
fn bounds_include_both_ends() {
    let samples = vec![sample(100, 1, 1), sample(200, 2, 1), sample(300, 3, 1), sample(400, 4, 1)];
    let inner = DateBounds { from: Some(200), to: Some(300) };
    assert_eq!(
        volume_series(&samples, &inner),
        vec![VolumePoint { date: 200, volume: 2 }, VolumePoint { date: 300, volume: 3 }]
    );
    let from_only = DateBounds { from: Some(300), to: None };
    assert_eq!(
        max_weight_series(&samples, &from_only),
        vec![WeightPoint { date: 300, weight: 3 }, WeightPoint { date: 400, weight: 4 }]
    );
    let to_only = DateBounds { from: None, to: Some(100) };
    assert_eq!(max_weight_series(&samples, &to_only), vec![WeightPoint { date: 100, weight: 1 }]);
    let nothing = DateBounds { from: Some(301), to: Some(399) };
    assert_eq!(volume_series(&samples, &nothing), Vec::new());
    let crossed = DateBounds { from: Some(400), to: Some(100) };
    assert_eq!(volume_series(&samples, &crossed), Vec::new());
    assert!(inner.contains(200) && inner.contains(300) && !inner.contains(199) && !inner.contains(301));
}

#[test]
fn series_take_any_stored_values() {
    let samples = vec![sample(i64::MIN, i16::MIN, i16::MIN), sample(i64::MAX, i16::MAX, i16::MIN), sample(i64::MIN, -3, 2)];
    let series = volume_series(&samples, &DateBounds::open_ended());
    assert_eq!(
        series,
        vec![
            VolumePoint { date: i64::MIN, volume: 1_073_741_824 - 6 },
            VolumePoint { date: i64::MAX, volume: -1_073_709_056 },
        ]
    );
    let heaviest = max_weight_series(&samples, &DateBounds::open_ended());
    assert_eq!(
        heaviest,
        vec![WeightPoint { date: i64::MIN, weight: -3 }, WeightPoint { date: i64::MAX, weight: i16::MAX }]
    );
}

#[test]
fn store_series_join_sets_to_their_workouts() {
    let mut store = Store::new();
    log(&mut store, 500, 1, &[(60, 10), (70, 8)]);
    log(&mut store, 100, 1, &[(80, 3)]);
    log(&mut store, 500, 1, &[(90, 1)]);
    log(&mut store, 300, 2, &[(10, 10)]);
    let anywhere = DateBounds::open_ended();
    assert_eq!(
        samples_of(&store, 1),
        vec![sample(500, 60, 10), sample(500, 70, 8), sample(100, 80, 3), sample(500, 90, 1)]
    );
    assert_eq!(
        volume_over_time(&store, 1, &anywhere),
        vec![VolumePoint { date: 100, volume: 240 }, VolumePoint { date: 500, volume: 1250 }]
    );
    assert_eq!(
        max_weight_over_time(&store, 1, &anywhere),
        vec![WeightPoint { date: 100, weight: 80 }, WeightPoint { date: 500, weight: 90 }]
    );
    assert_eq!(
        volume_over_time(&store, 1, &DateBounds { from: Some(101), to: None }),
        vec![VolumePoint { date: 500, volume: 1250 }]
    );
    assert_eq!(volume_over_time(&store, 2, &anywhere), vec![VolumePoint { date: 300, volume: 100 }]);
}

fn history_entry(date: i64, weight: i16, numerator: i64, denominator: i64, volume: i32) -> PrHistoryEntry {
    PrHistoryEntry {
        workout_date: date,
        weight,
        one_rm: OneRepMax::new(numerator, denominator).unwrap(),
        set_volume: volume,
    }
}

#[test]
fn history_ranks_by_estimate_then_weight_then_volume() {
    let entries = vec![
        history_entry(1, 50, 100, 1, 500),
        history_entry(2, 60, 300, 2, 100),
        history_entry(3, 70, 100, 1, 100),
        history_entry(4, 70, 200, 2, 300),
        history_entry(5, 40, 301, 2, 1),
    ];
    let ranked = rank_records(&entries);
    let dates: Vec<i64> = ranked.iter().map(|e| e.workout_date).collect();
    assert_eq!(dates, vec![5, 2, 4, 3, 1]);
    assert_eq!(ranked[2], history_entry(4, 70, 200, 2, 300));
    assert_eq!(rank_records(&Vec::new()), Vec::new());
}

#[test]
fn history_keeps_rows_that_tie() {
    let entries = vec![
        history_entry(1, 50, 100, 1, 500),
        history_entry(2, 50, 200, 2, 500),
        history_entry(1, 50, 100, 1, 500),
    ];
    let ranked = rank_records(&entries);
    assert_eq!(ranked.len(), 3);
    assert_eq!(ranked.iter().filter(|e| **e == history_entry(1, 50, 100, 1, 500)).count(), 2);
    assert_eq!(ranked.iter().filter(|e| **e == history_entry(2, 50, 200, 2, 500)).count(), 1);
}

#[test]
fn store_history_lists_every_ledger_row_of_the_exercise() {
    let mut store = Store::new();
    log(&mut store, 100, 1, &[(60, 10)]);
    log(&mut store, 200, 1, &[(100, 1)]);
    log(&mut store, 300, 1, &[(80, 8)]);
    log(&mut store, 400, 2, &[(200, 5)]);
    let history = pr_history(&store, 1);
    // estimates: 60 x 10 = 80; 100 x 1 = 100; 80 x 8 = 99.3
    assert_eq!(
        history,
        vec![
            history_entry(200, 100, 3600, 36, 100),
            history_entry(300, 80, 2880, 29, 640),
            history_entry(100, 60, 2160, 27, 600),
        ]
    );
    assert_eq!(pr_history(&store, 2).len(), 1);
}
