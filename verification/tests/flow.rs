use workout_tracker::errors::{EngineError, Missing, StorageFault, ValidationError};
use workout_tracker::flow::{Command, Reply, SessionFlow};
use workout_tracker::metrics::OneRepMax;
use workout_tracker::records::{RecordMarks, RepsBest, SetRecord, WorkoutSession};
use workout_tracker::session::{finish_workout, perform, ExerciseEntry, NumberedSet, WorkoutData};
use workout_tracker::store::Store;

fn payload(routine_id: Option<i32>, sets: Vec<(i32, i16, i16)>) -> WorkoutData {
    let mut exercises: Vec<ExerciseEntry> = Vec::new();
    for (exercise_id, weight, reps) in sets {
        let set = SetRecord { weight, reps };
        match exercises.iter_mut().find(|entry| entry.exercise_id == exercise_id) {
            Some(entry) => {
                let number = entry.sets.len() as i16 + 1;
                entry.sets.push(NumberedSet { number, set });
            }
            None => exercises.push(ExerciseEntry {
                exercise_id,
                sets: vec![NumberedSet { number: 1, set }],
            }),
        }
    }
    WorkoutData { exercises, start_time: Some(100), end_time: Some(200), routine_id }
}

fn marks(weight: i16, reps: i16) -> RecordMarks {
    SetRecord { weight, reps }.checked_marks().unwrap()
}

#[test]
fn a_new_workout_names_its_commands_in_order() {
    let mut flow = SessionFlow::begin(&payload(Some(5), vec![(3, 80, 8)]), None);
    assert!(!flow.is_over());
    assert_eq!(flow.command(), Command::FindRoutine { routine_id: 5 });
    flow.resume(Reply::Routine(true));
    assert_eq!(
        flow.command(),
        Command::InsertWorkout { start: Some(100), end: Some(200), routine: Some(5) }
    );
    flow.resume(Reply::Inserted(7));
    let set = SetRecord { weight: 80, reps: 8 };
    assert_eq!(flow.command(), Command::InsertSet { workout_id: 7, exercise_id: 3, set });
    flow.resume(Reply::Inserted(41));
    assert_eq!(flow.command(), Command::ReadBests { exercise_id: 3, weight: 80 });
    flow.resume(Reply::Bests { latest: None, best: None });
    assert_eq!(
        flow.command(),
        Command::AppendRecord { exercise_id: 3, workout_id: 7, marks: marks(80, 8) }
    );
    flow.resume(Reply::Inserted(12));
    assert_eq!(
        flow.command(),
        Command::RaiseBest {
            row: RepsBest { exercise_id: 3, weight: 80, highest_reps: 8, record_id: Some(12) }
        }
    );
    flow.resume(Reply::Raised);
    assert_eq!(flow.command(), Command::Commit { workout_id: 7 });
    assert!(flow.is_over());
    flow.resume(Reply::Raised);
    assert_eq!(flow.command(), Command::Commit { workout_id: 7 });
}

#[test]
fn a_set_that_improves_nothing_asks_for_no_write_but_its_row() {
    let mut flow = SessionFlow::begin(&payload(None, vec![(3, 80, 8), (3, 90, 1)]), None);
    assert_eq!(
        flow.command(),
        Command::InsertWorkout { start: Some(100), end: Some(200), routine: None }
    );
    flow.resume(Reply::Inserted(1));
    flow.resume(Reply::Inserted(1));
    let prior = RepsBest { exercise_id: 3, weight: 80, highest_reps: 8, record_id: Some(4) };
    flow.resume(Reply::Bests { latest: Some(marks(80, 8)), best: Some(prior) });
    // nothing improved: the next set follows at once
    assert_eq!(
        flow.command(),
        Command::InsertSet { workout_id: 1, exercise_id: 3, set: SetRecord { weight: 90, reps: 1 } }
    );
    flow.resume(Reply::Inserted(2));
    assert_eq!(flow.command(), Command::ReadBests { exercise_id: 3, weight: 90 });
    // heavier, but with a lower estimate and volume; the repetitions at 90 do not improve
    let stored = RepsBest { exercise_id: 3, weight: 90, highest_reps: 2, record_id: None };
    flow.resume(Reply::Bests { latest: Some(marks(80, 8)), best: Some(stored) });
    assert_eq!(
        flow.command(),
        Command::AppendRecord { exercise_id: 3, workout_id: 1, marks: marks(90, 1) }
    );
    flow.resume(Reply::Inserted(5));
    assert_eq!(flow.command(), Command::Commit { workout_id: 1 });
}

#[test]
fn a_best_raised_without_a_row_keeps_the_prior_reference() {
    let mut flow = SessionFlow::begin(&payload(None, vec![(3, 40, 3)]), None);
    flow.resume(Reply::Inserted(1));
    flow.resume(Reply::Inserted(1));
    let prior = RepsBest { exercise_id: 3, weight: 40, highest_reps: 2, record_id: Some(9) };
    flow.resume(Reply::Bests { latest: Some(marks(100, 10)), best: Some(prior) });
    assert_eq!(
        flow.command(),
        Command::RaiseBest {
            row: RepsBest { exercise_id: 3, weight: 40, highest_reps: 3, record_id: Some(9) }
        }
    );
}

#[test]
fn an_invalid_payload_is_over_before_any_command() {
    let flow = SessionFlow::begin(&payload(Some(5), vec![(3, 80, 38)]), None);
    assert!(flow.is_over());
    assert_eq!(
        flow.command(),
        Command::Abort { error: EngineError::Validation(ValidationError::RepsOutOfRange) }
    );
    let empty = WorkoutData { exercises: vec![], start_time: None, end_time: None, routine_id: None };
    assert_eq!(
        SessionFlow::begin(&empty, Some(4)).command(),
        Command::Abort { error: EngineError::Validation(ValidationError::EmptyExerciseList) }
    );
}

#[test]
fn a_missing_routine_ends_the_session() {
    let mut flow = SessionFlow::begin(&payload(Some(5), vec![(3, 80, 8)]), None);
    flow.resume(Reply::Routine(false));
    assert_eq!(flow.command(), Command::Abort { error: EngineError::NotFound(Missing::Routine) });
    flow.resume(Reply::Routine(true));
    assert_eq!(flow.command(), Command::Abort { error: EngineError::NotFound(Missing::Routine) });
}

#[test]
fn a_modified_workout_is_looked_up_first() {
    let data = payload(Some(5), vec![(3, 80, 8)]);
    let mut flow = SessionFlow::begin(&data, Some(9));
    assert_eq!(flow.command(), Command::FindWorkout { workout_id: 9 });
    flow.resume(Reply::Workout(None));
    assert_eq!(flow.command(), Command::Abort { error: EngineError::NotFound(Missing::Workout) });

    let held = WorkoutSession { id: 9, start: 1, end: 2, routine_id: Some(5) };
    let mut same = SessionFlow::begin(&data, Some(9));
    same.resume(Reply::Workout(Some(held)));
    let set = SetRecord { weight: 80, reps: 8 };
    assert_eq!(same.command(), Command::InsertSet { workout_id: 9, exercise_id: 3, set });

    let other = WorkoutSession { id: 9, start: 1, end: 2, routine_id: Some(6) };
    let mut changed = SessionFlow::begin(&data, Some(9));
    changed.resume(Reply::Workout(Some(other)));
    assert_eq!(changed.command(), Command::FindRoutine { routine_id: 5 });
    changed.resume(Reply::Routine(true));
    assert_eq!(changed.command(), Command::InsertSet { workout_id: 9, exercise_id: 3, set });
}

#[test]
fn a_refusal_of_the_store_ends_the_session() {
    let mut flow = SessionFlow::begin(&payload(None, vec![(3, 80, 8)]), None);
    flow.resume(Reply::Inserted(1));
    flow.resume(Reply::Failed(StorageFault::SequenceExhausted));
    assert_eq!(
        flow.command(),
        Command::Abort { error: EngineError::Storage(StorageFault::SequenceExhausted) }
    );
}

#[test]
fn a_reply_to_another_command_ends_the_session() {
    let mut flow = SessionFlow::begin(&payload(None, vec![(3, 80, 8)]), None);
    flow.resume(Reply::Routine(true));
    assert_eq!(
        flow.command(),
        Command::Abort { error: EngineError::Storage(StorageFault::UnexpectedReply) }
    );
    let mut later = SessionFlow::begin(&payload(None, vec![(3, 80, 8)]), None);
    later.resume(Reply::Inserted(1));
    later.resume(Reply::Inserted(1));
    later.resume(Reply::Inserted(1));
    assert_eq!(
        later.command(),
        Command::Abort { error: EngineError::Storage(StorageFault::UnexpectedReply) }
    );
}

#[test]
fn a_workout_without_sets_commits_once_the_session_stands() {
    let data = WorkoutData {
        exercises: vec![ExerciseEntry { exercise_id: 1, sets: vec![] }],
        start_time: Some(1),
        end_time: Some(2),
        routine_id: None,
    };
    let mut flow = SessionFlow::begin(&data, None);
    flow.resume(Reply::Inserted(3));
    assert_eq!(flow.command(), Command::Commit { workout_id: 3 });
    let mut store = Store::new();
    assert_eq!(finish_workout(&mut store, &data), Ok(1));
    assert_eq!(store.workouts().len(), 1);
    assert!(store.logged_sets().is_empty());
}

#[test]
fn the_store_serves_a_session_command_by_command() {
    let mut served = Store::new();
    served.add_routine(5);
    let data = payload(Some(5), vec![(3, 80, 8), (3, 85, 8), (4, 20, 12), (3, 80, 9)]);
    let mut flow = SessionFlow::begin(&data, None);
    let mut commands = 0;
    let id = loop {
        match flow.command() {
            Command::Commit { workout_id } => break workout_id,
            Command::Abort { error } => panic!("aborted: {:?}", error),
            command => {
                let reply = perform(&mut served, &command);
                flow.resume(reply);
                commands += 1;
            }
        }
    };
    let mut direct = Store::new();
    direct.add_routine(5);
    assert_eq!(finish_workout(&mut direct, &data), Ok(id));
    assert_eq!(served.workouts(), direct.workouts());
    assert_eq!(served.logged_sets(), direct.logged_sets());
    assert_eq!(served.records(), direct.records());
    assert_eq!(served.best(3, 80), direct.best(3, 80));
    assert_eq!(served.best(3, 80).unwrap().highest_reps, 9);
    assert_eq!(served.records().len(), 4);
    // the sets of one exercise are written together: 80 x 9 is the third row
    assert_eq!(served.records()[2].marks.one_rep_max, OneRepMax::new(2880, 28).unwrap());
    // routine, session, and per set: row, read, ledger row, best
    assert_eq!(commands, 2 + 4 * 4);
}

#[test]
fn the_store_answers_each_command() {
    let mut store = Store::new();
    assert_eq!(perform(&mut store, &Command::FindRoutine { routine_id: 1 }), Reply::Routine(false));
    assert_eq!(perform(&mut store, &Command::FindWorkout { workout_id: 1 }), Reply::Workout(None));
    assert_eq!(
        perform(&mut store, &Command::InsertWorkout { start: None, end: Some(1), routine: None }),
        Reply::Failed(StorageFault::MissingTimestamp)
    );
    assert_eq!(
        perform(&mut store, &Command::InsertWorkout { start: Some(0), end: Some(1), routine: None }),
        Reply::Inserted(1)
    );
    assert_eq!(
        perform(&mut store, &Command::FindWorkout { workout_id: 1 }),
        Reply::Workout(Some(WorkoutSession { id: 1, start: 0, end: 1, routine_id: None }))
    );
    let set = SetRecord { weight: 50, reps: 5 };
    assert_eq!(
        perform(&mut store, &Command::InsertSet { workout_id: 1, exercise_id: 2, set }),
        Reply::Inserted(1)
    );
    assert_eq!(
        perform(&mut store, &Command::ReadBests { exercise_id: 2, weight: 50 }),
        Reply::Bests { latest: None, best: None }
    );
    assert_eq!(
        perform(
            &mut store,
            &Command::AppendRecord { exercise_id: 2, workout_id: 1, marks: marks(50, 5) }
        ),
        Reply::Inserted(1)
    );
    let row = RepsBest { exercise_id: 2, weight: 50, highest_reps: 5, record_id: Some(1) };
    assert_eq!(perform(&mut store, &Command::RaiseBest { row }), Reply::Raised);
    assert_eq!(
        perform(&mut store, &Command::ReadBests { exercise_id: 2, weight: 50 }),
        Reply::Bests { latest: Some(marks(50, 5)), best: Some(row) }
    );
    assert_eq!(perform(&mut store, &Command::Commit { workout_id: 1 }), Reply::Raised);
    assert_eq!(store.logged_sets().len(), 1);
}
