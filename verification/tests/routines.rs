use workout_tracker::records::SetRecord;
use workout_tracker::routine::{Exercise, ExerciseType, Routine};
use workout_tracker::routines::{check_routine, template_sets, RoutineExercise, RoutineFault};
use workout_tracker::session::NumberedSet;

#[test]
fn a_routine_needs_a_name_and_an_exercise() {
    let one = vec![RoutineExercise { exercise_id: 1, sets: 3 }];
    assert_eq!(check_routine("Push day", &one), Ok(()));
    assert_eq!(check_routine("", &one), Err(RoutineFault::EmptyName));
    assert_eq!(check_routine("Push day", &Vec::new()), Err(RoutineFault::NoExercises));
    assert_eq!(check_routine("", &Vec::new()), Err(RoutineFault::EmptyName));
    assert_eq!(check_routine(" ", &one), Ok(()));
}

#[test]
fn routine_faults_have_their_messages() {
    assert_eq!(RoutineFault::EmptyName.message(), "Routine name cannot be empty");
    assert_eq!(RoutineFault::NoExercises.message(), "Routine must include at least one exercise");
}

#[test]
fn a_template_has_one_blank_set_per_prescribed_set() {
    let blank = SetRecord { weight: 0, reps: 0 };
    assert_eq!(
        template_sets(3),
        vec![
            NumberedSet { number: 1, set: blank },
            NumberedSet { number: 2, set: blank },
            NumberedSet { number: 3, set: blank },
        ]
    );
    assert_eq!(template_sets(1), vec![NumberedSet { number: 1, set: blank }]);
    assert_eq!(template_sets(0), Vec::new());
    assert_eq!(template_sets(-4), Vec::new());
    let most = template_sets(i16::MAX);
    assert_eq!(most.len(), i16::MAX as usize);
    assert_eq!(most[most.len() - 1].number, i16::MAX);
}

#[test]
fn routines_hold_what_they_were_made_of() {
    let squat = Exercise::new("Barbell Squat".to_string(), ExerciseType::Double);
    let curl = Exercise::new("Bicep Curls (Dumbbell)".to_string(), ExerciseType::Single);
    assert_eq!(squat.name(), "Barbell Squat");
    assert_eq!(squat.exercise_type(), ExerciseType::Double);
    assert_eq!(curl.exercise_type(), ExerciseType::Single);
    let routine = Routine::new("Legs and arms".to_string(), vec![squat.clone(), curl.clone()]);
    assert_eq!(routine.name(), "Legs and arms");
    assert_eq!(routine.exercise_list(), &vec![squat, curl]);
}
