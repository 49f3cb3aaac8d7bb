use workout_tracker::errors::ValidationError;
use workout_tracker::metrics::{one_rep_max, set_volume, OneRepMax, MAX_REPS, MIN_REPS};

fn value(estimate: &OneRepMax) -> f64 {
    estimate.numerator() as f64 / estimate.denominator() as f64
}

#[test]
fn one_rep_max_is_the_exact_fraction() {
    let estimate = one_rep_max(80, 8).unwrap();
    assert_eq!(estimate.numerator(), 2880);
    assert_eq!(estimate.denominator(), 29);
    assert_eq!(estimate, OneRepMax::new(2880, 29).unwrap());
    assert!((value(&estimate) - 99.3103).abs() < 0.001);
}

#[test]
fn one_rep_max_of_a_single_repetition_is_the_weight() {
    let estimate = one_rep_max(100, 1).unwrap();
    assert_eq!(estimate.numerator(), 3600);
    assert_eq!(estimate.denominator(), 36);
    assert!(estimate.equals_value(&OneRepMax::new(100, 1).unwrap()));
}

#[test]
fn one_rep_max_at_the_upper_end_of_the_range() {
    let estimate = one_rep_max(50, 36).unwrap();
    assert_eq!(estimate.numerator(), 1800);
    assert_eq!(estimate.denominator(), 1);
    assert_eq!(MIN_REPS, 1);
    assert_eq!(MAX_REPS, 36);
}

#[test]
fn one_rep_max_refuses_repetitions_out_of_range() {
    assert_eq!(one_rep_max(80, 37), Err(ValidationError::RepsOutOfRange));
    assert_eq!(one_rep_max(80, 38), Err(ValidationError::RepsOutOfRange));
    assert_eq!(one_rep_max(80, 0), Err(ValidationError::RepsOutOfRange));
    assert_eq!(one_rep_max(80, -3), Err(ValidationError::RepsOutOfRange));
    assert_eq!(one_rep_max(80, i16::MAX), Err(ValidationError::RepsOutOfRange));
}

#[test]
fn one_rep_max_rises_with_weight_and_with_repetitions() {
    for reps in 1..=36i16 {
        for weight in 1..200i16 {
            let here = one_rep_max(weight, reps).unwrap();
            let heavier = one_rep_max(weight + 1, reps).unwrap();
            assert!(heavier.exceeds(&here));
            assert!(!here.exceeds(&heavier));
            if reps < 36 {
                let longer = one_rep_max(weight, reps + 1).unwrap();
                assert!(longer.exceeds(&here));
            }
        }
    }
}

#[test]
fn one_rep_max_of_no_weight_does_not_rise_with_repetitions() {
    let few = one_rep_max(0, 3).unwrap();
    let many = one_rep_max(0, 30).unwrap();
    assert!(!many.exceeds(&few));
    assert!(many.equals_value(&few));
}

#[test]
fn fractions_compare_by_value() {
    let half = OneRepMax::new(1, 2).unwrap();
    let two_quarters = OneRepMax::new(2, 4).unwrap();
    let third = OneRepMax::new(1, 3).unwrap();
    assert!(half.equals_value(&two_quarters));
    assert_ne!(half, two_quarters);
    assert!(half.exceeds(&third));
    assert!(!third.exceeds(&half));
    assert!(!half.exceeds(&two_quarters));
    let large = OneRepMax::new(i64::MAX, 1).unwrap();
    let small = OneRepMax::new(i64::MIN, i64::MAX).unwrap();
    assert!(large.exceeds(&small));
    assert!(!small.exceeds(&large));
}

#[test]
fn fraction_needs_a_positive_denominator() {
    assert!(OneRepMax::new(5, 0).is_none());
    assert!(OneRepMax::new(5, -2).is_none());
    assert!(OneRepMax::new(-5, 2).is_some());
}

#[test]
fn set_volume_is_weight_times_repetitions() {
    assert_eq!(set_volume(80, 8), 640);
    assert_eq!(set_volume(0, 12), 0);
    assert_eq!(set_volume(i16::MAX, i16::MAX), 1_073_676_289);
    assert_eq!(set_volume(i16::MIN, i16::MIN), 1_073_741_824);
    assert_eq!(set_volume(-5, 3), -15);
}
