use crate::errors::ValidationError;
use crate::metrics::{reps_in_range, volume_of, OneRepMax, MAX_REPS, MIN_REPS};
use vstd::prelude::*;

verus! {

/// One performed set: a weight moved for a number of repetitions.
#[derive(Clone, Copy, Debug, PartialEq, Eq, Structural)]
pub struct SetRecord {
    pub weight: i16,
    pub reps: i16,
}

impl SetRecord {
    /// What is wrong with the set, if anything: the repetitions are judged
    /// first, then the weight.
    pub open spec fn fault(self) -> Option<ValidationError> {
        if !reps_in_range(self.reps as int) {
            Some(ValidationError::RepsOutOfRange)
        } else if self.weight < 0 {
            Some(ValidationError::NegativeWeight)
        } else {
            None
        }
    }

    /// The set can be recorded.
    pub open spec fn valid(self) -> bool {
        self.fault().is_none()
    }

    /// The three marks this set on its own stands for.
    pub open spec fn marks(self) -> RecordMarks {
        RecordMarks {
            heaviest_weight: self.weight,
            one_rep_max: OneRepMax::estimate(self.weight, self.reps),
            set_volume: volume_of(self.weight, self.reps) as i32,
        }
    }

    /// The one valid set of a positive weight that has this weight and this
    /// volume, if there is one: a ledger row that holds the marks of one set
    /// gives that set back.
    pub fn with_volume(weight: i16, volume: i32) -> (found: Option<SetRecord>)
        ensures
            match found {
                Some(set) => set.weight == weight && weight > 0 && set.valid() && volume_of(
                    weight,
                    set.reps,
                ) == volume,
                None => weight <= 0 || forall|reps: i16|
                    reps_in_range(reps as int) ==> #[trigger] volume_of(weight, reps) != volume,
            },
    {
        if weight <= 0 || volume <= 0 {
            proof {
                if weight > 0 {
                    assert forall|reps: i16| reps_in_range(reps as int) implies #[trigger] volume_of(
                        weight,
                        reps,
                    ) != volume by {
                        assert(weight * reps > 0) by (nonlinear_arith)
                            requires
                                weight > 0,
                                reps > 0,
                        ;
                    }
                }
            }
            return None;
        }
        let w: i32 = weight as i32;
        let quotient: i32 = volume / w;
        let rest: i32 = volume % w;
        proof {
            assert(volume == w * quotient + rest) by {
                vstd::arithmetic::div_mod::lemma_fundamental_div_mod(volume as int, w as int);
            }
            assert forall|reps: i16| #[trigger] volume_of(weight, reps) == volume implies reps
                == quotient && rest == 0 by {
                vstd::arithmetic::div_mod::lemma_fundamental_div_mod_converse(
                    volume as int,
                    w as int,
                    reps as int,
                    0,
                );
            }
        }
        if rest == 0 && quotient >= MIN_REPS as i32 && quotient <= MAX_REPS as i32 {
            Some(SetRecord { weight, reps: quotient as i16 })
        } else {
            None
        }
    }

    /// Judges the set before anything is written.
    pub fn check(&self) -> (r: Result<(), ValidationError>)
        ensures
            match r {
                Ok(_) => self.valid(),
                Err(e) => self.fault() == Some(e),
            },
    {
        if self.reps < MIN_REPS || self.reps > MAX_REPS {
            Err(ValidationError::RepsOutOfRange)
        } else if self.weight < 0 {
            Err(ValidationError::NegativeWeight)
        } else {
            Ok(())
        }
    }

    /// The marks of the set, refused where the set is not valid.
    pub fn checked_marks(&self) -> (r: Result<RecordMarks, ValidationError>)
        ensures
            match r {
                Ok(m) => self.valid() && m == self.marks() && m.wf(),
                Err(e) => self.fault() == Some(e),
            },
    {
        match self.check() {
            Err(e) => Err(e),
            Ok(_) => Ok(self.compute_marks()),
        }
    }

    /// The marks of a set whose repetitions are in range.
    pub fn compute_marks(&self) -> (m: RecordMarks)
        requires
            reps_in_range(self.reps as int),
        ensures
            m == self.marks(),
            m.wf(),
    {
        RecordMarks {
            heaviest_weight: self.weight,
            one_rep_max: OneRepMax::of_set(self.weight, self.reps),
            set_volume: crate::metrics::set_volume(self.weight, self.reps),
        }
    }
}

/// The three tracked bests as one ledger row holds them.
#[derive(Clone, Copy, Debug, PartialEq, Eq, Structural)]
pub struct RecordMarks {
    pub heaviest_weight: i16,
    pub one_rep_max: OneRepMax,
    pub set_volume: i32,
}

impl RecordMarks {
    pub open spec fn wf(self) -> bool {
        self.one_rep_max.wf()
    }
}

/// One row of the append-only personal-record ledger.
#[derive(Clone, Copy, Debug, PartialEq, Eq, Structural)]
pub struct PersonalRecord {
    pub id: i32,
    pub exercise_id: i32,
    pub workout_id: i32,
    pub marks: RecordMarks,
}

/// The most repetitions ever logged for one exercise at one weight.
#[derive(Clone, Copy, Debug, PartialEq, Eq)]
pub struct RepsBest {
    pub exercise_id: i32,
    pub weight: i16,
    pub highest_reps: i16,
    /// The ledger row written by the update that last raised this best, or
    /// the one it carried before when that update wrote none.
    pub record_id: Option<i32>,
}

/// One finished workout.
#[derive(Clone, Copy, Debug, PartialEq, Eq)]
pub struct WorkoutSession {
    pub id: i32,
    pub start: i64,
    pub end: i64,
    pub routine_id: Option<i32>,
}

/// One stored set together with the workout and exercise that own it.
#[derive(Clone, Copy, Debug, PartialEq, Eq, Structural)]
pub struct LoggedSet {
    pub id: i32,
    pub workout_id: i32,
    pub exercise_id: i32,
    pub set: SetRecord,
}

} // verus!
