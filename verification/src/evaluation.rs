use crate::errors::ValidationError;
use crate::records::{RecordMarks, RepsBest, SetRecord};
use vstd::prelude::*;

verus! {

/// The bests one set improved, each with its new value. A field is `None`
/// where the set improved nothing.
#[derive(Clone, Copy, Debug, PartialEq, Eq)]
pub struct Evaluation {
    pub heaviest_weight: Option<i16>,
    pub one_rep_max: Option<crate::metrics::OneRepMax>,
    pub set_volume: Option<i32>,
    pub highest_reps: Option<i16>,
}

/// One improved best with its new value.
#[derive(Clone, Copy, Debug, PartialEq, Eq, Structural)]
pub enum PrValue {
    Weight(i16),
    OneRM(crate::metrics::OneRepMax),
    Volume(i32),
    Reps(i16),
}

impl PrValue {
    /// The name under which a client is told of the improved best.
    pub open spec fn label(self) -> Seq<char> {
        match self {
            PrValue::Weight(_) => "HeaviestWeight"@,
            PrValue::OneRM(_) => "OneRM"@,
            PrValue::Volume(_) => "SetVolume"@,
            PrValue::Reps(_) => "HighestReps"@,
        }
    }

    /// The name under which a client is told of the improved best.
    pub fn name(&self) -> (text: &'static str)
        ensures
            text@ == self.label(),
    {
        match self {
            PrValue::Weight(_) => "HeaviestWeight",
            PrValue::OneRM(_) => "OneRM",
            PrValue::Volume(_) => "SetVolume",
            PrValue::Reps(_) => "HighestReps",
        }
    }
}

/// The one value under its name, if there is one.
pub open spec fn listed<A>(value: Option<A>, named: spec_fn(A) -> PrValue) -> Seq<PrValue> {
    match value {
        Some(v) => seq![named(v)],
        None => Seq::empty(),
    }
}

impl Evaluation {
    /// The improved bests as a list: weight, estimate, volume and
    /// repetitions, in this order, each only where it improved.
    pub open spec fn improved(self) -> Seq<PrValue> {
        listed(self.heaviest_weight, |w: i16| PrValue::Weight(w)) + listed(
            self.one_rep_max,
            |m: crate::metrics::OneRepMax| PrValue::OneRM(m),
        ) + listed(self.set_volume, |v: i32| PrValue::Volume(v)) + listed(
            self.highest_reps,
            |r: i16| PrValue::Reps(r),
        )
    }

    /// The improved bests as a list, each with its new value.
    pub fn list(&self) -> (values: Vec<PrValue>)
        ensures
            values@ == self.improved(),
    {
        let mut values: Vec<PrValue> = Vec::new();
        if let Some(weight) = self.heaviest_weight {
            values.push(PrValue::Weight(weight));
        }
        if let Some(estimate) = self.one_rep_max {
            values.push(PrValue::OneRM(estimate));
        }
        if let Some(volume) = self.set_volume {
            values.push(PrValue::Volume(volume));
        }
        if let Some(reps) = self.highest_reps {
            values.push(PrValue::Reps(reps));
        }
        assert(values@ =~= self.improved());
        values
    }

    /// One of the three ledger marks improved, so a ledger row is owed.
    pub open spec fn adds_record(self) -> bool {
        self.heaviest_weight.is_some() || self.one_rep_max.is_some() || self.set_volume.is_some()
    }

    /// The best repetitions at this weight improved.
    pub open spec fn raises_reps(self) -> bool {
        self.highest_reps.is_some()
    }

    /// Nothing improved.
    pub open spec fn is_empty(self) -> bool {
        !self.adds_record() && !self.raises_reps()
    }

    /// Whether a ledger row is owed.
    pub fn owes_record(&self) -> (b: bool)
        ensures
            b == self.adds_record(),
    {
        self.heaviest_weight.is_some() || self.one_rep_max.is_some() || self.set_volume.is_some()
    }

    /// Whether the best repetitions at this weight must be raised.
    pub fn owes_reps(&self) -> (b: bool)
        ensures
            b == self.raises_reps(),
    {
        self.highest_reps.is_some()
    }

    /// Whether nothing improved.
    pub fn nothing_improved(&self) -> (b: bool)
        ensures
            b == self.is_empty(),
    {
        !self.owes_record() && !self.owes_reps()
    }
}

/// What a valid set improves over the latest ledger row of its exercise and
/// the best repetitions stored for its weight. Every comparison is strict;
/// a missing row or a missing best counts as improved.
pub open spec fn improvements(
    set: SetRecord,
    latest: Option<RecordMarks>,
    best_reps: Option<i16>,
) -> Evaluation {
    let mine = set.marks();
    Evaluation {
        heaviest_weight: match latest {
            Some(prior) if mine.heaviest_weight <= prior.heaviest_weight => None,
            _ => Some(mine.heaviest_weight),
        },
        one_rep_max: match latest {
            Some(prior) if !mine.one_rep_max.is_above(prior.one_rep_max) => None,
            _ => Some(mine.one_rep_max),
        },
        set_volume: match latest {
            Some(prior) if mine.set_volume <= prior.set_volume => None,
            _ => Some(mine.set_volume),
        },
        highest_reps: match best_reps {
            Some(prior) if set.reps <= prior => None,
            _ => Some(set.reps),
        },
    }
}

/// The outcome of evaluating one set: refused when the set is not valid,
/// else its improvements.
pub open spec fn evaluation(
    set: SetRecord,
    latest: Option<RecordMarks>,
    best_reps: Option<i16>,
) -> Result<Evaluation, ValidationError> {
    match set.fault() {
        Some(e) => Err(e),
        None => Ok(improvements(set, latest, best_reps)),
    }
}

/// Evaluates one set against the latest ledger row of its exercise and the
/// best repetitions stored for its weight. Nothing is written.
pub fn evaluate(set: &SetRecord, latest: Option<RecordMarks>, best_reps: Option<i16>) -> (r: Result<
    Evaluation,
    ValidationError,
>)
    ensures
        r == evaluation(*set, latest, best_reps),
{
    match set.check() {
        Err(e) => Err(e),
        Ok(_) => {
            let mine = set.compute_marks();
            let (heaviest_weight, one_rep_max, set_volume) = match latest {
                None => (Some(mine.heaviest_weight), Some(mine.one_rep_max), Some(mine.set_volume)),
                Some(prior) => (
                    if mine.heaviest_weight > prior.heaviest_weight {
                        Some(mine.heaviest_weight)
                    } else {
                        None
                    },
                    if mine.one_rep_max.exceeds(&prior.one_rep_max) {
                        Some(mine.one_rep_max)
                    } else {
                        None
                    },
                    if mine.set_volume > prior.set_volume {
                        Some(mine.set_volume)
                    } else {
                        None
                    },
                ),
            };
            let highest_reps = match best_reps {
                None => Some(set.reps),
                Some(prior) => if set.reps > prior {
                    Some(set.reps)
                } else {
                    None
                },
            };
            Ok(Evaluation { heaviest_weight, one_rep_max, set_volume, highest_reps })
        },
    }
}

/// The best to offer the store once a set is evaluated, if its repetitions
/// improved: it refers to the ledger row the same update created, or else
/// to the row the stored best referred to before, if there was one.
pub open spec fn raised_best(
    found: Evaluation,
    exercise_id: i32,
    set: SetRecord,
    created: Option<i32>,
    prior: Option<RepsBest>,
) -> Option<RepsBest> {
    if found.raises_reps() {
        Some(
            RepsBest {
                exercise_id,
                weight: set.weight,
                highest_reps: set.reps,
                record_id: match created {
                    Some(id) => Some(id),
                    None => match prior {
                        Some(row) => row.record_id,
                        None => None,
                    },
                },
            },
        )
    } else {
        None
    }
}

/// The best to offer the store once a set is evaluated and its ledger row,
/// if one was owed, is written.
pub fn best_to_store(
    found: &Evaluation,
    exercise_id: i32,
    set: &SetRecord,
    created: Option<i32>,
    prior: Option<RepsBest>,
) -> (row: Option<RepsBest>)
    ensures
        row == raised_best(*found, exercise_id, *set, created, prior),
{
    if found.owes_reps() {
        let record_id = match created {
            Some(id) => Some(id),
            None => match prior {
                Some(row) => row.record_id,
                None => None,
            },
        };
        Some(RepsBest { exercise_id, weight: set.weight, highest_reps: set.reps, record_id })
    } else {
        None
    }
}

/// A set measured against its own marks and its own repetitions improves
/// nothing: the comparisons are strict.
pub proof fn lemma_same_set_improves_nothing(set: SetRecord)
    requires
        set.valid(),
    ensures
        improvements(set, Some(set.marks()), Some(set.reps)).is_empty(),
{
}

} // verus!
