use crate::analytics::{
    is_volume_series, is_weight_series, max_weight_series, rank_records, ranking, sampled_on,
    volume_series, DateBounds, PrHistoryEntry, SetSample, VolumePoint, WeightPoint,
};
use crate::model::find_workout;
use crate::records::{LoggedSet, PersonalRecord, WorkoutSession};
use crate::store::Store;
use vstd::prelude::*;
use vstd::relations::sorted_by;

verus! {

/// The sample a logged set gives: the set with the start of its workout.
pub open spec fn sample_of(row: LoggedSet, session: WorkoutSession) -> SetSample {
    SetSample { start: session.start, weight: row.set.weight, reps: row.set.reps }
}

/// The history entry a ledger row gives: its marks with the start of its
/// workout.
pub open spec fn entry_of(row: PersonalRecord, session: WorkoutSession) -> PrHistoryEntry {
    PrHistoryEntry {
        workout_date: session.start,
        weight: row.marks.heaviest_weight,
        one_rm: row.marks.one_rep_max,
        set_volume: row.marks.set_volume,
    }
}

/// The logged sets of an exercise, in insertion order, each joined to its
/// workout; a set whose workout is not in the table gives nothing.
pub open spec fn exercise_samples(
    sets: Seq<LoggedSet>,
    workouts: Seq<WorkoutSession>,
    exercise_id: i32,
) -> Seq<SetSample>
    decreases sets.len(),
{
    if sets.len() == 0 {
        Seq::empty()
    } else {
        let front = exercise_samples(sets.drop_last(), workouts, exercise_id);
        match find_workout(workouts, sets.last().workout_id) {
            Some(session) if sets.last().exercise_id == exercise_id => front.push(
                sample_of(sets.last(), session),
            ),
            _ => front,
        }
    }
}

/// The ledger rows of an exercise, in insertion order, each joined to its
/// workout; a row whose workout is not in the table gives nothing.
pub open spec fn exercise_history(
    records: Seq<PersonalRecord>,
    workouts: Seq<WorkoutSession>,
    exercise_id: i32,
) -> Seq<PrHistoryEntry>
    decreases records.len(),
{
    if records.len() == 0 {
        Seq::empty()
    } else {
        let front = exercise_history(records.drop_last(), workouts, exercise_id);
        match find_workout(workouts, records.last().workout_id) {
            Some(session) if records.last().exercise_id == exercise_id => front.push(
                entry_of(records.last(), session),
            ),
            _ => front,
        }
    }
}

/// An exercise without logged sets has no samples.
pub proof fn lemma_no_sets_no_samples(
    sets: Seq<LoggedSet>,
    workouts: Seq<WorkoutSession>,
    exercise_id: i32,
)
    requires
        forall|i: int| 0 <= i < sets.len() ==> (#[trigger] sets[i]).exercise_id != exercise_id,
    ensures
        exercise_samples(sets, workouts, exercise_id) == Seq::<SetSample>::empty(),
    decreases sets.len(),
{
    if sets.len() > 0 {
        assert(sets[sets.len() - 1].exercise_id != exercise_id);
        assert forall|i: int| 0 <= i < sets.drop_last().len() implies (#[trigger] sets.drop_last()[i]).exercise_id
            != exercise_id by {
            assert(sets.drop_last()[i] == sets[i]);
        }
        lemma_no_sets_no_samples(sets.drop_last(), workouts, exercise_id);
    }
}

/// An exercise without ledger rows has no history, and every entry of a
/// history comes from a ledger row.
pub proof fn lemma_history_rows(
    records: Seq<PersonalRecord>,
    workouts: Seq<WorkoutSession>,
    exercise_id: i32,
)
    ensures
        (forall|i: int| 0 <= i < records.len() ==> (#[trigger] records[i]).exercise_id != exercise_id)
            ==> exercise_history(records, workouts, exercise_id) == Seq::<PrHistoryEntry>::empty(),
        forall|k: int|
            0 <= k < exercise_history(records, workouts, exercise_id).len() ==> exists|i: int|
                0 <= i < records.len() && (#[trigger] records[i]).marks.one_rep_max == (
                #[trigger] exercise_history(records, workouts, exercise_id)[k]).one_rm,
    decreases records.len(),
{
    if records.len() > 0 {
        let front = records.drop_last();
        lemma_history_rows(front, workouts, exercise_id);
        let all = exercise_history(records, workouts, exercise_id);
        let most = exercise_history(front, workouts, exercise_id);
        if forall|i: int| 0 <= i < records.len() ==> (#[trigger] records[i]).exercise_id != exercise_id {
            assert(records[records.len() - 1].exercise_id != exercise_id);
            assert forall|i: int| 0 <= i < front.len() implies (#[trigger] front[i]).exercise_id
                != exercise_id by {
                assert(front[i] == records[i]);
            }
        }
        assert forall|k: int| 0 <= k < all.len() implies exists|i: int|
            0 <= i < records.len() && (#[trigger] records[i]).marks.one_rep_max == (
            #[trigger] all[k]).one_rm by {
            if k < most.len() {
                assert(all[k] == most[k]);
                let i = choose|i: int|
                    0 <= i < front.len() && (#[trigger] front[i]).marks.one_rep_max
                        == most[k].one_rm;
                assert(records[i].marks.one_rep_max == all[k].one_rm);
            } else {
                assert(records[records.len() - 1].marks.one_rep_max == all[k].one_rm);
            }
        }
    }
}

/// The logged sets of an exercise, each joined to the start of its workout.
pub fn samples_of(store: &Store, exercise_id: i32) -> (samples: Vec<SetSample>)
    ensures
        samples@ == exercise_samples(store@.sets, store@.workouts, exercise_id),
{
    let rows = store.logged_sets();
    let mut samples: Vec<SetSample> = Vec::new();
    let mut i: usize = 0;
    proof {
        assert(rows@.take(0) =~= Seq::<LoggedSet>::empty());
    }
    while i < rows.len()
        invariant
            i <= rows.len(),
            rows@ == store@.sets,
            samples@ == exercise_samples(rows@.take(i as int), store@.workouts, exercise_id),
        decreases rows.len() - i,
    {
        proof {
            assert(rows@.take(i + 1).drop_last() =~= rows@.take(i as int));
            assert(rows@.take(i + 1).last() == rows@[i as int]);
        }
        let row = rows[i];
        if row.exercise_id == exercise_id {
            match store.find_workout(row.workout_id) {
                Some(session) => {
                    samples.push(
                        SetSample { start: session.start, weight: row.set.weight, reps: row.set.reps },
                    );
                },
                None => {},
            }
        }
        i += 1;
    }
    proof {
        assert(rows@.take(rows.len() as int) =~= rows@);
    }
    samples
}

/// The volume of an exercise over time: for each workout start within the
/// bounds at which the exercise was logged, the summed `weight * reps` of
/// its sets, in chronological order. An exercise never logged gives an
/// empty series.
pub fn volume_over_time(store: &Store, exercise_id: i32, bounds: &DateBounds) -> (series: Vec<
    VolumePoint,
>)
    ensures
        is_volume_series(
            exercise_samples(store@.sets, store@.workouts, exercise_id),
            *bounds,
            series@,
        ),
        (forall|i: int|
            0 <= i < store@.sets.len() ==> (#[trigger] store@.sets[i]).exercise_id != exercise_id)
            ==> series@.len() == 0,
{
    let samples = samples_of(store, exercise_id);
    let series = volume_series(&samples, bounds);
    proof {
        if forall|i: int|
            0 <= i < store@.sets.len() ==> (#[trigger] store@.sets[i]).exercise_id != exercise_id {
            lemma_no_sets_no_samples(store@.sets, store@.workouts, exercise_id);
            if series@.len() > 0 {
                assert(sampled_on(samples@, series@[0].date));
            }
        }
    }
    series
}

/// The heaviest weight of an exercise over time: for each workout start
/// within the bounds at which the exercise was logged, the heaviest weight
/// among its sets, in chronological order. An exercise never logged gives
/// an empty series.
pub fn max_weight_over_time(store: &Store, exercise_id: i32, bounds: &DateBounds) -> (series: Vec<
    WeightPoint,
>)
    ensures
        is_weight_series(
            exercise_samples(store@.sets, store@.workouts, exercise_id),
            *bounds,
            series@,
        ),
        (forall|i: int|
            0 <= i < store@.sets.len() ==> (#[trigger] store@.sets[i]).exercise_id != exercise_id)
            ==> series@.len() == 0,
{
    let samples = samples_of(store, exercise_id);
    let series = max_weight_series(&samples, bounds);
    proof {
        if forall|i: int|
            0 <= i < store@.sets.len() ==> (#[trigger] store@.sets[i]).exercise_id != exercise_id {
            lemma_no_sets_no_samples(store@.sets, store@.workouts, exercise_id);
            if series@.len() > 0 {
                assert(crate::analytics::lifted_on(samples@, series@[0].date, series@[0].weight));
            }
        }
    }
    series
}

/// The personal-record history of an exercise: every ledger row of the
/// exercise with the start of its workout, the highest estimate first,
/// then the heaviest weight, then the largest volume. An exercise without
/// ledger rows gives an empty history.
pub fn pr_history(store: &Store, exercise_id: i32) -> (history: Vec<PrHistoryEntry>)
    requires
        store.wf(),
    ensures
        sorted_by(history@, ranking()),
        history@.to_multiset() == exercise_history(
            store@.records,
            store@.workouts,
            exercise_id,
        ).to_multiset(),
        (forall|i: int|
            0 <= i < store@.records.len() ==> (#[trigger] store@.records[i]).exercise_id
                != exercise_id) ==> history@.len() == 0,
{
    let rows = store.records();
    let mut entries: Vec<PrHistoryEntry> = Vec::new();
    let mut i: usize = 0;
    proof {
        assert(rows@.take(0) =~= Seq::<PersonalRecord>::empty());
    }
    while i < rows.len()
        invariant
            i <= rows.len(),
            rows@ == store@.records,
            entries@ == exercise_history(rows@.take(i as int), store@.workouts, exercise_id),
        decreases rows.len() - i,
    {
        proof {
            assert(rows@.take(i + 1).drop_last() =~= rows@.take(i as int));
            assert(rows@.take(i + 1).last() == rows@[i as int]);
        }
        let row = rows[i];
        if row.exercise_id == exercise_id {
            match store.find_workout(row.workout_id) {
                Some(session) => {
                    entries.push(
                        PrHistoryEntry {
                            workout_date: session.start,
                            weight: row.marks.heaviest_weight,
                            one_rm: row.marks.one_rep_max,
                            set_volume: row.marks.set_volume,
                        },
                    );
                },
                None => {},
            }
        }
        i += 1;
    }
    proof {
        assert(rows@.take(rows.len() as int) =~= rows@);
        store.lemma_wf();
        lemma_history_rows(store@.records, store@.workouts, exercise_id);
        assert forall|k: int| 0 <= k < entries@.len() implies (#[trigger] entries@[k]).one_rm.wf() by {
            let i = choose|i: int|
                0 <= i < store@.records.len() && (#[trigger] store@.records[i]).marks.one_rep_max
                    == entries@[k].one_rm;
            assert(store@.records[i].marks.wf());
        }
    }
    rank_records(&entries)
}

} // verus!
