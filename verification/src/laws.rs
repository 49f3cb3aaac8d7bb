use crate::errors::EngineError;
use crate::evaluation::improvements;
use crate::metrics::OneRepMax;
use crate::analytics::{
    is_weight_series, lemma_weight_series_unique, DateBounds, SetSample, WeightPoint,
};
use crate::evaluation::Evaluation;
use crate::model::{
    count_records, find_workout, lemma_find_after_push, lemma_find_workout,
    lemma_latest_after_push, lemma_latest_record, lemma_log_set_wf, lemma_record_set_wf, log_set,
    raise_best, record_set, StoreState,
};
use crate::queries::{exercise_samples, lemma_no_sets_no_samples, sample_of};
use crate::records::{LoggedSet, PersonalRecord, RepsBest, SetRecord, WorkoutSession};
use crate::session::{finish, log_plan, modify, plan_of, Submission, WorkoutData};
use vstd::prelude::*;

verus! {

/// `rows` starts with `front`.
pub open spec fn starts_with<A>(rows: Seq<A>, front: Seq<A>) -> bool {
    &&& front.len() <= rows.len()
    &&& forall|i: int| 0 <= i < front.len() ==> #[trigger] rows[i] == front[i]
}

/// Every best stored before is stored still and holds no fewer
/// repetitions.
pub open spec fn bests_never_fall(
    before: Map<(i32, i16), RepsBest>,
    after: Map<(i32, i16), RepsBest>,
) -> bool {
    forall|k: (i32, i16)| #[trigger]
        before.contains_key(k) ==> after.contains_key(k) && after[k].highest_reps
            >= before[k].highest_reps
}

/// `after` keeps all that `before` held: the tables only grew at their
/// ends, no best fell, no sequence went back, and the routines are the
/// same.
pub open spec fn keeps_history(before: StoreState, after: StoreState) -> bool {
    &&& after.routines == before.routines
    &&& starts_with(after.workouts, before.workouts)
    &&& starts_with(after.sets, before.sets)
    &&& starts_with(after.records, before.records)
    &&& bests_never_fall(before.bests, after.bests)
    &&& before.next_workout_id <= after.next_workout_id
    &&& before.next_set_id <= after.next_set_id
    &&& before.next_record_id <= after.next_record_id
}

/// Keeping history carries over a middle state.
pub proof fn lemma_keeps_history_transitive(first: StoreState, middle: StoreState, last: StoreState)
    requires
        keeps_history(first, middle),
        keeps_history(middle, last),
    ensures
        keeps_history(first, last),
{
    assert forall|i: int| 0 <= i < first.workouts.len() implies #[trigger] last.workouts[i]
        == first.workouts[i] by {
        assert(middle.workouts[i] == first.workouts[i]);
    }
    assert forall|i: int| 0 <= i < first.sets.len() implies #[trigger] last.sets[i]
        == first.sets[i] by {
        assert(middle.sets[i] == first.sets[i]);
    }
    assert forall|i: int| 0 <= i < first.records.len() implies #[trigger] last.records[i]
        == first.records[i] by {
        assert(middle.records[i] == first.records[i]);
    }
    assert forall|k: (i32, i16)| #[trigger] first.bests.contains_key(k) implies last.bests.contains_key(
        k,
    ) && last.bests[k].highest_reps >= first.bests[k].highest_reps by {
        assert(middle.bests.contains_key(k));
    }
}

/// An offered best never lowers a stored one, and afterwards the best under
/// its key holds at least the offered repetitions.
pub proof fn lemma_raise_best(bests: Map<(i32, i16), RepsBest>, row: RepsBest)
    ensures
        bests_never_fall(bests, raise_best(bests, row)),
        raise_best(bests, row).contains_key((row.exercise_id, row.weight)),
        raise_best(bests, row)[(row.exercise_id, row.weight)].highest_reps >= row.highest_reps,
{
}

/// Writing one set's improvements keeps history and well-formedness, and
/// leaves a best for the set's weight that holds at least its repetitions.
pub proof fn lemma_record_set_keeps_history(
    s: StoreState,
    workout_id: i32,
    exercise_id: i32,
    set: SetRecord,
)
    requires
        s.wf(),
    ensures
        record_set(s, workout_id, exercise_id, set) matches Ok(after) ==> {
            &&& after.wf()
            &&& keeps_history(s, after)
            &&& after.best_reps(exercise_id, set.weight) matches Some(reps) && reps >= set.reps
        },
{
    lemma_record_set_wf(s, workout_id, exercise_id, set);
    if let Ok(after) = record_set(s, workout_id, exercise_id, set) {
        let row = RepsBest {
            exercise_id,
            weight: set.weight,
            highest_reps: set.reps,
            record_id: after.bests[(exercise_id, set.weight)].record_id,
        };
        lemma_raise_best(s.bests, row);
    }
}

/// Storing and evaluating one set keeps history and well-formedness.
pub proof fn lemma_log_set_keeps_history(
    s: StoreState,
    workout_id: i32,
    exercise_id: i32,
    set: SetRecord,
)
    requires
        s.wf(),
    ensures
        log_set(s, workout_id, exercise_id, set) matches Ok(after) ==> after.wf() && keeps_history(
            s,
            after,
        ),
{
    if s.next_set_id < i32::MAX {
        let stored = s.with_set(workout_id, exercise_id, set);
        lemma_log_set_wf(s, workout_id, exercise_id, set);
        lemma_record_set_keeps_history(stored, workout_id, exercise_id, set);
        if let Ok(after) = log_set(s, workout_id, exercise_id, set) {
            assert(keeps_history(s, stored));
            lemma_keeps_history_transitive(s, stored, after);
        }
    }
}

/// Logging a whole plan keeps history and well-formedness.
pub proof fn lemma_log_plan_keeps_history(s: StoreState, workout_id: i32, plan: Seq<Submission>)
    requires
        s.wf(),
    ensures
        log_plan(s, workout_id, plan) matches Ok(after) ==> after.wf() && keeps_history(s, after),
    decreases plan.len(),
{
    if plan.len() > 0 {
        lemma_log_plan_keeps_history(s, workout_id, plan.drop_last());
        if let Ok(mid) = log_plan(s, workout_id, plan.drop_last()) {
            lemma_log_set_keeps_history(mid, workout_id, plan.last().exercise_id, plan.last().set);
            if let Ok(after) = log_plan(s, workout_id, plan) {
                lemma_keeps_history_transitive(s, mid, after);
            }
        }
    }
}

/// Finishing a workout keeps history and well-formedness, and the
/// identifier it hands out names no earlier session.
pub proof fn lemma_finish_keeps_history(s: StoreState, data: WorkoutData)
    requires
        s.wf(),
    ensures
        finish(s, data) matches Ok(done) ==> {
            &&& done.0.wf()
            &&& keeps_history(s, done.0)
            &&& done.1 == s.next_workout_id
            &&& done.0.next_workout_id > done.1
            &&& forall|i: int| 0 <= i < s.workouts.len() ==> (#[trigger] s.workouts[i]).id != done.1
        },
{
    if let Ok(done) = finish(s, data) {
        let plan = plan_of(data).unwrap();
        let opened = s.with_workout(
            data.start_time.unwrap(),
            data.end_time.unwrap(),
            data.routine_id,
        );
        assert(opened.wf());
        assert(keeps_history(s, opened));
        lemma_log_plan_keeps_history(opened, s.next_workout_id, plan);
        lemma_keeps_history_transitive(s, opened, done.0);
    }
}

/// Modifying a workout keeps history and well-formedness.
pub proof fn lemma_modify_keeps_history(s: StoreState, workout_id: i32, data: WorkoutData)
    requires
        s.wf(),
    ensures
        modify(s, workout_id, data) matches Ok(after) ==> after.wf() && keeps_history(s, after),
{
    if let Ok(after) = modify(s, workout_id, data) {
        lemma_log_plan_keeps_history(s, workout_id, plan_of(data).unwrap());
    }
}

/// One request to the engine that may write.
pub enum Request {
    Finish(WorkoutData),
    Modify(i32, WorkoutData),
    Record(i32, i32, SetRecord),
}

/// The store after one request: what the request wrote where it
/// succeeded, and the store as it was where it failed.
pub open spec fn after_request(s: StoreState, request: Request) -> StoreState {
    match request {
        Request::Finish(data) => match finish(s, data) {
            Ok(done) => done.0,
            Err(_) => s,
        },
        Request::Modify(workout_id, data) => match modify(s, workout_id, data) {
            Ok(after) => after,
            Err(_) => s,
        },
        Request::Record(workout_id, exercise_id, set) => match record_set(
            s,
            workout_id,
            exercise_id,
            set,
        ) {
            Ok(after) => after,
            Err(_) => s,
        },
    }
}

/// The store after the requests, one after another.
pub open spec fn after_requests(s: StoreState, requests: Seq<Request>) -> StoreState
    decreases requests.len(),
{
    if requests.len() == 0 {
        s
    } else {
        after_request(after_requests(s, requests.drop_last()), requests.last())
    }
}

/// Whatever requests are made, in whatever order and whether they succeed
/// or fail, the store stays well formed, the ledger and the other tables
/// only grow at their ends, and no stored best ever decreases.
pub proof fn lemma_requests_keep_history(s: StoreState, requests: Seq<Request>)
    requires
        s.wf(),
    ensures
        after_requests(s, requests).wf(),
        keeps_history(s, after_requests(s, requests)),
    decreases requests.len(),
{
    if requests.len() > 0 {
        lemma_requests_keep_history(s, requests.drop_last());
        let mid = after_requests(s, requests.drop_last());
        match requests.last() {
            Request::Finish(data) => {
                lemma_finish_keeps_history(mid, data);
            },
            Request::Modify(workout_id, data) => {
                lemma_modify_keeps_history(mid, workout_id, data);
            },
            Request::Record(workout_id, exercise_id, set) => {
                lemma_record_set_keeps_history(mid, workout_id, exercise_id, set);
            },
        }
        lemma_keeps_history_transitive(s, mid, after_requests(s, requests));
    }
}

/// For one exercise and one weight, the most repetitions stored never
/// decrease across any sequence of requests.
pub proof fn lemma_highest_reps_never_decrease(
    s: StoreState,
    requests: Seq<Request>,
    exercise_id: i32,
    weight: i16,
)
    requires
        s.wf(),
    ensures
        s.best_reps(exercise_id, weight) matches Some(before) ==> after_requests(
            s,
            requests,
        ).best_reps(exercise_id, weight) matches Some(after) && after >= before,
{
    lemma_requests_keep_history(s, requests);
    if s.bests.contains_key((exercise_id, weight)) {
        assert(after_requests(s, requests).bests.contains_key((exercise_id, weight)));
    }
}

/// Once a set's improvements are written, the same set improves nothing:
/// every comparison is strict.
pub proof fn lemma_resubmission_improves_nothing(
    s: StoreState,
    workout_id: i32,
    exercise_id: i32,
    set: SetRecord,
)
    requires
        s.wf(),
    ensures
        record_set(s, workout_id, exercise_id, set) matches Ok(after) ==> improvements(
            set,
            after.latest_marks(exercise_id),
            after.best_reps(exercise_id, set.weight),
        ).is_empty(),
{
    if let Ok(after) = record_set(s, workout_id, exercise_id, set) {
        let found = improvements(
            set,
            s.latest_marks(exercise_id),
            s.best_reps(exercise_id, set.weight),
        );
        if found.adds_record() {
            let row = PersonalRecord {
                id: s.next_record_id,
                exercise_id,
                workout_id,
                marks: set.marks(),
            };
            lemma_latest_after_push(s.records, row, exercise_id);
        }
    }
}

/// The workout holds exactly one set, a valid one, of the exercise.
pub open spec fn is_single_set(data: WorkoutData, exercise_id: i32, set: SetRecord) -> bool {
    &&& data.exercises@.len() == 1
    &&& data.exercises@[0].exercise_id == exercise_id
    &&& data.exercises@[0].sets@.len() == 1
    &&& data.exercises@[0].sets@[0].set == set
    &&& set.valid()
}

/// A workout of one set is planned as that one submission.
pub proof fn lemma_single_set_plan(data: WorkoutData, exercise_id: i32, set: SetRecord)
    requires
        is_single_set(data, exercise_id, set),
    ensures
        plan_of(data) == Ok::<Seq<Submission>, crate::errors::ValidationError>(
            seq![Submission { exercise_id, set }],
        ),
{
    let entry = data.exercises@[0];
    let sets = entry.sets@;
    assert(data.exercises@.drop_last() =~= Seq::<crate::session::ExerciseEntry>::empty());
    assert(data.exercises@.last() == entry);
    assert(sets.drop_last() =~= Seq::<crate::session::NumberedSet>::empty());
    assert(sets.last() == sets[0]);
    assert(crate::session::first_fault(sets.drop_last()) is None);
    assert(crate::session::first_fault(sets) is None);
    assert(!crate::session::has_duplicate_numbers(sets));
    assert(crate::session::in_number_order(sets) == sets) by {
        crate::session::lemma_number_order_total();
        sets.lemma_sort_by_ensures(crate::session::number_order());
        vstd::seq_lib::lemma_sorted_unique(
            sets,
            crate::session::in_number_order(sets),
            crate::session::number_order(),
        );
    }
    assert(crate::session::submissions_of(exercise_id, sets) =~= seq![
        Submission { exercise_id, set },
    ]);
    assert(crate::session::plan_from(data.exercises@.drop_last()) == Ok::<
        Seq<Submission>,
        crate::errors::ValidationError,
    >(Seq::empty()));
    assert(Seq::<Submission>::empty() + seq![Submission { exercise_id, set }] =~= seq![
        Submission { exercise_id, set },
    ]);
}

/// Finishing a workout of one set that improves one of the three marks
/// appends exactly one ledger row: that set's marks, for the exercise, tied
/// to the new session.
pub proof fn lemma_improving_workout_appends_one(
    s: StoreState,
    data: WorkoutData,
    exercise_id: i32,
    set: SetRecord,
)
    requires
        s.wf(),
        is_single_set(data, exercise_id, set),
        finish(s, data) is Ok,
        improvements(set, s.latest_marks(exercise_id), s.best_reps(exercise_id, set.weight)).adds_record(),
    ensures
        finish(s, data).unwrap().0.records == s.records.push(
            PersonalRecord {
                id: s.next_record_id,
                exercise_id,
                workout_id: s.next_workout_id,
                marks: set.marks(),
            },
        ),
        finish(s, data).unwrap().0.next_workout_id == s.next_workout_id + 1,
        finish(s, data).unwrap().0.wf(),
{
    lemma_single_set_plan(data, exercise_id, set);
    lemma_finish_keeps_history(s, data);
    let plan = seq![Submission { exercise_id, set }];
    let opened = s.with_workout(data.start_time.unwrap(), data.end_time.unwrap(), data.routine_id);
    assert(plan.drop_last() =~= Seq::<Submission>::empty());
    assert(plan.last() == Submission { exercise_id, set });
    assert(log_plan(opened, s.next_workout_id, plan.drop_last()) == Ok::<StoreState, EngineError>(
        opened,
    ));
    let stored = opened.with_set(s.next_workout_id, exercise_id, set);
    assert(stored.latest_marks(exercise_id) == s.latest_marks(exercise_id));
    assert(stored.best_reps(exercise_id, set.weight) == s.best_reps(exercise_id, set.weight));
}

/// The store after the workouts are finished one after another; one that
/// fails leaves the store as it was.
pub open spec fn after_workouts(s: StoreState, workouts: Seq<WorkoutData>) -> StoreState
    decreases workouts.len(),
{
    if workouts.len() == 0 {
        s
    } else {
        after_request(after_workouts(s, workouts.drop_last()), Request::Finish(workouts.last()))
    }
}

/// Each workout holds one set of the exercise, is accepted, and its set
/// strictly improves one of the three marks over the ledger row that is the
/// latest when it arrives.
pub open spec fn each_improves(
    s: StoreState,
    exercise_id: i32,
    workouts: Seq<WorkoutData>,
    sets: Seq<SetRecord>,
) -> bool
    decreases workouts.len(),
{
    &&& workouts.len() == sets.len()
    &&& workouts.len() > 0 ==> {
        let mid = after_workouts(s, workouts.drop_last());
        &&& each_improves(s, exercise_id, workouts.drop_last(), sets.drop_last())
        &&& is_single_set(workouts.last(), exercise_id, sets.last())
        &&& finish(mid, workouts.last()) is Ok
        &&& improvements(
            sets.last(),
            mid.latest_marks(exercise_id),
            mid.best_reps(exercise_id, sets.last().weight),
        ).adds_record()
    }
}

/// Where each of `n` workouts in a row brings one set of one exercise that
/// strictly improves on the latest ledger row, the ledger grows by exactly
/// `n` rows: one per set, in order, each for the exercise with the set's
/// marks, and each tied to another workout than the others.
pub proof fn lemma_ledger_growth(
    s: StoreState,
    exercise_id: i32,
    workouts: Seq<WorkoutData>,
    sets: Seq<SetRecord>,
)
    requires
        s.wf(),
        each_improves(s, exercise_id, workouts, sets),
    ensures
        ({
            let after = after_workouts(s, workouts);
            let n = workouts.len() as int;
            let base = s.records.len() as int;
            &&& after.wf()
            &&& starts_with(after.records, s.records)
            &&& after.records.len() == base + n
            &&& count_records(after.records, exercise_id) == count_records(s.records, exercise_id)
                + n
            &&& after.next_workout_id == s.next_workout_id + n
            &&& forall|i: int|
                0 <= i < n ==> {
                    &&& (#[trigger] after.records[base + i]).exercise_id == exercise_id
                    &&& after.records[base + i].marks == sets[i].marks()
                    &&& after.records[base + i].workout_id == s.next_workout_id + i
                }
            &&& forall|i: int, j: int|
                0 <= i < j < n ==> (#[trigger] after.records[base + i]).workout_id != (
                #[trigger] after.records[base + j]).workout_id
        }),
    decreases workouts.len(),
{
    if workouts.len() > 0 {
        let front = workouts.drop_last();
        let mid = after_workouts(s, front);
        lemma_ledger_growth(s, exercise_id, front, sets.drop_last());
        lemma_improving_workout_appends_one(mid, workouts.last(), exercise_id, sets.last());
        let after = after_workouts(s, workouts);
        let row = PersonalRecord {
            id: mid.next_record_id,
            exercise_id,
            workout_id: mid.next_workout_id,
            marks: sets.last().marks(),
        };
        assert(after.records == mid.records.push(row));
        lemma_latest_after_push(mid.records, row, exercise_id);
        let n = workouts.len() as int;
        let base = s.records.len() as int;
        assert forall|i: int| 0 <= i < n implies {
            &&& (#[trigger] after.records[base + i]).exercise_id == exercise_id
            &&& after.records[base + i].marks == sets[i].marks()
            &&& after.records[base + i].workout_id == s.next_workout_id + i
        } by {
            if i < n - 1 {
                assert(after.records[base + i] == mid.records[base + i]);
                assert(sets.drop_last()[i] == sets[i]);
            }
        }
        assert forall|i: int| 0 <= i < s.records.len() implies #[trigger] after.records[i]
            == s.records[i] by {
            assert(mid.records[i] == s.records[i]);
        }
    }
}

/// A session found in a table is found, unchanged, in every table that
/// grew from it and still holds each identifier once.
pub proof fn lemma_found_again(before: Seq<WorkoutSession>, after: Seq<WorkoutSession>, id: i32)
    requires
        starts_with(after, before),
        forall|i: int, j: int|
            0 <= i < j < after.len() ==> (#[trigger] after[i]).id < (#[trigger] after[j]).id,
        find_workout(before, id) is Some,
    ensures
        find_workout(after, id) == find_workout(before, id),
{
    lemma_find_workout(before, id);
    lemma_find_workout(after, id);
    let row = find_workout(before, id).unwrap();
    let i = choose|i: int| 0 <= i < before.len() && before[i] == row;
    assert(after[i] == row);
    match find_workout(after, id) {
        Some(other) => {
            let j = choose|j: int| 0 <= j < after.len() && after[j] == other;
            if i < j {
                assert(after[i].id < after[j].id);
            } else if j < i {
                assert(after[j].id < after[i].id);
            }
        },
        None => {
            assert(after[i].id != id);
        },
    }
}

/// A finished workout is found under the identifier handed out, with the
/// times and the routine of the payload.
pub proof fn lemma_finished_session_is_found(s: StoreState, data: WorkoutData)
    requires
        s.wf(),
    ensures
        finish(s, data) matches Ok(done) ==> done.0.workout(done.1) == Some(
            WorkoutSession {
                id: done.1,
                start: data.start_time.unwrap(),
                end: data.end_time.unwrap(),
                routine_id: data.routine_id,
            },
        ),
{
    if let Ok(done) = finish(s, data) {
        let opened = s.with_workout(
            data.start_time.unwrap(),
            data.end_time.unwrap(),
            data.routine_id,
        );
        let session = WorkoutSession {
            id: s.next_workout_id,
            start: data.start_time.unwrap(),
            end: data.end_time.unwrap(),
            routine_id: data.routine_id,
        };
        lemma_find_after_push(s.workouts, session, s.next_workout_id);
        assert(opened.wf());
        lemma_log_plan_keeps_history(opened, s.next_workout_id, plan_of(data).unwrap());
        lemma_found_again(opened.workouts, done.0.workouts, s.next_workout_id);
    }
}

/// Round trip: once a workout of one set is finished for an exercise never
/// logged before, the exercise has exactly one sample, that set at the
/// workout's start, and its heaviest-weight series within any bounds that
/// hold the start is the one point of that weight at that start.
pub proof fn lemma_round_trip(
    s: StoreState,
    data: WorkoutData,
    exercise_id: i32,
    set: SetRecord,
    bounds: DateBounds,
    series: Seq<WeightPoint>,
)
    requires
        s.wf(),
        is_single_set(data, exercise_id, set),
        finish(s, data) is Ok,
        forall|i: int| 0 <= i < s.sets.len() ==> (#[trigger] s.sets[i]).exercise_id != exercise_id,
        bounds.holds(data.start_time.unwrap()),
        is_weight_series(
            exercise_samples(
                finish(s, data).unwrap().0.sets,
                finish(s, data).unwrap().0.workouts,
                exercise_id,
            ),
            bounds,
            series,
        ),
    ensures
        exercise_samples(
            finish(s, data).unwrap().0.sets,
            finish(s, data).unwrap().0.workouts,
            exercise_id,
        ) == seq![
            SetSample { start: data.start_time.unwrap(), weight: set.weight, reps: set.reps },
        ],
        series == seq![WeightPoint { date: data.start_time.unwrap(), weight: set.weight }],
{
    let done = finish(s, data).unwrap();
    let after = done.0;
    let start = data.start_time.unwrap();
    lemma_single_set_plan(data, exercise_id, set);
    lemma_finished_session_is_found(s, data);
    let plan = seq![Submission { exercise_id, set }];
    let opened = s.with_workout(start, data.end_time.unwrap(), data.routine_id);
    assert(plan.drop_last() =~= Seq::<Submission>::empty());
    assert(plan.last() == Submission { exercise_id, set });
    assert(log_plan(opened, s.next_workout_id, plan.drop_last()) == Ok::<StoreState, EngineError>(
        opened,
    ));
    let row = LoggedSet { id: s.next_set_id, workout_id: s.next_workout_id, exercise_id, set };
    assert(after.sets == s.sets.push(row));
    assert(after.sets.drop_last() =~= s.sets);
    lemma_no_sets_no_samples(s.sets, after.workouts, exercise_id);
    let session = after.workout(done.1).unwrap();
    let sample = SetSample { start, weight: set.weight, reps: set.reps };
    assert(sample_of(row, session) == sample);
    let samples = exercise_samples(after.sets, after.workouts, exercise_id);
    assert(samples =~= seq![sample]);
    let point = seq![WeightPoint { date: start, weight: set.weight }];
    assert(is_weight_series(samples, bounds, point)) by {
        assert(samples[0].start == start && samples[0].weight == set.weight);
        assert(crate::analytics::lifted_on(samples, start, set.weight));
        assert(point[0].date == start);
        assert(crate::analytics::weight_charted(point, start));
    }
    lemma_weight_series_unique(samples, bounds, series, point);
}

/// The first set ever logged for an exercise improves every metric: with
/// no ledger row of the exercise and no best at the set's weight, each of
/// the four is reported with the set's own value.
pub proof fn lemma_first_set_improves_everything(s: StoreState, exercise_id: i32, set: SetRecord)
    requires
        count_records(s.records, exercise_id) == 0,
        !s.bests.contains_key((exercise_id, set.weight)),
    ensures
        improvements(set, s.latest_marks(exercise_id), s.best_reps(exercise_id, set.weight)) == (
        Evaluation {
            heaviest_weight: Some(set.weight),
            one_rep_max: Some(OneRepMax::estimate(set.weight, set.reps)),
            set_volume: Some(set.marks().set_volume),
            highest_reps: Some(set.reps),
        }),
{
    lemma_latest_record(s.records, exercise_id);
}

} // verus!
