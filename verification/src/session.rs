use crate::flow::{
    lemma_outcome_is_finish, lemma_outcome_is_modify, lemma_step, outcome, performed, Command,
    Reply, SessionFlow,
};
use crate::errors::{EngineError, Missing, ValidationError};
use crate::model;
use crate::model::StoreState;
use crate::records::{SetRecord, WorkoutSession};
use crate::sequences::{lemma_insert_to_multiset, lemma_take_to_multiset};
use crate::store::Store;
use vstd::prelude::*;
use vstd::relations::{sorted_by, total_ordering};

verus! {

/// One set as a client submits it, under its number within the exercise.
#[derive(Clone, Copy, Debug, PartialEq, Eq, Structural)]
pub struct NumberedSet {
    pub number: i16,
    pub set: SetRecord,
}

/// One exercise of a submitted workout with its sets, in any order.
#[derive(Clone, Debug, PartialEq, Eq)]
pub struct ExerciseEntry {
    pub exercise_id: i32,
    pub sets: Vec<NumberedSet>,
}

/// A workout as a client submits it.
#[derive(Clone, Debug, PartialEq, Eq)]
pub struct WorkoutData {
    pub exercises: Vec<ExerciseEntry>,
    pub start_time: Option<i64>,
    pub end_time: Option<i64>,
    pub routine_id: Option<i32>,
}

/// One set on its way into the store.
#[derive(Clone, Copy, Debug, PartialEq, Eq, Structural)]
pub struct Submission {
    pub exercise_id: i32,
    pub set: SetRecord,
}

/// `a` is logged no later than `b`: the lower set number first; sets that
/// share a number, which no accepted workout holds, by weight and then by
/// repetitions.
pub open spec fn at_or_before(a: NumberedSet, b: NumberedSet) -> bool {
    a.number < b.number || (a.number == b.number && (a.set.weight < b.set.weight || (a.set.weight
        == b.set.weight && a.set.reps <= b.set.reps)))
}

/// The order in which the sets of one exercise are logged.
pub open spec fn number_order() -> spec_fn(NumberedSet, NumberedSet) -> bool {
    |a: NumberedSet, b: NumberedSet| at_or_before(a, b)
}

/// `number_order` is a total order.
pub proof fn lemma_number_order_total()
    ensures
        total_ordering(number_order()),
{
    let leq = number_order();
    assert forall|x: NumberedSet, y: NumberedSet| #[trigger] leq(x, y) && #[trigger] leq(
        y,
        x,
    ) implies x == y by {
        assert(x.set == y.set);
    }
    assert(vstd::relations::reflexive(leq));
    assert(vstd::relations::antisymmetric(leq));
    assert(vstd::relations::transitive(leq));
    assert(vstd::relations::strongly_connected(leq));
}

/// The sets of one exercise in the order in which they are logged.
pub open spec fn in_number_order(sets: Seq<NumberedSet>) -> Seq<NumberedSet> {
    sets.sort_by(number_order())
}

/// What `in_number_order` yields: the same sets, each as often as before,
/// with the set numbers never falling.
pub proof fn lemma_in_number_order(sets: Seq<NumberedSet>)
    ensures
        in_number_order(sets).to_multiset() == sets.to_multiset(),
        in_number_order(sets).len() == sets.len(),
        forall|i: int, j: int|
            0 <= i < j < sets.len() ==> (#[trigger] in_number_order(sets)[i]).number <= (
            #[trigger] in_number_order(sets)[j]).number,
{
    broadcast use vstd::seq_lib::group_to_multiset_ensures;

    lemma_number_order_total();
    sets.lemma_sort_by_ensures(number_order());
    let sorted = in_number_order(sets);
    assert(sorted.len() == sorted.to_multiset().len());
    assert(sets.len() == sets.to_multiset().len());
    assert forall|i: int, j: int| 0 <= i < j < sets.len() implies (#[trigger] sorted[i]).number <= (
    #[trigger] sorted[j]).number by {
        assert(number_order()(sorted[i], sorted[j]));
    }
}

/// The fault of the first set, in the order given, that is not valid.
pub open spec fn first_fault(sets: Seq<NumberedSet>) -> Option<ValidationError>
    decreases sets.len(),
{
    if sets.len() == 0 {
        None
    } else {
        match first_fault(sets.drop_last()) {
            Some(e) => Some(e),
            None => sets.last().set.fault(),
        }
    }
}

/// Two of the sets carry the same number.
pub open spec fn has_duplicate_numbers(sets: Seq<NumberedSet>) -> bool {
    exists|i: int, j: int|
        0 <= i < j < sets.len() && (#[trigger] sets[i]).number == (#[trigger] sets[j]).number
}

/// What is wrong with the sets of one exercise, if anything: an invalid set
/// is reported before a repeated number.
pub open spec fn entry_fault(sets: Seq<NumberedSet>) -> Option<ValidationError> {
    match first_fault(sets) {
        Some(e) => Some(e),
        None => if has_duplicate_numbers(sets) {
            Some(ValidationError::DuplicateSetNumber)
        } else {
            None
        },
    }
}

/// The sets of one exercise as submissions, in the order in which they are
/// logged.
pub open spec fn submissions_of(exercise_id: i32, sets: Seq<NumberedSet>) -> Seq<Submission> {
    in_number_order(sets).map_values(|n: NumberedSet| Submission { exercise_id, set: n.set })
}

/// The submissions of the exercises, exercise after exercise in the order
/// given; refused with the fault of the first exercise that has one.
pub open spec fn plan_from(exercises: Seq<ExerciseEntry>) -> Result<Seq<Submission>, ValidationError>
    decreases exercises.len(),
{
    if exercises.len() == 0 {
        Ok(Seq::empty())
    } else {
        match plan_from(exercises.drop_last()) {
            Err(e) => Err(e),
            Ok(front) => match entry_fault(exercises.last().sets@) {
                Some(e) => Err(e),
                None => Ok(front + submissions_of(exercises.last().exercise_id, exercises.last().sets@)),
            },
        }
    }
}

/// The order in which a workout's sets are written, or why the workout is
/// refused before anything is written.
pub open spec fn plan_of(data: WorkoutData) -> Result<Seq<Submission>, ValidationError> {
    if data.exercises@.len() == 0 {
        Err(ValidationError::EmptyExerciseList)
    } else {
        plan_from(data.exercises@)
    }
}

/// The store after the submissions are logged one after another for one
/// workout, or the first failure.
pub open spec fn log_plan(s: StoreState, workout_id: i32, plan: Seq<Submission>) -> Result<
    StoreState,
    EngineError,
>
    decreases plan.len(),
{
    if plan.len() == 0 {
        Ok(s)
    } else {
        match log_plan(s, workout_id, plan.drop_last()) {
            Err(e) => Err(e),
            Ok(mid) => model::log_set(mid, workout_id, plan.last().exercise_id, plan.last().set),
        }
    }
}

/// The routine that has to exist before the sets are written: the one the
/// payload names, unless the session already holds that very routine.
pub open spec fn routine_to_look_up(requested: Option<i32>, session: Option<WorkoutSession>) -> Option<
    i32,
> {
    match requested {
        None => None,
        Some(routine_id) => match session {
            Some(held) if held.routine_id == Some(routine_id) => None,
            _ => Some(routine_id),
        },
    }
}

/// The routine that has to be looked up before the sets are written, given
/// the session that is modified, or none where a new one is created.
pub fn routine_to_check(requested: Option<i32>, session: Option<WorkoutSession>) -> (routine: Option<
    i32,
>)
    ensures
        routine == routine_to_look_up(requested, session),
{
    match requested {
        None => None,
        Some(routine_id) => match session {
            None => Some(routine_id),
            Some(held) => match held.routine_id {
                Some(current) => if current == routine_id {
                    None
                } else {
                    Some(routine_id)
                },
                None => Some(routine_id),
            },
        },
    }
}

/// What finishing a workout does to the store and which identifier it
/// hands out, or why it fails: the payload is judged first, then the
/// routine is looked up, then the session row and the sets are written.
pub open spec fn finish(s: StoreState, data: WorkoutData) -> Result<(StoreState, i32), EngineError> {
    match plan_of(data) {
        Err(e) => Err(EngineError::Validation(e)),
        Ok(plan) => if routine_to_look_up(data.routine_id, None) matches Some(routine_id)
            && !s.routines.contains(routine_id) {
            Err(EngineError::NotFound(Missing::Routine))
        } else {
            match s.workout_fault(data.start_time, data.end_time) {
                Some(fault) => Err(EngineError::Storage(fault)),
                None => match log_plan(
                    s.with_workout(
                        data.start_time.unwrap(),
                        data.end_time.unwrap(),
                        data.routine_id,
                    ),
                    s.next_workout_id,
                    plan,
                ) {
                    Err(e) => Err(e),
                    Ok(after) => Ok((after, s.next_workout_id)),
                },
            }
        },
    }
}

/// What modifying a workout does to the store, or why it fails: the
/// payload is judged first, then the workout is looked up, then the routine
/// if the payload names another one than the session holds, then the sets
/// are written for the session as it stands.
pub open spec fn modify(s: StoreState, workout_id: i32, data: WorkoutData) -> Result<
    StoreState,
    EngineError,
> {
    match plan_of(data) {
        Err(e) => Err(EngineError::Validation(e)),
        Ok(plan) => match s.workout(workout_id) {
            None => Err(EngineError::NotFound(Missing::Workout)),
            Some(session) => if routine_to_look_up(data.routine_id, Some(session)) matches Some(
                routine_id,
            ) && !s.routines.contains(routine_id) {
                Err(EngineError::NotFound(Missing::Routine))
            } else {
                log_plan(s, workout_id, plan)
            },
        },
    }
}

/// Whether `a` is logged no later than `b`.
fn logged_no_later(a: &NumberedSet, b: &NumberedSet) -> (r: bool)
    ensures
        r == at_or_before(*a, *b),
{
    a.number < b.number || (a.number == b.number && (a.set.weight < b.set.weight || (a.set.weight
        == b.set.weight && a.set.reps <= b.set.reps)))
}

/// The sets of one exercise in the order in which they are logged.
pub fn order_sets(sets: &Vec<NumberedSet>) -> (out: Vec<NumberedSet>)
    ensures
        out@ == in_number_order(sets@),
        out@.to_multiset() == sets@.to_multiset(),
        sorted_by(out@, number_order()),
{
    let mut out: Vec<NumberedSet> = Vec::new();
    let mut i: usize = 0;
    proof {
        lemma_number_order_total();
        assert(sets@.take(0) =~= Seq::<NumberedSet>::empty());
    }
    while i < sets.len()
        invariant
            i <= sets.len(),
            total_ordering(number_order()),
            sorted_by(out@, number_order()),
            out@.to_multiset() == sets@.take(i as int).to_multiset(),
        decreases sets.len() - i,
    {
        let x = sets[i];
        let mut at: usize = 0;
        while at < out.len() && logged_no_later(&out[at], &x)
            invariant
                at <= out.len(),
                forall|j: int| 0 <= j < at ==> at_or_before(#[trigger] out@[j], x),
            decreases out.len() - at,
        {
            at += 1;
        }
        let ghost before = out@;
        out.insert(at, x);
        proof {
            lemma_insert_to_multiset(before, at as int, x);
            lemma_take_to_multiset(sets@, i as int);
            assert forall|a: int, b: int| 0 <= a < b < out@.len() implies number_order()(
                #[trigger] out@[a],
                #[trigger] out@[b],
            ) by {
                if b < at {
                    assert(number_order()(before[a], before[b]));
                } else if b == at {
                    assert(at_or_before(before[a], x));
                } else if a == at {
                    assert(!at_or_before(before[at as int], x));
                    assert(number_order()(x, before[at as int]));
                    if b - 1 > at {
                        assert(number_order()(before[at as int], before[b - 1]));
                    }
                } else if a < at {
                    assert(number_order()(before[a], before[b - 1]));
                } else {
                    assert(number_order()(before[a - 1], before[b - 1]));
                }
            }
        }
        i += 1;
    }
    proof {
        assert(sets@.take(sets.len() as int) =~= sets@);
        sets@.lemma_sort_by_ensures(number_order());
        vstd::seq_lib::lemma_sorted_unique(out@, in_number_order(sets@), number_order());
    }
    out
}

/// The fault of the first set that is not valid.
fn find_fault(sets: &Vec<NumberedSet>) -> (fault: Option<ValidationError>)
    ensures
        fault == first_fault(sets@),
{
    let mut i: usize = 0;
    proof {
        assert(sets@.take(0) =~= Seq::<NumberedSet>::empty());
    }
    while i < sets.len()
        invariant
            i <= sets.len(),
            first_fault(sets@.take(i as int)) is None,
        decreases sets.len() - i,
    {
        proof {
            assert(sets@.take(i + 1).drop_last() =~= sets@.take(i as int));
        }
        match sets[i].set.check() {
            Err(e) => {
                proof {
                    lemma_fault_stays(sets@, i + 1);
                }
                return Some(e);
            },
            Ok(_) => {},
        }
        i += 1;
    }
    proof {
        assert(sets@.take(sets.len() as int) =~= sets@);
    }
    None
}

/// A fault found among the first sets is the fault of the whole list.
proof fn lemma_fault_stays(sets: Seq<NumberedSet>, n: int)
    requires
        0 <= n <= sets.len(),
        first_fault(sets.take(n)) is Some,
    ensures
        first_fault(sets) == first_fault(sets.take(n)),
    decreases sets.len() - n,
{
    if n < sets.len() {
        assert(sets.take(n + 1).drop_last() =~= sets.take(n));
        lemma_fault_stays(sets, n + 1);
    } else {
        assert(sets.take(n) =~= sets);
    }
}

/// Whether two of the sets carry the same number.
fn repeats_a_number(sets: &Vec<NumberedSet>) -> (found: bool)
    ensures
        found == has_duplicate_numbers(sets@),
{
    let mut j: usize = 0;
    while j < sets.len()
        invariant
            j <= sets.len(),
            forall|a: int, b: int|
                0 <= a < b < j ==> (#[trigger] sets@[a]).number != (#[trigger] sets@[b]).number,
        decreases sets.len() - j,
    {
        let mut i: usize = 0;
        while i < j
            invariant
                i <= j < sets.len(),
                forall|a: int| 0 <= a < i ==> (#[trigger] sets@[a]).number != sets@[j as int].number,
            decreases j - i,
        {
            if sets[i].number == sets[j].number {
                return true;
            }
            i += 1;
        }
        j += 1;
    }
    false
}

/// The order in which a workout's sets are written, or why the workout is
/// refused. Nothing is written, and nothing is read from a store.
pub fn plan_workout(data: &WorkoutData) -> (r: Result<Vec<Submission>, ValidationError>)
    ensures
        match r {
            Ok(plan) => plan_of(*data) == Ok::<Seq<Submission>, ValidationError>(plan@),
            Err(e) => plan_of(*data) == Err::<Seq<Submission>, ValidationError>(e),
        },
{
    if data.exercises.len() == 0 {
        return Err(ValidationError::EmptyExerciseList);
    }
    let mut plan: Vec<Submission> = Vec::new();
    let mut i: usize = 0;
    proof {
        assert(data.exercises@.take(0) =~= Seq::<ExerciseEntry>::empty());
    }
    while i < data.exercises.len()
        invariant
            i <= data.exercises.len(),
            plan_from(data.exercises@.take(i as int)) == Ok::<Seq<Submission>, ValidationError>(
                plan@,
            ),
        decreases data.exercises.len() - i,
    {
        let entry = &data.exercises[i];
        proof {
            assert(data.exercises@.take(i + 1).drop_last() =~= data.exercises@.take(i as int));
            assert(data.exercises@.take(i + 1).last() == data.exercises@[i as int]);
        }
        let fault = match find_fault(&entry.sets) {
            Some(e) => Some(e),
            None => if repeats_a_number(&entry.sets) {
                Some(ValidationError::DuplicateSetNumber)
            } else {
                None
            },
        };
        match fault {
            Some(e) => {
                proof {
                    lemma_plan_fault_stays(data.exercises@, i + 1);
                }
                return Err(e);
            },
            None => {},
        }
        let ordered = order_sets(&entry.sets);
        let ghost before = plan@;
        let mut k: usize = 0;
        while k < ordered.len()
            invariant
                k <= ordered.len(),
                plan@ == before + ordered@.take(k as int).map_values(
                    |n: NumberedSet| Submission { exercise_id: entry.exercise_id, set: n.set },
                ),
            decreases ordered.len() - k,
        {
            plan.push(Submission { exercise_id: entry.exercise_id, set: ordered[k].set });
            proof {
                let f = |n: NumberedSet| Submission { exercise_id: entry.exercise_id, set: n.set };
                assert(ordered@.take(k + 1).map_values(f) =~= ordered@.take(k as int).map_values(
                    f,
                ).push(f(ordered@[k as int])));
            }
            k += 1;
        }
        proof {
            assert(ordered@.take(ordered.len() as int) =~= ordered@);
        }
        i += 1;
    }
    proof {
        assert(data.exercises@.take(data.exercises.len() as int) =~= data.exercises@);
    }
    Ok(plan)
}

/// A fault found among the first exercises is the fault of the whole list.
proof fn lemma_plan_fault_stays(exercises: Seq<ExerciseEntry>, n: int)
    requires
        0 <= n <= exercises.len(),
        plan_from(exercises.take(n)) is Err,
    ensures
        plan_from(exercises) == plan_from(exercises.take(n)),
    decreases exercises.len() - n,
{
    if n < exercises.len() {
        assert(exercises.take(n + 1).drop_last() =~= exercises.take(n));
        lemma_plan_fault_stays(exercises, n + 1);
    } else {
        assert(exercises.take(n) =~= exercises);
    }
}

/// Does on the in-memory store what a command asks and gives the
/// store's reply. The two commands that end a session ask nothing.
pub fn perform(store: &mut Store, command: &Command) -> (reply: Reply)
    requires
        old(store).wf(),
        command matches Command::AppendRecord { marks, .. } ==> marks.wf(),
    ensures
        final(store).wf(),
        (final(store)@, reply) == performed(old(store)@, *command),
{
    match *command {
        Command::FindWorkout { workout_id } => Reply::Workout(store.find_workout(workout_id)),
        Command::FindRoutine { routine_id } => Reply::Routine(store.has_routine(routine_id)),
        Command::InsertWorkout { start, end, routine } => match store.insert_workout(
            start,
            end,
            routine,
        ) {
            Ok(id) => Reply::Inserted(id),
            Err(fault) => Reply::Failed(fault),
        },
        Command::InsertSet { workout_id, exercise_id, set } => match store.insert_set(
            workout_id,
            exercise_id,
            set,
        ) {
            Ok(id) => Reply::Inserted(id),
            Err(fault) => Reply::Failed(fault),
        },
        Command::ReadBests { exercise_id, weight } => {
            let latest = match store.latest_record(exercise_id) {
                Some(row) => Some(row.marks),
                None => None,
            };
            Reply::Bests { latest, best: store.best(exercise_id, weight) }
        },
        Command::AppendRecord { exercise_id, workout_id, marks } => match store.append_record(
            exercise_id,
            workout_id,
            marks,
        ) {
            Ok(id) => Reply::Inserted(id),
            Err(fault) => Reply::Failed(fault),
        },
        Command::RaiseBest { row } => {
            store.raise_best(row);
            Reply::Raised
        },
        Command::Commit { .. } => Reply::Raised,
        Command::Abort { .. } => Reply::Raised,
    }
}

/// Serves a session from the in-memory store until it is over. On failure
/// the store is left as the last write left it.
fn run(store: &mut Store, flow: SessionFlow) -> (r: Result<i32, EngineError>)
    requires
        old(store).wf(),
        flow@.wf(),
    ensures
        final(store).wf(),
        match r {
            Ok(id) => outcome(flow@, old(store)@) == Ok::<(StoreState, i32), EngineError>(
                (final(store)@, id),
            ),
            Err(e) => outcome(flow@, old(store)@) == Err::<(StoreState, i32), EngineError>(e),
        },
{
    let mut session = flow;
    loop
        invariant
            store.wf(),
            session@.wf(),
            flow@.wf(),
            outcome(session@, store@) == outcome(flow@, old(store)@),
        decreases session@.steps_left(),
    {
        let command = session.command();
        match command {
            Command::Commit { workout_id } => {
                return Ok(workout_id);
            },
            Command::Abort { error } => {
                return Err(error);
            },
            _ => {
                proof {
                    lemma_step(session@, performed(store@, command).1);
                }
                let reply = perform(store, &command);
                session.resume(reply);
            },
        }
    }
}

/// Records a finished workout: the session row, then every set of every
/// exercise with its evaluation, and hands out the new workout's
/// identifier. The call is one transaction: when it fails, the store is as
/// it was before.
pub fn finish_workout(store: &mut Store, data: &WorkoutData) -> (r: Result<i32, EngineError>)
    requires
        old(store).wf(),
    ensures
        final(store).wf(),
        match r {
            Ok(id) => finish(old(store)@, *data) == Ok::<(StoreState, i32), EngineError>(
                (final(store)@, id),
            ),
            Err(e) => finish(old(store)@, *data) == Err::<(StoreState, i32), EngineError>(e)
                && final(store)@ == old(store)@,
        },
{
    proof {
        lemma_outcome_is_finish(*data, store@);
    }
    let saved = store.snapshot();
    match run(store, SessionFlow::begin(data, None)) {
        Err(e) => {
            *store = saved;
            Err(e)
        },
        Ok(workout_id) => Ok(workout_id),
    }
}

/// Records more sets for a workout that exists, with their evaluations.
/// The session row stays as it is. The call is one transaction: when it
/// fails, the store is as it was before.
pub fn modify_workout(store: &mut Store, workout_id: i32, data: &WorkoutData) -> (r: Result<
    (),
    EngineError,
>)
    requires
        old(store).wf(),
    ensures
        final(store).wf(),
        match r {
            Ok(_) => modify(old(store)@, workout_id, *data) == Ok::<StoreState, EngineError>(
                final(store)@,
            ),
            Err(e) => modify(old(store)@, workout_id, *data) == Err::<StoreState, EngineError>(e)
                && final(store)@ == old(store)@,
        },
{
    proof {
        lemma_outcome_is_modify(*data, workout_id, store@);
    }
    let saved = store.snapshot();
    match run(store, SessionFlow::begin(data, Some(workout_id))) {
        Err(e) => {
            *store = saved;
            Err(e)
        },
        Ok(_) => Ok(()),
    }
}

} // verus!
