use crate::metrics::OneRepMax;
use crate::sequences::{lemma_insert_to_multiset, lemma_take_to_multiset};
use vstd::prelude::*;
use vstd::relations::sorted_by;

verus! {

/// One ledger row of an exercise, joined to the start of its workout.
#[derive(Clone, Copy, Debug, PartialEq, Eq, Structural)]
pub struct PrHistoryEntry {
    pub workout_date: i64,
    pub weight: i16,
    pub one_rm: OneRepMax,
    pub set_volume: i32,
}

/// `a` stands no lower than `b` in the history: the higher estimate first,
/// then the heavier weight, then the larger volume.
pub open spec fn ranks_no_lower(a: PrHistoryEntry, b: PrHistoryEntry) -> bool {
    a.one_rm.is_above(b.one_rm) || (a.one_rm.same_value(b.one_rm) && (a.weight > b.weight || (
    a.weight == b.weight && a.set_volume >= b.set_volume)))
}

/// The order of the history.
pub open spec fn ranking() -> spec_fn(PrHistoryEntry, PrHistoryEntry) -> bool {
    |a: PrHistoryEntry, b: PrHistoryEntry| ranks_no_lower(a, b)
}

/// Of two entries one stands no lower than the other.
pub proof fn lemma_ranking_total(a: PrHistoryEntry, b: PrHistoryEntry)
    ensures
        ranks_no_lower(a, b) || ranks_no_lower(b, a),
{
    a.one_rm.lemma_order_total(b.one_rm);
}

/// The ranking carries over a middle entry.
pub proof fn lemma_ranking_transitive(a: PrHistoryEntry, b: PrHistoryEntry, c: PrHistoryEntry)
    requires
        a.one_rm.wf(),
        b.one_rm.wf(),
        c.one_rm.wf(),
        ranks_no_lower(a, b),
        ranks_no_lower(b, c),
    ensures
        ranks_no_lower(a, c),
{
    a.one_rm.lemma_order_transitive(b.one_rm, c.one_rm);
}

/// One logged set of an exercise, joined to the start of its workout.
#[derive(Clone, Copy, Debug, PartialEq, Eq, Structural)]
pub struct SetSample {
    pub start: i64,
    pub weight: i16,
    pub reps: i16,
}

/// The dates a series is asked for: both ends count, and a missing end
/// leaves that side open.
#[derive(Clone, Copy, Debug, PartialEq, Eq)]
pub struct DateBounds {
    pub from: Option<i64>,
    pub to: Option<i64>,
}

/// The total volume of an exercise in the workouts that started at `date`.
#[derive(Clone, Copy, Debug, PartialEq, Eq, Structural)]
pub struct VolumePoint {
    pub date: i64,
    pub volume: i128,
}

/// The heaviest weight of an exercise in the workouts that started at
/// `date`.
#[derive(Clone, Copy, Debug, PartialEq, Eq, Structural)]
pub struct WeightPoint {
    pub date: i64,
    pub weight: i16,
}

impl DateBounds {
    /// No bound on either side.
    pub fn open_ended() -> (bounds: DateBounds)
        ensures
            bounds.from is None,
            bounds.to is None,
    {
        DateBounds { from: None, to: None }
    }

    /// `date` lies within the bounds.
    pub open spec fn holds(self, date: i64) -> bool {
        &&& self.from matches Some(from) ==> from <= date
        &&& self.to matches Some(to) ==> date <= to
    }

    /// Whether `date` lies within the bounds.
    pub fn contains(&self, date: i64) -> (inside: bool)
        ensures
            inside == self.holds(date),
    {
        let after_from = match self.from {
            Some(from) => from <= date,
            None => true,
        };
        let before_to = match self.to {
            Some(to) => date <= to,
            None => true,
        };
        after_from && before_to
    }
}

/// The volume, `weight * reps` summed, of the samples that started at
/// `date`.
pub open spec fn volume_on(samples: Seq<SetSample>, date: i64) -> int
    decreases samples.len(),
{
    if samples.len() == 0 {
        0
    } else {
        volume_on(samples.drop_last(), date) + if samples.last().start == date {
            samples.last().weight * samples.last().reps
        } else {
            0
        }
    }
}

/// Some sample started at `date`.
pub open spec fn sampled_on(samples: Seq<SetSample>, date: i64) -> bool {
    exists|k: int| 0 <= k < samples.len() && (#[trigger] samples[k]).start == date
}

/// The series has a point for `date`.
pub open spec fn volume_charted(series: Seq<VolumePoint>, date: i64) -> bool {
    exists|a: int| 0 <= a < series.len() && (#[trigger] series[a]).date == date
}

/// The series has a point for `date`.
pub open spec fn weight_charted(series: Seq<WeightPoint>, date: i64) -> bool {
    exists|a: int| 0 <= a < series.len() && (#[trigger] series[a]).date == date
}

/// `series` is the volume over time of the samples within the bounds: one
/// point for each date within the bounds at which a sample started, in
/// chronological order, holding the volume of all samples of that date.
pub open spec fn is_volume_series(
    samples: Seq<SetSample>,
    bounds: DateBounds,
    series: Seq<VolumePoint>,
) -> bool {
    &&& forall|a: int, b: int|
        0 <= a < b < series.len() ==> (#[trigger] series[a]).date < (#[trigger] series[b]).date
    &&& forall|a: int|
        0 <= a < series.len() ==> {
            &&& bounds.holds((#[trigger] series[a]).date)
            &&& sampled_on(samples, series[a].date)
            &&& series[a].volume == volume_on(samples, series[a].date)
        }
    &&& forall|k: int|
        0 <= k < samples.len() && bounds.holds((#[trigger] samples[k]).start) ==> volume_charted(
            series,
            samples[k].start,
        )
}

/// `series` is the heaviest weight over time of the samples within the
/// bounds: one point for each date within the bounds at which a sample
/// started, in chronological order, holding a weight that some sample of
/// that date has and none exceeds.
pub open spec fn is_weight_series(
    samples: Seq<SetSample>,
    bounds: DateBounds,
    series: Seq<WeightPoint>,
) -> bool {
    &&& forall|a: int, b: int|
        0 <= a < b < series.len() ==> (#[trigger] series[a]).date < (#[trigger] series[b]).date
    &&& forall|a: int|
        0 <= a < series.len() ==> {
            &&& bounds.holds((#[trigger] series[a]).date)
            &&& lifted_on(samples, series[a].date, series[a].weight)
        }
    &&& forall|k: int|
        0 <= k < samples.len() && bounds.holds((#[trigger] samples[k]).start) ==> {
            &&& weight_charted(series, samples[k].start)
        }
    &&& forall|k: int, a: int|
        0 <= k < samples.len() && 0 <= a < series.len() && (#[trigger] samples[k]).start == (
        #[trigger] series[a]).date ==> samples[k].weight <= series[a].weight
}

/// Some sample that started at `date` has this weight.
pub open spec fn lifted_on(samples: Seq<SetSample>, date: i64, weight: i16) -> bool {
    exists|k: int|
        0 <= k < samples.len() && (#[trigger] samples[k]).start == date && samples[k].weight
            == weight
}

/// Where no sample started at a date, the volume of that date is zero.
pub proof fn lemma_volume_absent(samples: Seq<SetSample>, date: i64)
    requires
        !sampled_on(samples, date),
    ensures
        volume_on(samples, date) == 0,
    decreases samples.len(),
{
    if samples.len() > 0 {
        let front = samples.drop_last();
        assert(samples[samples.len() - 1].start != date);
        assert(!sampled_on(front, date)) by {
            if sampled_on(front, date) {
                let k = choose|k: int| 0 <= k < front.len() && (#[trigger] front[k]).start == date;
                assert(samples[k].start == date);
            }
        }
        lemma_volume_absent(front, date);
    }
}

/// The volume over time of the samples within the bounds.
pub fn volume_series(samples: &Vec<SetSample>, bounds: &DateBounds) -> (series: Vec<VolumePoint>)
    ensures
        is_volume_series(samples@, *bounds, series@),
{
    let mut series: Vec<VolumePoint> = Vec::new();
    let mut i: usize = 0;
    while i < samples.len()
        invariant
            i <= samples.len(),
            is_volume_series(samples@.take(i as int), *bounds, series@),
            forall|a: int|
                0 <= a < series@.len() ==> -(i * 0x4000_0000) <= (#[trigger] series@[a]).volume <= i
                    * 0x4000_0000,
        decreases samples.len() - i,
    {
        let sample = samples[i];
        let ghost seen = samples@.take(i as int);
        let ghost next = samples@.take(i + 1);
        let ghost before = series@;
        proof {
            assert(next.drop_last() =~= seen);
            assert(next.last() == sample);
            assert forall|d: i64| sampled_on(seen, d) implies sampled_on(next, d) by {
                let k = choose|k: int| 0 <= k < seen.len() && (#[trigger] seen[k]).start == d;
                assert(next[k].start == d);
            }
            assert(next[i as int].start == sample.start);
            assert(sampled_on(next, sample.start));
        }
        if bounds.contains(sample.start) {
            let w: i128 = sample.weight as i128;
            let r: i128 = sample.reps as i128;
            assert(-0x4000_0000 <= w * r <= 0x4000_0000) by (nonlinear_arith)
                requires
                    -0x8000 <= w <= 0x8000,
                    -0x8000 <= r <= 0x8000,
            ;
            let amount: i128 = w * r;
            let mut at: usize = 0;
            while at < series.len() && series[at].date < sample.start
                invariant
                    at <= series.len(),
                    forall|j: int| 0 <= j < at ==> (#[trigger] series@[j]).date < sample.start,
                decreases series.len() - at,
            {
                at += 1;
            }
            if at < series.len() && series[at].date == sample.start {
                let total: i128 = series[at].volume + amount;
                series.set(at, VolumePoint { date: sample.start, volume: total });
                proof {
                    assert forall|a: int| 0 <= a < series@.len() implies {
                        &&& bounds.holds((#[trigger] series@[a]).date)
                        &&& sampled_on(next, series@[a].date)
                        &&& series@[a].volume == volume_on(next, series@[a].date)
                    } by {
                        if a != at {
                            assert(series@[a] == before[a]);
                            assert(before[a].date != before[at as int].date);
                        }
                    }
                    assert forall|k: int|
                        0 <= k < next.len() && bounds.holds(
                            (#[trigger] next[k]).start,
                        ) implies volume_charted(series@, next[k].start) by {
                        if k < i {
                            assert(seen[k] == next[k]);
                            let a = choose|a: int|
                                0 <= a < before.len() && (#[trigger] before[a]).date
                                    == seen[k].start;
                            assert(series@[a].date == next[k].start);
                        } else {
                            assert(series@[at as int].date == next[k].start);
                        }
                    }
                }
            } else {
                series.insert(at, VolumePoint { date: sample.start, volume: amount });
                proof {
                    assert(!sampled_on(seen, sample.start)) by {
                        if sampled_on(seen, sample.start) {
                            let k = choose|k: int|
                                0 <= k < seen.len() && (#[trigger] seen[k]).start == sample.start;
                            assert(volume_charted(before, seen[k].start));
                            let a = choose|a: int|
                                0 <= a < before.len() && (#[trigger] before[a]).date
                                    == sample.start;
                            if a < at {
                                assert(before[a].date < sample.start);
                            } else if a > at {
                                assert(before[at as int].date < before[a].date);
                            }
                        }
                    }
                    lemma_volume_absent(seen, sample.start);
                    assert forall|a: int, b: int| 0 <= a < b < series@.len() implies (
                    #[trigger] series@[a]).date < (#[trigger] series@[b]).date by {
                        if b < at {
                            assert(before[a].date < before[b].date);
                        } else if b == at {
                            assert(before[a].date < sample.start);
                        } else if a == at {
                            if b - 1 > at {
                                assert(before[at as int].date < before[b - 1].date);
                            }
                        } else if a < at {
                            assert(before[a].date < before[b - 1].date);
                        } else {
                            assert(before[a - 1].date < before[b - 1].date);
                        }
                    }
                    assert forall|a: int| 0 <= a < series@.len() implies {
                        &&& bounds.holds((#[trigger] series@[a]).date)
                        &&& sampled_on(next, series@[a].date)
                        &&& series@[a].volume == volume_on(next, series@[a].date)
                    } by {
                        if a < at {
                            assert(series@[a] == before[a]);
                            assert(before[a].date < sample.start);
                        } else if a > at {
                            assert(series@[a] == before[a - 1]);
                            if a - 1 > at {
                                assert(before[at as int].date < before[a - 1].date);
                            }
                        }
                    }
                    assert forall|k: int|
                        0 <= k < next.len() && bounds.holds(
                            (#[trigger] next[k]).start,
                        ) implies volume_charted(series@, next[k].start) by {
                        if k < i {
                            assert(seen[k] == next[k]);
                            let a = choose|a: int|
                                0 <= a < before.len() && (#[trigger] before[a]).date
                                    == seen[k].start;
                            if a < at {
                                assert(series@[a].date == next[k].start);
                            } else {
                                assert(series@[a + 1].date == next[k].start);
                            }
                        } else {
                            assert(series@[at as int].date == next[k].start);
                        }
                    }
                    assert forall|a: int| 0 <= a < series@.len() implies -((i + 1) * 0x4000_0000)
                        <= (#[trigger] series@[a]).volume <= (i + 1) * 0x4000_0000 by {
                        if a < at {
                            assert(series@[a] == before[a]);
                        } else if a > at {
                            assert(series@[a] == before[a - 1]);
                        }
                    }
                }
            }
        } else {
            proof {
                assert forall|a: int| 0 <= a < series@.len() implies {
                    &&& bounds.holds((#[trigger] series@[a]).date)
                    &&& sampled_on(next, series@[a].date)
                    &&& series@[a].volume == volume_on(next, series@[a].date)
                } by {}
                assert forall|k: int|
                    0 <= k < next.len() && bounds.holds((#[trigger] next[k]).start) implies volume_charted(
                    series@,
                    next[k].start,
                ) by {
                    assert(k < i);
                    assert(seen[k] == next[k]);
                }
            }
        }
        i += 1;
    }
    proof {
        assert(samples@.take(samples.len() as int) =~= samples@);
    }
    series
}

/// The heaviest weight over time of the samples within the bounds.
pub fn max_weight_series(samples: &Vec<SetSample>, bounds: &DateBounds) -> (series: Vec<WeightPoint>)
    ensures
        is_weight_series(samples@, *bounds, series@),
{
    let mut series: Vec<WeightPoint> = Vec::new();
    let mut i: usize = 0;
    while i < samples.len()
        invariant
            i <= samples.len(),
            is_weight_series(samples@.take(i as int), *bounds, series@),
        decreases samples.len() - i,
    {
        let sample = samples[i];
        let ghost seen = samples@.take(i as int);
        let ghost next = samples@.take(i + 1);
        let ghost before = series@;
        proof {
            assert(next[i as int] == sample);
            assert forall|k: int| 0 <= k < i implies seen[k] == #[trigger] next[k] by {}
            assert forall|d: i64, w: i16| lifted_on(seen, d, w) implies lifted_on(next, d, w) by {
                let k = choose|k: int|
                    0 <= k < seen.len() && (#[trigger] seen[k]).start == d && seen[k].weight == w;
                assert(next[k].start == d && next[k].weight == w);
            }
        }
        if bounds.contains(sample.start) {
            let mut at: usize = 0;
            while at < series.len() && series[at].date < sample.start
                invariant
                    at <= series.len(),
                    forall|j: int| 0 <= j < at ==> (#[trigger] series@[j]).date < sample.start,
                decreases series.len() - at,
            {
                at += 1;
            }
            if at < series.len() && series[at].date == sample.start {
                if series[at].weight < sample.weight {
                    series.set(at, WeightPoint { date: sample.start, weight: sample.weight });
                }
                proof {
                    assert forall|a: int| 0 <= a < series@.len() implies {
                        &&& bounds.holds((#[trigger] series@[a]).date)
                        &&& lifted_on(next, series@[a].date, series@[a].weight)
                    } by {
                        if a != at {
                            assert(series@[a] == before[a]);
                        } else if before[at as int].weight < sample.weight {
                            assert(next[i as int].start == series@[a].date && next[i as int].weight
                                == series@[a].weight);
                        }
                    }
                    assert forall|k: int|
                        0 <= k < next.len() && bounds.holds(
                            (#[trigger] next[k]).start,
                        ) implies weight_charted(series@, next[k].start) by {
                        if k < i {
                            assert(seen[k] == next[k]);
                            let a = choose|a: int|
                                0 <= a < before.len() && (#[trigger] before[a]).date
                                    == seen[k].start;
                            assert(series@[a].date == next[k].start);
                        } else {
                            assert(series@[at as int].date == next[k].start);
                        }
                    }
                    assert forall|k: int, a: int|
                        0 <= k < next.len() && 0 <= a < series@.len() && (#[trigger] next[k]).start
                            == (#[trigger] series@[a]).date implies next[k].weight
                        <= series@[a].weight by {
                        if k < i {
                            assert(seen[k] == next[k]);
                            assert(seen[k].weight <= before[a].weight);
                        } else if a != at {
                            assert(before[a].date != before[at as int].date);
                        }
                    }
                }
            } else {
                series.insert(at, WeightPoint { date: sample.start, weight: sample.weight });
                proof {
                    assert forall|k: int| 0 <= k < i implies (#[trigger] seen[k]).start
                        != sample.start by {
                        if seen[k].start == sample.start {
                            assert(weight_charted(before, seen[k].start));
                            let a = choose|a: int|
                                0 <= a < before.len() && (#[trigger] before[a]).date
                                    == sample.start;
                            if a < at {
                                assert(before[a].date < sample.start);
                            } else if a > at {
                                assert(before[at as int].date < before[a].date);
                            }
                        }
                    }
                    assert forall|a: int, b: int| 0 <= a < b < series@.len() implies (
                    #[trigger] series@[a]).date < (#[trigger] series@[b]).date by {
                        if b < at {
                            assert(before[a].date < before[b].date);
                        } else if b == at {
                            assert(before[a].date < sample.start);
                        } else if a == at {
                            if b - 1 > at {
                                assert(before[at as int].date < before[b - 1].date);
                            }
                        } else if a < at {
                            assert(before[a].date < before[b - 1].date);
                        } else {
                            assert(before[a - 1].date < before[b - 1].date);
                        }
                    }
                    assert forall|a: int| 0 <= a < series@.len() implies {
                        &&& bounds.holds((#[trigger] series@[a]).date)
                        &&& lifted_on(next, series@[a].date, series@[a].weight)
                    } by {
                        if a < at {
                            assert(series@[a] == before[a]);
                        } else if a > at {
                            assert(series@[a] == before[a - 1]);
                        } else {
                            assert(next[i as int].start == series@[a].date && next[i as int].weight
                                == series@[a].weight);
                        }
                    }
                    assert forall|k: int|
                        0 <= k < next.len() && bounds.holds(
                            (#[trigger] next[k]).start,
                        ) implies weight_charted(series@, next[k].start) by {
                        if k < i {
                            assert(seen[k] == next[k]);
                            let a = choose|a: int|
                                0 <= a < before.len() && (#[trigger] before[a]).date
                                    == seen[k].start;
                            if a < at {
                                assert(series@[a].date == next[k].start);
                            } else {
                                assert(series@[a + 1].date == next[k].start);
                            }
                        } else {
                            assert(series@[at as int].date == next[k].start);
                        }
                    }
                    assert forall|k: int, a: int|
                        0 <= k < next.len() && 0 <= a < series@.len() && (#[trigger] next[k]).start
                            == (#[trigger] series@[a]).date implies next[k].weight
                        <= series@[a].weight by {
                        if k < i {
                            assert(seen[k] == next[k]);
                            if a < at {
                                assert(series@[a] == before[a]);
                                assert(seen[k].weight <= before[a].weight);
                            } else if a > at {
                                assert(series@[a] == before[a - 1]);
                                assert(seen[k].weight <= before[a - 1].weight);
                            }
                        } else {
                            if a < at {
                                assert(series@[a] == before[a]);
                            } else if a > at {
                                assert(series@[a] == before[a - 1]);
                                if a - 1 > at {
                                    assert(before[at as int].date < before[a - 1].date);
                                }
                            }
                        }
                    }
                }
            }
        } else {
            proof {
                assert forall|k: int|
                    0 <= k < next.len() && bounds.holds((#[trigger] next[k]).start) implies weight_charted(
                    series@,
                    next[k].start,
                ) by {
                    assert(k < i);
                    assert(seen[k] == next[k]);
                }
                assert forall|k: int, a: int|
                    0 <= k < next.len() && 0 <= a < series@.len() && (#[trigger] next[k]).start == (
                    #[trigger] series@[a]).date implies next[k].weight <= series@[a].weight by {
                    if k < i {
                        assert(seen[k] == next[k]);
                    }
                }
            }
        }
        i += 1;
    }
    proof {
        assert(samples@.take(samples.len() as int) =~= samples@);
    }
    series
}

/// Whether `a` stands no lower than `b` in the history.
fn stands_no_lower(a: &PrHistoryEntry, b: &PrHistoryEntry) -> (r: bool)
    ensures
        r == ranks_no_lower(*a, *b),
{
    if a.one_rm.exceeds(&b.one_rm) {
        true
    } else if a.one_rm.equals_value(&b.one_rm) {
        a.weight > b.weight || (a.weight == b.weight && a.set_volume >= b.set_volume)
    } else {
        false
    }
}

/// The entries ranked: the highest estimate first, then the heaviest
/// weight, then the largest volume. Each entry stays, as often as it came.
pub fn rank_records(entries: &Vec<PrHistoryEntry>) -> (ranked: Vec<PrHistoryEntry>)
    requires
        forall|i: int| 0 <= i < entries@.len() ==> (#[trigger] entries@[i]).one_rm.wf(),
    ensures
        sorted_by(ranked@, ranking()),
        ranked@.to_multiset() == entries@.to_multiset(),
        ranked@.len() == entries@.len(),
{
    let mut ranked: Vec<PrHistoryEntry> = Vec::new();
    let mut i: usize = 0;
    proof {
        assert(entries@.take(0) =~= Seq::<PrHistoryEntry>::empty());
    }
    while i < entries.len()
        invariant
            i <= entries.len(),
            forall|k: int| 0 <= k < entries@.len() ==> (#[trigger] entries@[k]).one_rm.wf(),
            forall|k: int| 0 <= k < ranked@.len() ==> (#[trigger] ranked@[k]).one_rm.wf(),
            sorted_by(ranked@, ranking()),
            ranked@.to_multiset() == entries@.take(i as int).to_multiset(),
            ranked@.len() == i,
        decreases entries.len() - i,
    {
        let entry = entries[i];
        let mut at: usize = 0;
        while at < ranked.len() && stands_no_lower(&ranked[at], &entry)
            invariant
                at <= ranked.len(),
                entry.one_rm.wf(),
                forall|k: int| 0 <= k < ranked@.len() ==> (#[trigger] ranked@[k]).one_rm.wf(),
                forall|j: int| 0 <= j < at ==> ranks_no_lower(#[trigger] ranked@[j], entry),
            decreases ranked.len() - at,
        {
            at += 1;
        }
        let ghost before = ranked@;
        ranked.insert(at, entry);
        proof {
            lemma_insert_to_multiset(before, at as int, entry);
            lemma_take_to_multiset(entries@, i as int);
            assert forall|a: int, b: int| 0 <= a < b < ranked@.len() implies ranking()(
                #[trigger] ranked@[a],
                #[trigger] ranked@[b],
            ) by {
                if b < at {
                    assert(ranking()(before[a], before[b]));
                } else if b == at {
                    assert(ranks_no_lower(before[a], entry));
                } else if a == at {
                    lemma_ranking_total(before[at as int], entry);
                    if b - 1 > at {
                        assert(ranking()(before[at as int], before[b - 1]));
                        lemma_ranking_transitive(entry, before[at as int], before[b - 1]);
                    }
                } else if a < at {
                    assert(ranking()(before[a], before[b - 1]));
                } else {
                    assert(ranking()(before[a - 1], before[b - 1]));
                }
            }
            assert forall|k: int| 0 <= k < ranked@.len() implies (#[trigger] ranked@[k]).one_rm.wf() by {
                if k < at {
                    assert(ranked@[k] == before[k]);
                } else if k > at {
                    assert(ranked@[k] == before[k - 1]);
                }
            }
        }
        i += 1;
    }
    proof {
        assert(entries@.take(entries.len() as int) =~= entries@);
    }
    ranked
}

/// Two rising lists of dates that hold the same dates are the same list.
proof fn lemma_same_dates(x: Seq<i64>, y: Seq<i64>)
    requires
        forall|i: int, j: int| 0 <= i < j < x.len() ==> x[i] < x[j],
        forall|i: int, j: int| 0 <= i < j < y.len() ==> y[i] < y[j],
        forall|i: int| 0 <= i < x.len() ==> y.contains(#[trigger] x[i]),
        forall|j: int| 0 <= j < y.len() ==> x.contains(#[trigger] y[j]),
    ensures
        x == y,
    decreases x.len(),
{
    if x.len() == 0 {
        if y.len() > 0 {
            assert(x.contains(y[0]));
        }
        assert(x =~= y);
    } else {
        let last = x.len() - 1;
        assert(y.contains(x[last]));
        let j = choose|j: int| 0 <= j < y.len() && y[j] == x[last];
        let top = y.len() - 1;
        assert(x.contains(y[top]));
        let i = choose|i: int| 0 <= i < x.len() && x[i] == y[top];
        assert(x[last] == y[top]) by {
            if i < last {
                assert(x[i] < x[last]);
            }
            if j < top {
                assert(y[j] < y[top]);
            }
        }
        let xs = x.drop_last();
        let ys = y.drop_last();
        assert forall|a: int| 0 <= a < xs.len() implies ys.contains(#[trigger] xs[a]) by {
            assert(xs[a] == x[a]);
            assert(x[a] < x[last]);
            assert(y.contains(x[a]));
            let b = choose|b: int| 0 <= b < y.len() && y[b] == x[a];
            assert(b < top);
            assert(ys[b] == xs[a]);
        }
        assert forall|b: int| 0 <= b < ys.len() implies xs.contains(#[trigger] ys[b]) by {
            assert(ys[b] == y[b]);
            assert(y[b] < y[top]);
            assert(x.contains(y[b]));
            let a = choose|a: int| 0 <= a < x.len() && x[a] == y[b];
            assert(a < last);
            assert(xs[a] == ys[b]);
        }
        assert forall|a: int, b: int| 0 <= a < b < xs.len() implies xs[a] < xs[b] by {
            assert(x[a] < x[b]);
        }
        assert forall|a: int, b: int| 0 <= a < b < ys.len() implies ys[a] < ys[b] by {
            assert(y[a] < y[b]);
        }
        lemma_same_dates(xs, ys);
        assert(x =~= xs.push(x[last]));
        assert(y =~= ys.push(y[top]));
    }
}

/// The samples and the bounds leave room for one volume series only.
pub proof fn lemma_volume_series_unique(
    samples: Seq<SetSample>,
    bounds: DateBounds,
    one: Seq<VolumePoint>,
    other: Seq<VolumePoint>,
)
    requires
        is_volume_series(samples, bounds, one),
        is_volume_series(samples, bounds, other),
    ensures
        one == other,
{
    let x = one.map_values(|p: VolumePoint| p.date);
    let y = other.map_values(|p: VolumePoint| p.date);
    assert forall|i: int| 0 <= i < x.len() implies y.contains(#[trigger] x[i]) by {
        assert(sampled_on(samples, one[i].date));
        let k = choose|k: int| 0 <= k < samples.len() && (#[trigger] samples[k]).start == one[i].date;
        assert(volume_charted(other, samples[k].start));
        let a = choose|a: int| 0 <= a < other.len() && (#[trigger] other[a]).date == one[i].date;
        assert(y[a] == x[i]);
    }
    assert forall|j: int| 0 <= j < y.len() implies x.contains(#[trigger] y[j]) by {
        assert(sampled_on(samples, other[j].date));
        let k = choose|k: int|
            0 <= k < samples.len() && (#[trigger] samples[k]).start == other[j].date;
        assert(volume_charted(one, samples[k].start));
        let a = choose|a: int| 0 <= a < one.len() && (#[trigger] one[a]).date == other[j].date;
        assert(x[a] == y[j]);
    }
    assert forall|i: int, j: int| 0 <= i < j < x.len() implies x[i] < x[j] by {
        assert(one[i].date < one[j].date);
    }
    assert forall|i: int, j: int| 0 <= i < j < y.len() implies y[i] < y[j] by {
        assert(other[i].date < other[j].date);
    }
    lemma_same_dates(x, y);
    assert(one.len() == other.len());
    assert forall|i: int| 0 <= i < one.len() implies one[i] == other[i] by {
        assert(x[i] == y[i]);
        assert(one[i].date == other[i].date);
    }
    assert(one =~= other);
}

/// The samples and the bounds leave room for one heaviest-weight series
/// only.
pub proof fn lemma_weight_series_unique(
    samples: Seq<SetSample>,
    bounds: DateBounds,
    one: Seq<WeightPoint>,
    other: Seq<WeightPoint>,
)
    requires
        is_weight_series(samples, bounds, one),
        is_weight_series(samples, bounds, other),
    ensures
        one == other,
{
    let x = one.map_values(|p: WeightPoint| p.date);
    let y = other.map_values(|p: WeightPoint| p.date);
    assert forall|i: int| 0 <= i < x.len() implies y.contains(#[trigger] x[i]) by {
        assert(lifted_on(samples, one[i].date, one[i].weight));
        let k = choose|k: int|
            0 <= k < samples.len() && (#[trigger] samples[k]).start == one[i].date
                && samples[k].weight == one[i].weight;
        assert(weight_charted(other, samples[k].start));
        let a = choose|a: int| 0 <= a < other.len() && (#[trigger] other[a]).date == one[i].date;
        assert(y[a] == x[i]);
    }
    assert forall|j: int| 0 <= j < y.len() implies x.contains(#[trigger] y[j]) by {
        assert(lifted_on(samples, other[j].date, other[j].weight));
        let k = choose|k: int|
            0 <= k < samples.len() && (#[trigger] samples[k]).start == other[j].date
                && samples[k].weight == other[j].weight;
        assert(weight_charted(one, samples[k].start));
        let a = choose|a: int| 0 <= a < one.len() && (#[trigger] one[a]).date == other[j].date;
        assert(x[a] == y[j]);
    }
    assert forall|i: int, j: int| 0 <= i < j < x.len() implies x[i] < x[j] by {
        assert(one[i].date < one[j].date);
    }
    assert forall|i: int, j: int| 0 <= i < j < y.len() implies y[i] < y[j] by {
        assert(other[i].date < other[j].date);
    }
    lemma_same_dates(x, y);
    assert(one.len() == other.len());
    assert forall|i: int| 0 <= i < one.len() implies one[i] == other[i] by {
        assert(x[i] == y[i]);
        assert(one[i].date == other[i].date);
        assert(lifted_on(samples, one[i].date, one[i].weight));
        let k = choose|k: int|
            0 <= k < samples.len() && (#[trigger] samples[k]).start == one[i].date
                && samples[k].weight == one[i].weight;
        assert(samples[k].weight <= other[i].weight);
        assert(lifted_on(samples, other[i].date, other[i].weight));
        let m = choose|m: int|
            0 <= m < samples.len() && (#[trigger] samples[m]).start == other[i].date
                && samples[m].weight == other[i].weight;
        assert(samples[m].weight <= one[i].weight);
    }
    assert(one =~= other);
}

/// Where no sample lies within the bounds, the series are empty.
pub proof fn lemma_nothing_sampled(samples: Seq<SetSample>, bounds: DateBounds)
    requires
        forall|k: int| 0 <= k < samples.len() ==> !bounds.holds((#[trigger] samples[k]).start),
    ensures
        forall|series: Seq<VolumePoint>| #[trigger]
            is_volume_series(samples, bounds, series) ==> series.len() == 0,
        forall|series: Seq<WeightPoint>| #[trigger]
            is_weight_series(samples, bounds, series) ==> series.len() == 0,
{
    assert forall|series: Seq<VolumePoint>| #[trigger]
        is_volume_series(samples, bounds, series) implies series.len() == 0 by {
        if series.len() > 0 {
            assert(sampled_on(samples, series[0].date));
        }
    }
    assert forall|series: Seq<WeightPoint>| #[trigger]
        is_weight_series(samples, bounds, series) implies series.len() == 0 by {
        if series.len() > 0 {
            assert(lifted_on(samples, series[0].date, series[0].weight));
        }
    }
}

} // verus!
