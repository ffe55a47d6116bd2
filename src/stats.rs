//! Batch statistics over the analyzed events and the per-axis outlier rule
//! that marks events as critical.
use vstd::prelude::*;
use crate::event::{AnalyzedModel, CombinedEventData, Event, InferredData, models, pair_of};

verus! {

pub open spec fn sum_threat(s: Seq<AnalyzedModel>) -> int
    decreases s.len(),
{
    if s.len() == 0 {
        0
    } else {
        sum_threat(s.drop_last()) + s.last().1.0
    }
}

pub open spec fn sum_suspiciousness(s: Seq<AnalyzedModel>) -> int
    decreases s.len(),
{
    if s.len() == 0 {
        0
    } else {
        sum_suspiciousness(s.drop_last()) + s.last().1.1
    }
}

pub open spec fn sum_interest(s: Seq<AnalyzedModel>) -> int
    decreases s.len(),
{
    if s.len() == 0 {
        0
    } else {
        sum_interest(s.drop_last()) + s.last().1.2
    }
}

/// Totals of the three scores over a non-empty batch, and its size; each
/// mean is a total divided by the count.
pub struct Statistics {
    pub total_threat: u128,
    pub total_suspiciousness: u128,
    pub total_interest: u128,
    pub count: usize,
}

/// No event of the batch carried a usable annotation, so no mean exists.
pub struct EmptyDatasetError {}

/// The statistics of a non-empty batch.
pub open spec fn statistics_of(s: Seq<AnalyzedModel>, st: Statistics) -> bool {
    &&& st.count == s.len()
    &&& st.total_threat == sum_threat(s)
    &&& st.total_suspiciousness == sum_suspiciousness(s)
    &&& st.total_interest == sum_interest(s)
}

/// `score > 2 × (total / count)`, written without division.
pub open spec fn above_twice_mean(score: int, total: int, count: int) -> bool {
    score * count > 2 * total
}

/// The outlier rule: some score exceeds twice the batch mean of that score.
pub open spec fn is_critical(a: AnalyzedModel, st: Statistics) -> bool {
    above_twice_mean(a.1.0 as int, st.total_threat as int, st.count as int)
        || above_twice_mean(a.1.1 as int, st.total_suspiciousness as int, st.count as int)
        || above_twice_mean(a.1.2 as int, st.total_interest as int, st.count as int)
}

/// The critical events of a batch, in batch order.
pub open spec fn critical(s: Seq<AnalyzedModel>, st: Statistics) -> Seq<AnalyzedModel> {
    s.filter(|a: AnalyzedModel| is_critical(a, st))
}

/// `idx` lists, in increasing order, positions of `s` whose elements make
/// up `r`.
pub open spec fn ordered_positions(s: Seq<AnalyzedModel>, r: Seq<AnalyzedModel>, idx: Seq<int>) -> bool {
    &&& idx.len() == r.len()
    &&& forall|k: int| 0 <= k < idx.len() ==> 0 <= #[trigger] idx[k] < s.len() && s[idx[k]] == r[k]
    &&& forall|a: int, b: int| 0 <= a < b < idx.len() ==> idx[a] < idx[b]
}

proof fn filter_positions(s: Seq<AnalyzedModel>, pred: spec_fn(AnalyzedModel) -> bool) -> (idx: Seq<
    int,
>)
    ensures
        ordered_positions(s, s.filter(pred), idx),
    decreases s.len(),
{
    reveal(Seq::filter);
    if s.len() == 0 {
        Seq::empty()
    } else {
        let prev = filter_positions(s.drop_last(), pred);
        if pred(s.last()) {
            let idx = prev.push(s.len() - 1);
            assert forall|k: int| 0 <= k < idx.len() implies 0 <= #[trigger] idx[k] < s.len()
                && s[idx[k]] == s.filter(pred)[k] by {
                if k < prev.len() {
                    assert(prev[k] == idx[k]);
                }
            }
            idx
        } else {
            prev
        }
    }
}

/// The critical events keep the order of the batch: there are increasing
/// positions of the batch that hold them, one for one.
pub proof fn lemma_critical_keeps_order(s: Seq<AnalyzedModel>, st: Statistics)
    ensures
        exists|idx: Seq<int>| ordered_positions(s, critical(s, st), idx),
{
    let idx = filter_positions(s, |a: AnalyzedModel| is_critical(a, st));
    assert(ordered_positions(s, critical(s, st), idx));
}

proof fn lemma_models_push(s: Seq<CombinedEventData>, c: CombinedEventData)
    ensures
        models(s.push(c)) == models(s).push(pair_of(c)),
{
    assert(models(s.push(c)) =~= models(s).push(pair_of(c)));
}

/// Sums the three scores over the batch. An empty batch has no mean and is
/// reported as `EmptyDatasetError`.
pub fn compute_statistics(events: &Vec<CombinedEventData>) -> (r: Result<
    Statistics,
    EmptyDatasetError,
>)
    ensures
        r is Err <==> events@.len() == 0,
        r matches Ok(st) ==> statistics_of(models(events@), st),
{
    let n = events.len();
    if n == 0 {
        return Err(EmptyDatasetError {  });
    }
    let mut threat: u128 = 0;
    let mut suspiciousness: u128 = 0;
    let mut interest: u128 = 0;
    let mut i: usize = 0;
    while i < n
        invariant
            n == events@.len(),
            i <= n,
            threat == sum_threat(models(events@.take(i as int))),
            suspiciousness == sum_suspiciousness(models(events@.take(i as int))),
            interest == sum_interest(models(events@.take(i as int))),
            threat <= i * 0xffff_ffff_ffff_ffffu64,
            suspiciousness <= i * 0xffff_ffff_ffff_ffffu64,
            interest <= i * 0xffff_ffff_ffff_ffffu64,
        decreases n - i,
    {
        let d = &events[i].inferreddata;
        proof {
            assert(events@.take(i + 1) =~= events@.take(i as int).push(events@[i as int]));
            lemma_models_push(events@.take(i as int), events@[i as int]);
            let m = models(events@.take(i as int));
            assert(m.push(pair_of(events@[i as int])).drop_last() =~= m);
            assert(i * 0xffff_ffff_ffff_ffffu64 + 0xffff_ffff_ffff_ffffu64 == (i + 1)
                * 0xffff_ffff_ffff_ffffu64) by (nonlinear_arith);
            assert((i + 1) * 0xffff_ffff_ffff_ffffu64 <= 0xffff_ffff_ffff_ffffu64
                * 0xffff_ffff_ffff_ffffu64) by (nonlinear_arith)
                requires
                    i + 1 <= 0xffff_ffff_ffff_ffffu64,
            ;
        }
        threat = threat + d.threat_level as u128;
        suspiciousness = suspiciousness + d.suspiciousness as u128;
        interest = interest + d.interest as u128;
        i = i + 1;
    }
    assert(events@.take(n as int) =~= events@);
    Ok(Statistics {
        total_threat: threat,
        total_suspiciousness: suspiciousness,
        total_interest: interest,
        count: n,
    })
}

/// Whether `score` exceeds twice the mean `total / count`.
fn exceeds_twice_mean(score: u64, total: u128, count: usize) -> (r: bool)
    ensures
        r == above_twice_mean(score as int, total as int, count as int),
{
    proof {
        let (a, b) = (score as int, count as int);
        assert(a * b <= 0xffff_ffff_ffff_ffffu64 * 0xffff_ffff_ffff_ffffu64) by (nonlinear_arith)
            requires
                0 <= a <= 0xffff_ffff_ffff_ffffu64,
                0 <= b <= 0xffff_ffff_ffff_ffffu64,
        ;
    }
    let scaled = score as u128 * count as u128;
    if scaled <= total {
        false
    } else {
        scaled - total > total
    }
}

impl Statistics {
    /// Whether an event with this annotation is critical in the batch.
    pub fn is_critical(&self, d: &InferredData) -> (r: bool)
        ensures
            forall|e: Event| r == is_critical((e, d@), *self),
    {
        exceeds_twice_mean(d.threat_level, self.total_threat, self.count) || exceeds_twice_mean(
            d.suspiciousness,
            self.total_suspiciousness,
            self.count,
        ) || exceeds_twice_mean(d.interest, self.total_interest, self.count)
    }

    /// Mean threat level in thousandths of a point, rounded down.
    pub fn average_threat(&self) -> (r: u128)
        requires
            self.count > 0,
        ensures
            r == self.total_threat as int / self.count as int,
    {
        self.total_threat / self.count as u128
    }

    /// Mean suspiciousness in thousandths of a point, rounded down.
    pub fn average_suspiciousness(&self) -> (r: u128)
        requires
            self.count > 0,
        ensures
            r == self.total_suspiciousness as int / self.count as int,
    {
        self.total_suspiciousness / self.count as u128
    }

    /// Mean interest in thousandths of a point, rounded down.
    pub fn average_interest(&self) -> (r: u128)
        requires
            self.count > 0,
        ensures
            r == self.total_interest as int / self.count as int,
    {
        self.total_interest / self.count as u128
    }
}

/// Keeps the critical events of the batch, in batch order.
pub fn select_critical(events: Vec<CombinedEventData>, stats: &Statistics) -> (r: Vec<
    CombinedEventData,
>)
    ensures
        models(r@) == critical(models(events@), *stats),
{
    let ghost all = events@;
    let ghost pred = |a: AnalyzedModel| is_critical(a, *stats);
    let mut rest = events;
    let mut out: Vec<CombinedEventData> = Vec::new();
    while rest.len() > 0
        invariant
            rest@.len() <= all.len(),
            rest@ == all.skip(all.len() - rest@.len()),
            pred == (|a: AnalyzedModel| is_critical(a, *stats)),
            models(out@) == models(all.take(all.len() - rest@.len())).filter(pred),
        decreases rest@.len(),
    {
        let ghost k = all.len() - rest@.len();
        let c = rest.remove(0);
        let ghost before = out@;
        proof {
            assert(all.take(k + 1) =~= all.take(k).push(c));
            lemma_models_push(all.take(k), c);
            assert(models(all.take(k)).push(pair_of(c)).drop_last() =~= models(all.take(k)));
            assert(rest@ =~= all.skip(k + 1));
            let s2 = models(all.take(k)).push(pair_of(c));
            assert(s2.last() == pair_of(c));
            reveal(Seq::filter);
            assert(s2.filter(pred) == if pred(pair_of(c)) {
                models(all.take(k)).filter(pred).push(pair_of(c))
            } else {
                models(all.take(k)).filter(pred)
            });
        }
        let keep = stats.is_critical(&c.inferreddata);
        assert(keep == pred(pair_of(c))) by {
            assert(keep == is_critical((c.event, c.inferreddata@), *stats));
        }
        if keep {
            proof {
                lemma_models_push(before, c);
            }
            out.push(c);
        }
    }
    assert(all.take(all.len() as int) =~= all);
    out
}

} // verus!
