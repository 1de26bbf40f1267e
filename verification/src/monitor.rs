//! Sampling without a dashboard: one row of rates per tick, for a bounded or
//! an unbounded number of ticks.

use crate::discovery::{sources, InterruptSourceInfo, SourceModel};
use crate::interrupts::{count_for, last_count, rows, CounterRow, InterruptSource};
use crate::rate::{rate, rate_of};
use vstd::prelude::*;

verus! {

/// The last count seen of one interrupt line.
#[derive(Debug, Clone)]
pub struct Baseline {
    /// Identifier of the interrupt line.
    pub irq: String,
    /// The count at the last tick at which the line was seen.
    pub prev_count: u64,
}

/// What a [`Baseline`] stands for.
pub struct BaselineModel {
    pub irq: Seq<char>,
    pub prev_count: int,
}

impl View for Baseline {
    type V = BaselineModel;

    open spec fn view(&self) -> BaselineModel {
        BaselineModel { irq: self.irq@, prev_count: self.prev_count as int }
    }
}

/// What a list of baselines stands for.
pub open spec fn baselines(v: Seq<Baseline>) -> Seq<BaselineModel> {
    Seq::new(v.len(), |i: int| v[i]@)
}

/// The state of a run of the text monitor.
#[derive(Debug, Clone)]
pub struct Monitor {
    /// One baseline for each source, in the order of the sources.
    pub watched: Vec<Baseline>,
    /// The number of ticks so far.
    pub sample_num: u32,
    /// The number of ticks after which the run ends; 0 for a run without end.
    pub count: u32,
    /// The nominal length of a tick in milliseconds.
    pub interval_ms: u64,
    /// The rate above which a tick counts as high, in thousandths per second.
    pub threshold: i128,
}

/// One row of the monitor's output.
#[derive(Debug, Clone)]
pub struct MonitorRow {
    /// The number of the tick, counted from 1.
    pub sample_num: u32,
    /// The rate of each source, in thousandths per second.
    pub rates: Vec<u64>,
    /// Whether the rate of any source lies above the threshold.
    pub any_high: bool,
}

/// The baselines that the sources `infos` start from: for each the count
/// that the snapshot holds for its line, or 0.
pub open spec fn first_baselines(infos: Seq<SourceModel>, table: Seq<CounterRow>) -> Seq<
    BaselineModel,
> {
    Seq::new(
        infos.len(),
        |i: int|
            BaselineModel {
                irq: infos[i].irq,
                prev_count: match last_count(table, infos[i].irq) {
                    Some(c) => c as int,
                    None => 0,
                },
            },
    )
}

/// The rate of a line at a tick: that of the growth of its count since the
/// baseline, and 0 where the snapshot does not hold the line.
pub open spec fn line_rate(b: BaselineModel, table: Seq<CounterRow>, interval_ms: int) -> int {
    match last_count(table, b.irq) {
        Some(c) => rate_of(b.prev_count, c as int, interval_ms),
        None => 0,
    }
}

/// The baseline after a tick: the count of the snapshot where it holds the
/// line, and the old baseline where not.
pub open spec fn next_baseline(b: BaselineModel, table: Seq<CounterRow>) -> BaselineModel {
    match last_count(table, b.irq) {
        Some(c) => BaselineModel { prev_count: c as int, ..b },
        None => b,
    }
}

/// The rates of all lines at a tick.
pub open spec fn line_rates(list: Seq<BaselineModel>, table: Seq<CounterRow>, interval_ms: int) -> Seq<
    int,
> {
    Seq::new(list.len(), |i: int| line_rate(list[i], table, interval_ms))
}

/// Whether one of `values` lies above `threshold`.
pub open spec fn any_above(values: Seq<int>, threshold: int) -> bool {
    exists|i: int| 0 <= i < values.len() && #[trigger] values[i] > threshold
}

/// Whether a run of `count` ticks is over after `sample_num` of them.  A run
/// with a count of 0 has no end.
pub open spec fn run_is_over(sample_num: int, count: int) -> bool {
    count > 0 && sample_num >= count
}

/// The rates of a row as numbers.
pub open spec fn row_rates(v: Seq<u64>) -> Seq<int> {
    Seq::new(v.len(), |i: int| v[i] as int)
}

impl Monitor {
    /// A run over the sources `infos` that starts from the counts of
    /// `initial`.
    pub fn new(
        infos: &Vec<InterruptSourceInfo>,
        initial: &Vec<InterruptSource>,
        interval_ms: u64,
        count: u32,
        threshold: i128,
    ) -> (out: Monitor)
        ensures
            baselines(out.watched@) == first_baselines(sources(infos@), rows(initial@)),
            out.sample_num == 0,
            out.count == count,
            out.interval_ms == interval_ms,
            out.threshold == threshold,
    {
        let mut watched: Vec<Baseline> = Vec::new();
        let mut i: usize = 0;
        while i < infos.len()
            invariant
                i <= infos.len(),
                watched.len() == i,
                forall|k: int|
                    0 <= k < i ==> (#[trigger] watched@[k])@ == first_baselines(
                        sources(infos@),
                        rows(initial@),
                    )[k],
            decreases infos.len() - i,
        {
            let prev_count = match count_for(initial, &infos[i].irq) {
                Some(c) => c,
                None => 0,
            };
            watched.push(Baseline { irq: infos[i].irq.clone(), prev_count });
            i += 1;
        }
        assert(baselines(watched@) =~= first_baselines(sources(infos@), rows(initial@)));
        Monitor { watched, sample_num: 0, count, interval_ms, threshold }
    }

    /// Takes one tick: tells the rate of every source from a snapshot of the
    /// counters, and moves the baselines of the lines that the snapshot
    /// holds.
    pub fn tick(&mut self, current: &Vec<InterruptSource>) -> (row: MonitorRow)
        requires
            old(self).sample_num < u32::MAX,
        ensures
            row.sample_num == old(self).sample_num + 1,
            row_rates(row.rates@) == line_rates(
                baselines(old(self).watched@),
                rows(current@),
                old(self).interval_ms as int,
            ),
            row.any_high == any_above(row_rates(row.rates@), old(self).threshold as int),
            final(self).sample_num == old(self).sample_num + 1,
            final(self).count == old(self).count,
            final(self).interval_ms == old(self).interval_ms,
            final(self).threshold == old(self).threshold,
            baselines(final(self).watched@).len() == baselines(old(self).watched@).len(),
            forall|i: int|
                0 <= i < old(self).watched@.len() ==> #[trigger] baselines(final(self).watched@)[i]
                    == next_baseline(baselines(old(self).watched@)[i], rows(current@)),
    {
        let ghost before = baselines(self.watched@);
        let ghost table = rows(current@);
        let interval_ms = self.interval_ms;
        let threshold = self.threshold;
        let mut rates: Vec<u64> = Vec::new();
        let mut any_high = false;
        let mut i: usize = 0;
        while i < self.watched.len()
            invariant
                i <= self.watched.len(),
                self.watched.len() == before.len(),
                self.sample_num == old(self).sample_num,
                self.count == old(self).count,
                self.interval_ms == old(self).interval_ms,
                self.threshold == old(self).threshold,
                interval_ms == self.interval_ms,
                threshold == self.threshold,
                table == rows(current@),
                before == baselines(old(self).watched@),
                rates.len() == i,
                forall|k: int|
                    0 <= k < i ==> (#[trigger] rates@[k]) as int == line_rate(
                        before[k],
                        table,
                        interval_ms as int,
                    ),
                forall|k: int|
                    0 <= k < i ==> (#[trigger] self.watched@[k])@ == next_baseline(before[k], table),
                forall|k: int|
                    i <= k < self.watched.len() ==> (#[trigger] self.watched@[k])@ == before[k],
                any_high == any_above(row_rates(rates@), threshold as int),
            decreases self.watched.len() - i,
        {
            let r = match count_for(current, &self.watched[i].irq) {
                Some(c) => {
                    let r = rate(self.watched[i].prev_count, c, interval_ms);
                    self.watched[i].prev_count = c;
                    r
                },
                None => 0,
            };
            proof {
                let old_rates = row_rates(rates@);
                let new_rates = row_rates(rates@.push(r));
                assert(new_rates =~= old_rates.push(r as int));
                if any_above(old_rates, threshold as int) {
                    let w = choose|w: int| 0 <= w < old_rates.len() && #[trigger] old_rates[w] > threshold;
                    assert(new_rates[w] > threshold);
                }
                if r as i128 > threshold {
                    assert(new_rates[i as int] > threshold);
                }
                if any_above(new_rates, threshold as int) {
                    let w = choose|w: int| 0 <= w < new_rates.len() && #[trigger] new_rates[w] > threshold;
                    if w < i {
                        assert(old_rates[w] > threshold);
                    }
                }
            }
            rates.push(r);
            if r as i128 > threshold {
                any_high = true;
            }
            i += 1;
        }
        assert(row_rates(rates@) =~= line_rates(before, table, interval_ms as int));
        self.sample_num = self.sample_num + 1;
        MonitorRow { sample_num: self.sample_num, rates, any_high }
    }

    /// Whether the run is over.
    pub fn finished(&self) -> (out: bool)
        ensures
            out == run_is_over(self.sample_num as int, self.count as int),
    {
        self.count > 0 && self.sample_num >= self.count
    }
}

} // verus!
