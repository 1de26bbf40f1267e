//! The state of the live dashboard: the sampled series of every source, the
//! series of their total, and the cursor and switches that the keys move.

use crate::axis::{axis_top, axis_top_of};
use crate::discovery::{sources, I2cTopology, InterruptSourceInfo, SourceModel, topology_sources};
use crate::history::{after_push, fresh_series, series, Sample, SeriesModel, SourceHistory};
use crate::interrupts::{count_for, last_count, rows, CounterRow, InterruptSource};
use crate::rate::{capped_sum, lower, mean, mean_of, rate_of, upper};
use crate::window::{pushed, Window};
use vstd::prelude::*;

verus! {

/// One sample of the total: the time since the start in milliseconds, and
/// the sum of the rates of that moment in thousandths per second.
pub type TotalSample = (u64, u128);

/// A key that the dashboard hears.
#[derive(Debug, Clone, Copy, PartialEq, Eq, Structural)]
pub enum Key {
    /// A character key.
    Char(char),
    /// The escape key.
    Esc,
    /// The upward arrow.
    Up,
    /// The downward arrow.
    Down,
    /// Any other key.
    Other,
}

/// The state of the dashboard.
pub struct App {
    sources: Vec<SourceHistory>,
    total_history: Window<TotalSample>,
    total_latest: u128,
    total_sum: u128,
    total_min: Option<u128>,
    total_max: Option<u128>,
    sample_count: u32,
    interval_ms: u64,
    should_quit: bool,
    selected_idx: usize,
    total_visible: bool,
    threshold: i128,
}

/// What an [`App`] stands for.
pub struct AppModel {
    /// The series of the sources, in the order of the topology.
    pub sources: Seq<SeriesModel>,
    /// The latest samples of the total, oldest first.
    pub total_history: Seq<TotalSample>,
    /// The total of the last tick.
    pub total_latest: int,
    /// The sum of all totals, held at the largest 128-bit value.
    pub total_sum: int,
    /// The lowest total, if there was a tick.
    pub total_min: Option<int>,
    /// The highest total, if there was a tick.
    pub total_max: Option<int>,
    /// The number of ticks.
    pub sample_count: int,
    /// The nominal length of a tick in milliseconds.
    pub interval_ms: int,
    /// Whether the user asked to leave.
    pub should_quit: bool,
    /// The row under the cursor: a source, or the total, which comes last.
    pub selected_idx: int,
    /// Whether the chart shows the total.
    pub total_visible: bool,
    /// The rate above which a source is highlighted, in thousandths per
    /// second; a threshold of 0 or less switches highlighting off.
    pub threshold: int,
}

/// An optional total as a number.
pub open spec fn opt_total(r: Option<u128>) -> Option<int> {
    match r {
        Some(v) => Some(v as int),
        None => None,
    }
}

/// The count that a snapshot holds for a line, or 0 where it holds none.
pub open spec fn count_or_zero(table: Seq<CounterRow>, irq: Seq<char>) -> int {
    match last_count(table, irq) {
        Some(c) => c as int,
        None => 0,
    }
}

/// The number of sources among `infos` that are controllers, or that are
/// devices, as `is_controller` tells.
pub open spec fn count_role(infos: Seq<SourceModel>, is_controller: bool) -> nat
    decreases infos.len(),
{
    if infos.len() == 0 {
        0
    } else if infos.last().is_controller == is_controller {
        count_role(infos.drop_last(), is_controller) + 1
    } else {
        count_role(infos.drop_last(), is_controller)
    }
}

/// The series that the sources `infos` start with: each begins at the count
/// that the snapshot holds for its line, and is numbered among the sources
/// of its role that come before it.
pub open spec fn seeded(infos: Seq<SourceModel>, table: Seq<CounterRow>) -> Seq<SeriesModel> {
    Seq::new(
        infos.len(),
        |i: int|
            fresh_series(
                infos[i],
                count_or_zero(table, infos[i].irq),
                count_role(infos.take(i), infos[i].is_controller),
            ),
    )
}

/// The rate of a series at a tick: that of the growth of its line's count
/// in the snapshot, and 0 where the snapshot does not hold the line.
pub open spec fn tick_rate(s: SeriesModel, table: Seq<CounterRow>, interval_ms: int) -> int {
    match last_count(table, s.irq) {
        Some(c) => rate_of(s.prev_count, c as int, interval_ms),
        None => 0,
    }
}

/// A series after a tick: it takes a sample where the snapshot holds its
/// line, and stays as it is, base count included, where not.
pub open spec fn after_tick(s: SeriesModel, table: Seq<CounterRow>, elapsed_ms: u64, interval_ms: int) -> SeriesModel {
    match last_count(table, s.irq) {
        Some(c) => after_push(s, elapsed_ms, c as int, interval_ms),
        None => s,
    }
}

/// The rates of all series at a tick.
pub open spec fn tick_rates(list: Seq<SeriesModel>, table: Seq<CounterRow>, interval_ms: int) -> Seq<int> {
    Seq::new(list.len(), |i: int| tick_rate(list[i], table, interval_ms))
}

/// The sum of `values`.
pub open spec fn sum(values: Seq<int>) -> int
    decreases values.len(),
{
    if values.len() == 0 {
        0
    } else {
        sum(values.drop_last()) + values.last()
    }
}

/// The state after a tick: every series has taken its sample, and the
/// total of the tick, which is the sum of the rates of all series, has
/// entered the history of the total and its running figures.
pub open spec fn after_sample(a: AppModel, table: Seq<CounterRow>, elapsed_ms: u64) -> AppModel {
    let total = sum(tick_rates(a.sources, table, a.interval_ms));
    AppModel {
        sources: Seq::new(
            a.sources.len(),
            |i: int| after_tick(a.sources[i], table, elapsed_ms, a.interval_ms),
        ),
        total_history: pushed(a.total_history, (elapsed_ms, total as u128)),
        total_latest: total,
        total_sum: capped_sum(a.total_sum, total),
        total_min: Some(lower(a.total_min, total)),
        total_max: Some(upper(a.total_max, total)),
        sample_count: a.sample_count + 1,
        ..a
    }
}

/// The highest of `values`, or 0 where there is none.
pub open spec fn highest(values: Seq<int>) -> int
    decreases values.len(),
{
    if values.len() == 0 {
        0
    } else if values.last() > highest(values.drop_last()) {
        values.last()
    } else {
        highest(values.drop_last())
    }
}

/// The rates of the samples of a series.
pub open spec fn rates(data: Seq<Sample>) -> Seq<int> {
    Seq::new(data.len(), |i: int| data[i].1 as int)
}

/// The rates of the samples of the total.
pub open spec fn totals(data: Seq<TotalSample>) -> Seq<int> {
    Seq::new(data.len(), |i: int| data[i].1 as int)
}

/// The highest rate in the windows of the visible series among `list`.
pub open spec fn visible_peak(list: Seq<SeriesModel>) -> int
    decreases list.len(),
{
    if list.len() == 0 {
        0
    } else if list.last().visible && highest(rates(list.last().data)) > visible_peak(
        list.drop_last(),
    ) {
        highest(rates(list.last().data))
    } else {
        visible_peak(list.drop_last())
    }
}

/// The highest rate that the chart shows: that of the visible series and,
/// where it is visible, of the total.
pub open spec fn chart_peak(a: AppModel) -> int {
    if a.total_visible && highest(totals(a.total_history)) > visible_peak(a.sources) {
        highest(totals(a.total_history))
    } else {
        visible_peak(a.sources)
    }
}

/// The highest of some values is not below any of them, nor below 0.
pub proof fn lemma_highest_bounds(values: Seq<int>, k: int)
    requires
        0 <= k < values.len(),
    ensures
        values[k] <= highest(values),
        0 <= highest(values),
    decreases values.len(),
{
    let t = values.drop_last();
    lemma_highest_floor(t);
    if k < t.len() {
        lemma_highest_bounds(t, k);
        assert(t[k] == values[k]);
    }
}

/// The highest of some values is not below 0.
pub proof fn lemma_highest_floor(values: Seq<int>)
    ensures
        0 <= highest(values),
    decreases values.len(),
{
    if values.len() > 0 {
        lemma_highest_floor(values.drop_last());
    }
}

/// The peak of the visible series is not below the highest rate of any of
/// them, nor below 0.
pub proof fn lemma_visible_peak_bounds(list: Seq<SeriesModel>, i: int)
    requires
        0 <= i < list.len(),
        list[i].visible,
    ensures
        highest(rates(list[i].data)) <= visible_peak(list),
    decreases list.len(),
{
    let t = list.drop_last();
    if i < t.len() {
        lemma_visible_peak_bounds(t, i);
        assert(t[i] == list[i]);
    }
}

/// No sample that the chart shows lies above the peak: not one of a visible
/// series, and not one of the total where the total is visible.
pub proof fn lemma_chart_peak_bounds(a: AppModel)
    ensures
        forall|i: int, k: int|
            0 <= i < a.sources.len() && a.sources[i].visible && 0 <= k < a.sources[i].data.len()
                ==> (#[trigger] a.sources[i].data[k]).1 <= chart_peak(a),
        forall|k: int|
            a.total_visible && 0 <= k < a.total_history.len() ==> (
            #[trigger] a.total_history[k]).1 <= chart_peak(a),
{
    assert forall|i: int, k: int|
        0 <= i < a.sources.len() && a.sources[i].visible && 0 <= k
            < a.sources[i].data.len() implies (#[trigger] a.sources[i].data[k]).1 <= chart_peak(
        a,
    ) by {
        lemma_highest_bounds(rates(a.sources[i].data), k);
        lemma_visible_peak_bounds(a.sources, i);
    }
    assert forall|k: int| a.total_visible && 0 <= k < a.total_history.len() implies (
    #[trigger] a.total_history[k]).1 <= chart_peak(a) by {
        lemma_highest_bounds(totals(a.total_history), k);
    }
}

/// The number of rows that the cursor can stand on: one for each series and
/// one for the total.
pub open spec fn selectable(a: AppModel) -> int {
    a.sources.len() as int + 1
}

/// The state with the visibility of the row under the cursor flipped.
pub open spec fn toggled(a: AppModel) -> AppModel {
    if a.selected_idx < a.sources.len() {
        AppModel {
            sources: a.sources.update(
                a.selected_idx,
                SeriesModel {
                    visible: !a.sources[a.selected_idx].visible,
                    ..a.sources[a.selected_idx]
                },
            ),
            ..a
        }
    } else {
        AppModel { total_visible: !a.total_visible, ..a }
    }
}

/// The state after a key: `q` and escape ask to leave, the upward arrow and
/// `k` move the cursor up, the downward arrow and `j` move it down, the
/// blank flips the visibility of the row under the cursor, and every other
/// key changes nothing.  The cursor wraps around at both ends.
pub open spec fn after_key(a: AppModel, key: Key) -> AppModel {
    match key {
        Key::Char('q') | Key::Esc => AppModel { should_quit: true, ..a },
        Key::Up | Key::Char('k') => AppModel {
            selected_idx: (a.selected_idx + selectable(a) - 1) % selectable(a),
            ..a
        },
        Key::Down | Key::Char('j') => AppModel {
            selected_idx: (a.selected_idx + 1) % selectable(a),
            ..a
        },
        Key::Char(' ') => toggled(a),
        _ => a,
    }
}

/// The total of a tick does not depend on which series are visible: series
/// that agree in line and base count give the same total.
pub proof fn lemma_total_ignores_visibility(
    a: Seq<SeriesModel>,
    b: Seq<SeriesModel>,
    table: Seq<CounterRow>,
    interval_ms: int,
)
    requires
        a.len() == b.len(),
        forall|i: int|
            0 <= i < a.len() ==> (#[trigger] a[i]).irq == b[i].irq && a[i].prev_count
                == b[i].prev_count,
    ensures
        sum(tick_rates(a, table, interval_ms)) == sum(tick_rates(b, table, interval_ms)),
{
    assert(tick_rates(a, table, interval_ms) =~= tick_rates(b, table, interval_ms));
}

/// The total of a tick is the sum of the latest rates of the series that
/// the snapshot holds; a series whose line is missing adds nothing.
pub proof fn lemma_total_is_sum_of_latest(a: AppModel, table: Seq<CounterRow>, elapsed_ms: u64)
    ensures
        after_sample(a, table, elapsed_ms).total_latest == sum(
            tick_rates(a.sources, table, a.interval_ms),
        ),
        after_sample(a, table, elapsed_ms).total_latest >= 0,
        forall|i: int|
            0 <= i < a.sources.len() && last_count(table, (#[trigger] a.sources[i]).irq) is Some
                ==> after_sample(a, table, elapsed_ms).sources[i].latest_rate == tick_rates(
                a.sources,
                table,
                a.interval_ms,
            )[i],
{
    lemma_sum_bounds(tick_rates(a.sources, table, a.interval_ms));
}

/// A sum of rates lies between 0 and the number of rates times the largest
/// rate.
pub proof fn lemma_sum_bounds(values: Seq<int>)
    requires
        forall|i: int| 0 <= i < values.len() ==> 0 <= #[trigger] values[i] <= u64::MAX,
    ensures
        0 <= sum(values) <= values.len() * u64::MAX,
    decreases values.len(),
{
    if values.len() > 0 {
        let t = values.drop_last();
        assert forall|i: int| 0 <= i < t.len() implies 0 <= #[trigger] t[i] <= u64::MAX by {
            assert(t[i] == values[i]);
        }
        lemma_sum_bounds(t);
        assert(values.len() * u64::MAX == t.len() * u64::MAX + u64::MAX) by (nonlinear_arith)
            requires
                values.len() == t.len() + 1,
        ;
    } else {
        assert(values.len() * u64::MAX == 0) by (nonlinear_arith)
            requires
                values.len() == 0,
        ;
    }
}

/// One step of the cursor, down or up, written without remainders.
proof fn lemma_cursor_steps(a: AppModel)
    requires
        0 <= a.selected_idx < selectable(a),
    ensures
        after_key(a, Key::Down).selected_idx == if a.selected_idx == selectable(a) - 1 {
            0
        } else {
            a.selected_idx + 1
        },
        after_key(a, Key::Up).selected_idx == if a.selected_idx == 0 {
            selectable(a) - 1
        } else {
            a.selected_idx - 1
        },
{
    let n = selectable(a);
    let i = a.selected_idx;
    if i == n - 1 {
        assert((i + 1) % n == 0) by (nonlinear_arith)
            requires
                i + 1 == n,
                n > 0,
        ;
    } else {
        vstd::arithmetic::div_mod::lemma_small_mod((i + 1) as nat, n as nat);
    }
    if i == 0 {
        vstd::arithmetic::div_mod::lemma_small_mod((n - 1) as nat, n as nat);
    } else {
        vstd::arithmetic::div_mod::lemma_fundamental_div_mod_converse(i + n - 1, n, 1, i - 1);
    }
}

/// Moving the cursor down from the last row brings it to the first, moving
/// it up from the first brings it to the last, and moving it down and up
/// again brings it back.
pub proof fn lemma_cursor_wraps(a: AppModel)
    requires
        0 <= a.selected_idx < selectable(a),
    ensures
        a.selected_idx == selectable(a) - 1 ==> after_key(a, Key::Down).selected_idx == 0,
        a.selected_idx == 0 ==> after_key(a, Key::Up).selected_idx == selectable(a) - 1,
        0 <= after_key(a, Key::Down).selected_idx < selectable(a),
        0 <= after_key(a, Key::Up).selected_idx < selectable(a),
        after_key(after_key(a, Key::Down), Key::Up).selected_idx == a.selected_idx,
        after_key(after_key(a, Key::Up), Key::Down).selected_idx == a.selected_idx,
{
    lemma_cursor_steps(a);
    lemma_cursor_steps(after_key(a, Key::Down));
    lemma_cursor_steps(after_key(a, Key::Up));
}

impl View for App {
    type V = AppModel;

    closed spec fn view(&self) -> AppModel {
        AppModel {
            sources: series(self.sources@),
            total_history: self.total_history@,
            total_latest: self.total_latest as int,
            total_sum: self.total_sum as int,
            total_min: opt_total(self.total_min),
            total_max: opt_total(self.total_max),
            sample_count: self.sample_count as int,
            interval_ms: self.interval_ms as int,
            should_quit: self.should_quit,
            selected_idx: self.selected_idx as int,
            total_visible: self.total_visible,
            threshold: self.threshold as int,
        }
    }
}

/// The state of a dashboard before its first tick and without sources:
/// only the row of the total, which is visible and under the cursor.
pub open spec fn fresh_app(interval_ms: int, threshold: int) -> AppModel {
    AppModel {
        sources: Seq::empty(),
        total_history: Seq::empty(),
        total_latest: 0,
        total_sum: 0,
        total_min: None,
        total_max: None,
        sample_count: 0,
        interval_ms,
        should_quit: false,
        selected_idx: 0,
        total_visible: true,
        threshold,
    }
}

/// Whether the row of the series `s` is highlighted: it is visible and its
/// latest rate lies above a threshold that is above 0.
pub open spec fn highlighted(s: SeriesModel, threshold: int) -> bool {
    s.latest_rate > threshold && threshold > 0 && s.visible
}

impl App {
    #[verifier::type_invariant]
    spec fn cursor_in_range(&self) -> bool {
        self.selected_idx <= self.sources@.len()
    }

    /// A dashboard that samples every `interval_ms` milliseconds and
    /// highlights rates above `threshold` thousandths per second.
    pub fn new(interval_ms: u64, threshold: i128) -> (out: App)
        ensures
            out@ == fresh_app(interval_ms as int, threshold as int),
    {
        let out = App {
            sources: Vec::new(),
            total_history: Window::new(),
            total_latest: 0,
            total_sum: 0,
            total_min: None,
            total_max: None,
            sample_count: 0,
            interval_ms,
            should_quit: false,
            selected_idx: 0,
            total_visible: true,
            threshold,
        };
        assert(out@.sources =~= Seq::<SeriesModel>::empty());
        out
    }

    /// Moves the state out and leaves an empty dashboard behind.
    fn take(&mut self) -> (out: App)
        ensures
            out == *old(self),
    {
        let mut out = App::new(0, 0);
        core::mem::swap(self, &mut out);
        out
    }

    /// Sets up the series of the sources of a topology, each starting at the
    /// count that the snapshot holds for its line, or at 0.  A cursor that
    /// would stand beyond the rows moves to the row of the total.
    pub fn init_from_topology(&mut self, topology: &I2cTopology, initial_counts: &Vec<InterruptSource>)
        ensures
            final(self)@ == (AppModel {
                sources: seeded(topology_sources(topology@.controllers), rows(initial_counts@)),
                selected_idx: if old(self)@.selected_idx <= topology_sources(
                    topology@.controllers,
                ).len() {
                    old(self)@.selected_idx
                } else {
                    topology_sources(topology@.controllers).len() as int
                },
                ..old(self)@
            }),
            0 <= final(self)@.selected_idx < selectable(final(self)@),
    {
        let infos = topology.all_sources();
        let ghost models = sources(infos@);
        let ghost table = rows(initial_counts@);
        let mut list: Vec<SourceHistory> = Vec::new();
        let mut controller_idx: usize = 0;
        let mut hid_idx: usize = 0;
        let mut i: usize = 0;
        assert(models.take(0) =~= Seq::<SourceModel>::empty());
        while i < infos.len()
            invariant
                i <= infos.len(),
                models == sources(infos@),
                table == rows(initial_counts@),
                list.len() == i,
                controller_idx == count_role(models.take(i as int), true),
                hid_idx == count_role(models.take(i as int), false),
                controller_idx + hid_idx == i,
                forall|k: int| 0 <= k < i ==> (#[trigger] list@[k])@ == seeded(models, table)[k],
            decreases infos.len() - i,
        {
            let info = &infos[i];
            proof {
                assert(models.take(i + 1).drop_last() =~= models.take(i as int));
                assert(models.take(i + 1).last() == info@);
            }
            let count = match count_for(initial_counts, &info.irq) {
                Some(c) => c,
                None => 0,
            };
            let color_idx = if info.is_controller {
                let idx = controller_idx;
                controller_idx += 1;
                idx
            } else {
                let idx = hid_idx;
                hid_idx += 1;
                idx
            };
            list.push(SourceHistory::new(info, count, color_idx));
            i += 1;
        }
        assert(series(list@) =~= seeded(models, table));
        let state = self.take();
        let selected_idx = if state.selected_idx <= list.len() {
            state.selected_idx
        } else {
            list.len()
        };
        *self = App {
            sources: list,
            total_history: state.total_history,
            total_latest: state.total_latest,
            total_sum: state.total_sum,
            total_min: state.total_min,
            total_max: state.total_max,
            sample_count: state.sample_count,
            interval_ms: state.interval_ms,
            should_quit: state.should_quit,
            selected_idx,
            total_visible: state.total_visible,
            threshold: state.threshold,
        };
    }

    /// Takes one sample of every source from a snapshot of the counters
    /// read `elapsed_ms` after the start, and one of their total.
    pub fn sample(&mut self, irq_counts: &Vec<InterruptSource>, elapsed_ms: u64)
        requires
            old(self)@.sample_count < u32::MAX,
        ensures
            final(self)@ == after_sample(old(self)@, rows(irq_counts@), elapsed_ms),
            final(self)@.total_latest == sum(
                tick_rates(old(self)@.sources, rows(irq_counts@), old(self)@.interval_ms),
            ),
    {
        proof {
            use_type_invariant(&*self);
        }
        let state = self.take();
        let ghost before = state@;
        let ghost table = rows(irq_counts@);
        let ghost ticks = tick_rates(before.sources, table, before.interval_ms);
        let interval_ms = state.interval_ms;
        let mut list = state.sources;
        let mut total: u128 = 0;
        let mut i: usize = 0;
        assert(ticks.take(0) =~= Seq::<int>::empty());
        assert(0 * u64::MAX == 0) by (nonlinear_arith);
        while i < list.len()
            invariant
                i <= list.len(),
                list.len() == before.sources.len(),
                table == rows(irq_counts@),
                ticks == tick_rates(before.sources, table, interval_ms as int),
                total == sum(ticks.take(i as int)),
                total <= i * u64::MAX,
                forall|k: int|
                    0 <= k < i ==> (#[trigger] list@[k])@ == after_tick(
                        before.sources[k],
                        table,
                        elapsed_ms,
                        interval_ms as int,
                    ),
                forall|k: int| i <= k < list.len() ==> (#[trigger] list@[k])@ == before.sources[k],
            decreases list.len() - i,
        {
            proof {
                assert(ticks.take(i + 1).drop_last() =~= ticks.take(i as int));
                assert(ticks.take(i + 1).last() == ticks[i as int]);
                assert((i + 1) * u64::MAX == i * u64::MAX + u64::MAX) by (nonlinear_arith);
                assert(i * u64::MAX + u64::MAX <= u128::MAX) by (nonlinear_arith)
                    requires
                        i < usize::MAX,
                        usize::MAX <= u64::MAX,
                ;
            }
            match count_for(irq_counts, &list[i].irq) {
                Some(count) => {
                    list[i].push(elapsed_ms, count, interval_ms);
                    total = total + list[i].latest_rate as u128;
                },
                None => {},
            }
            i += 1;
        }
        proof {
            assert(ticks.take(list.len() as int) =~= ticks);
            assert(series(list@) =~= after_sample(before, table, elapsed_ms).sources);
        }
        let mut total_history = state.total_history;
        total_history.push((elapsed_ms, total));
        *self = App {
            sources: list,
            total_history,
            total_latest: total,
            total_sum: state.total_sum.saturating_add(total),
            total_min: Some(
                match state.total_min {
                    Some(low) => if total < low {
                        total
                    } else {
                        low
                    },
                    None => total,
                },
            ),
            total_max: Some(
                match state.total_max {
                    Some(high) => if total > high {
                        total
                    } else {
                        high
                    },
                    None => total,
                },
            ),
            sample_count: state.sample_count + 1,
            interval_ms,
            should_quit: state.should_quit,
            selected_idx: state.selected_idx,
            total_visible: state.total_visible,
            threshold: state.threshold,
        };
    }

    /// The number of rows that the cursor can stand on.
    pub fn selectable_count(&self) -> (out: usize)
        requires
            self@.sources.len() < usize::MAX,
        ensures
            out == selectable(self@),
    {
        self.sources.len() + 1
    }

    /// Moves the cursor one row up; from the first row it goes to the last.
    pub fn select_prev(&mut self)
        ensures
            final(self)@ == after_key(old(self)@, Key::Up),
            0 <= old(self)@.selected_idx < selectable(old(self)@),
            0 <= final(self)@.selected_idx < selectable(final(self)@),
            old(self)@.selected_idx == 0 ==> final(self)@.selected_idx == selectable(old(self)@) - 1,
            old(self)@.selected_idx > 0 ==> final(self)@.selected_idx == old(self)@.selected_idx
                - 1,
    {
        proof {
            use_type_invariant(&*self);
            lemma_cursor_steps(self@);
        }
        if self.selected_idx > 0 {
            self.selected_idx = self.selected_idx - 1;
        } else {
            self.selected_idx = self.sources.len();
        }
    }

    /// Moves the cursor one row down; from the last row it goes to the
    /// first.
    pub fn select_next(&mut self)
        ensures
            final(self)@ == after_key(old(self)@, Key::Down),
            0 <= old(self)@.selected_idx < selectable(old(self)@),
            0 <= final(self)@.selected_idx < selectable(final(self)@),
            old(self)@.selected_idx == selectable(old(self)@) - 1 ==> final(self)@.selected_idx
                == 0,
            old(self)@.selected_idx < selectable(old(self)@) - 1 ==> final(self)@.selected_idx
                == old(self)@.selected_idx + 1,
    {
        proof {
            use_type_invariant(&*self);
            lemma_cursor_steps(self@);
        }
        if self.selected_idx >= self.sources.len() {
            self.selected_idx = 0;
        } else {
            self.selected_idx = self.selected_idx + 1;
        }
    }

    /// Flips the visibility of the row under the cursor.
    pub fn toggle_visibility(&mut self)
        ensures
            final(self)@ == toggled(old(self)@),
    {
        proof {
            use_type_invariant(&*self);
        }
        if self.selected_idx < self.sources.len() {
            let at = self.selected_idx;
            let mut state = self.take();
            let ghost before = state@;
            let mut list = state.sources;
            let flipped = !list[at].visible;
            list[at].visible = flipped;
            assert(series(list@) =~= toggled(before).sources);
            *self = App {
                sources: list,
                total_history: state.total_history,
                total_latest: state.total_latest,
                total_sum: state.total_sum,
                total_min: state.total_min,
                total_max: state.total_max,
                sample_count: state.sample_count,
                interval_ms: state.interval_ms,
                should_quit: state.should_quit,
                selected_idx: state.selected_idx,
                total_visible: state.total_visible,
                threshold: state.threshold,
            };
        } else {
            self.total_visible = !self.total_visible;
        }
    }

    /// Asks to leave the dashboard.
    pub fn quit(&mut self)
        ensures
            final(self)@ == (AppModel { should_quit: true, ..old(self)@ }),
    {
        proof {
            use_type_invariant(&*self);
        }
        self.should_quit = true;
    }

    /// Reacts to a key.
    pub fn handle_key(&mut self, key: Key)
        ensures
            final(self)@ == after_key(old(self)@, key),
    {
        match key {
            Key::Char(c) => {
                if c == 'q' {
                    self.quit();
                } else if c == 'k' {
                    self.select_prev();
                } else if c == 'j' {
                    self.select_next();
                } else if c == ' ' {
                    self.toggle_visibility();
                }
            },
            Key::Esc => {
                self.quit();
            },
            Key::Up => {
                self.select_prev();
            },
            Key::Down => {
                self.select_next();
            },
            Key::Other => {},
        }
    }

    /// The top of the vertical axis of the chart, in interrupts per second.
    pub fn y_max(&self) -> (out: u128)
        ensures
            out == axis_top_of(chart_peak(self@)),
            out >= crate::axis::MIN_SCALE,
            out * 1000 >= chart_peak(self@),
    {
        let mut peak: u128 = 0;
        let mut i: usize = 0;
        let ghost list = series(self.sources@);
        assert(list.take(0) =~= Seq::<SeriesModel>::empty());
        while i < self.sources.len()
            invariant
                i <= self.sources.len(),
                list == series(self.sources@),
                peak == visible_peak(list.take(i as int)),
            decreases self.sources.len() - i,
        {
            let source = &self.sources[i];
            proof {
                assert(list.take(i + 1).drop_last() =~= list.take(i as int));
                assert(list.take(i + 1).last() == source@);
            }
            if source.visible {
                let ghost values = rates(source@.data);
                let mut high: u64 = 0;
                let mut j: usize = 0;
                let n = source.data.len();
                assert(values.take(0) =~= Seq::<int>::empty());
                while j < n
                    invariant
                        j <= n,
                        n == source.data@.len(),
                        values == rates(source@.data),
                        high == highest(values.take(j as int)),
                    decreases n - j,
                {
                    proof {
                        assert(values.take(j + 1).drop_last() =~= values.take(j as int));
                        assert(values.take(j + 1).last() == source.data@[j as int].1);
                    }
                    let r = source.data.get(j).1;
                    if r > high {
                        high = r;
                    }
                    j += 1;
                }
                assert(values.take(n as int) =~= values);
                if high as u128 > peak {
                    peak = high as u128;
                }
            }
            i += 1;
        }
        assert(list.take(self.sources.len() as int) =~= list);
        if self.total_visible {
            let ghost values = totals(self.total_history@);
            let mut high: u128 = 0;
            let mut j: usize = 0;
            let n = self.total_history.len();
            assert(values.take(0) =~= Seq::<int>::empty());
            while j < n
                invariant
                    j <= n,
                    n == self.total_history@.len(),
                    values == totals(self.total_history@),
                    high == highest(values.take(j as int)),
                decreases n - j,
            {
                proof {
                    assert(values.take(j + 1).drop_last() =~= values.take(j as int));
                    assert(values.take(j + 1).last() == self.total_history@[j as int].1);
                }
                let r = self.total_history.get(j).1;
                if r > high {
                    high = r;
                }
                j += 1;
            }
            assert(values.take(n as int) =~= values);
            if high > peak {
                peak = high;
            }
        }
        axis_top(peak)
    }

    /// The series of the sources.
    pub fn sources(&self) -> (out: &Vec<SourceHistory>)
        ensures
            series(out@) == self@.sources,
    {
        &self.sources
    }

    /// The latest samples of the total.
    pub fn total_history(&self) -> (out: &Window<TotalSample>)
        ensures
            out@ == self@.total_history,
    {
        &self.total_history
    }

    /// The total of the last tick.
    pub fn total_latest(&self) -> (out: u128)
        ensures
            out == self@.total_latest,
    {
        self.total_latest
    }

    /// The sum of all totals.
    pub fn total_sum(&self) -> (out: u128)
        ensures
            out == self@.total_sum,
    {
        self.total_sum
    }

    /// The lowest total, if there was a tick.
    pub fn total_min(&self) -> (out: Option<u128>)
        ensures
            opt_total(out) == self@.total_min,
    {
        self.total_min
    }

    /// The highest total, if there was a tick.
    pub fn total_max(&self) -> (out: Option<u128>)
        ensures
            opt_total(out) == self@.total_max,
    {
        self.total_max
    }

    /// The number of ticks.
    pub fn sample_count(&self) -> (out: u32)
        ensures
            out == self@.sample_count,
    {
        self.sample_count
    }

    /// The nominal length of a tick in milliseconds.
    pub fn interval_ms(&self) -> (out: u64)
        ensures
            out == self@.interval_ms,
    {
        self.interval_ms
    }

    /// Whether the user asked to leave.
    pub fn should_quit(&self) -> (out: bool)
        ensures
            out == self@.should_quit,
    {
        self.should_quit
    }

    /// The row under the cursor, which is a source or, past the sources,
    /// the total.
    pub fn selected_idx(&self) -> (out: usize)
        ensures
            out == self@.selected_idx,
            0 <= out < selectable(self@),
    {
        proof {
            use_type_invariant(self);
        }
        self.selected_idx
    }

    /// Whether the chart shows the total.
    pub fn total_visible(&self) -> (out: bool)
        ensures
            out == self@.total_visible,
    {
        self.total_visible
    }

    /// The rate above which a source is highlighted.
    pub fn threshold(&self) -> (out: i128)
        ensures
            out == self@.threshold,
    {
        self.threshold
    }

    /// Whether the row of the source at place `i` is highlighted.
    pub fn is_highlighted(&self, i: usize) -> (out: bool)
        requires
            i < self@.sources.len(),
        ensures
            out == highlighted(self@.sources[i as int], self@.threshold),
    {
        let source = &self.sources[i];
        source.latest_rate as i128 > self.threshold && self.threshold > 0 && source.visible
    }

    /// The mean rate of the source at place `i` over all ticks.
    pub fn source_average(&self, i: usize) -> (out: u128)
        requires
            i < self@.sources.len(),
        ensures
            out == mean_of(self@.sources[i as int].rate_sum, self@.sample_count),
    {
        mean(self.sources[i].rate_sum, self.sample_count)
    }

    /// The mean total over all ticks.
    pub fn total_average(&self) -> (out: u128)
        ensures
            out == mean_of(self@.total_sum, self@.sample_count),
    {
        mean(self.total_sum, self.sample_count)
    }
}

} // verus!
