//! The metrics that the watcher keeps: counters, which only grow, and one
//! gauge, which holds what was last observed.

use vstd::prelude::*;
use crate::harvest::HarvestEvent;

verus! {

/// The name of the counter of parsed log lines, kept per level.
pub const LOG_LINES: &'static str = "chia_log_lines";

/// The name of the counter of harvest reports.
pub const HARVESTER_EVENTS_TOTAL: &'static str = "chia_harvester_events_total";

/// The name of the counter of eligible plots.
pub const HARVESTER_PLOTS_ELIGIBLE: &'static str = "chia_harvester_plots_eligible";

/// The name of the counter of proofs.
pub const HARVESTER_PLOTS_PROOFS: &'static str = "chia_harvester_plots_proofs";

/// The name of the gauge of the total number of plots.
pub const HARVESTER_PLOTS_TOTAL: &'static str = "chia_harvester_plots_total";

/// The label under which the level of a line is kept.
pub const LEVEL_LABEL: &'static str = "level";

/// One change to the metrics.
#[derive(Debug)]
pub enum MetricUpdate {
    /// One more line of this level was parsed.
    CountLine(String),
    /// One more harvest report was seen.
    CountHarvesterEvent,
    /// So many more plots were eligible.
    AddEligible(u64),
    /// So many more proofs were found.
    AddProofs(u64),
    /// The harvester now knows so many plots.
    SetTotalPlots(i64),
}

/// One change to the metrics, with its level as a sequence of characters.
pub ghost enum UpdateView {
    /// One more line of this level was parsed.
    CountLine(Seq<char>),
    /// One more harvest report was seen.
    CountHarvesterEvent,
    /// So many more plots were eligible.
    AddEligible(u64),
    /// So many more proofs were found.
    AddProofs(u64),
    /// The harvester now knows so many plots.
    SetTotalPlots(i64),
}

impl View for MetricUpdate {
    type V = UpdateView;

    open spec fn view(&self) -> UpdateView {
        match self {
            MetricUpdate::CountLine(level) => UpdateView::CountLine(level@),
            MetricUpdate::CountHarvesterEvent => UpdateView::CountHarvesterEvent,
            MetricUpdate::AddEligible(n) => UpdateView::AddEligible(*n),
            MetricUpdate::AddProofs(n) => UpdateView::AddProofs(*n),
            MetricUpdate::SetTotalPlots(n) => UpdateView::SetTotalPlots(*n),
        }
    }
}

/// The views of a list of changes, in order.
pub open spec fn update_views(updates: Seq<MetricUpdate>) -> Seq<UpdateView> {
    Seq::new(updates.len(), |i: int| updates[i]@)
}

/// The changes that one harvest report brings, in the order in which they
/// are made.
pub open spec fn event_updates(event: HarvestEvent) -> Seq<UpdateView> {
    seq![
        UpdateView::CountHarvesterEvent,
        UpdateView::AddEligible(event.eligible_plots),
        UpdateView::AddProofs(event.proofs_found),
        UpdateView::SetTotalPlots(event.total_plots),
    ]
}

/// A counter after `n` was added to it. A counter never goes back: where the
/// sum is more than it can hold, it stays at the most it can hold.
pub open spec fn raised(count: u64, n: u64) -> u64 {
    if count + n <= u64::MAX {
        (count + n) as u64
    } else {
        u64::MAX
    }
}

/// How many lines of one level were parsed.
#[derive(Debug)]
pub struct LevelCount {
    pub level: String,
    pub count: u64,
}

/// The count that a list of level counts holds for each level. Where a level
/// stands twice, the later one counts.
pub open spec fn counts_of(lines: Seq<LevelCount>) -> Map<Seq<char>, u64>
    decreases lines.len(),
{
    if lines.len() == 0 {
        Map::empty()
    } else {
        counts_of(lines.drop_last()).insert(lines.last().level@, lines.last().count)
    }
}

/// No level stands twice in the list.
pub open spec fn distinct_levels(lines: Seq<LevelCount>) -> bool {
    forall|i: int, j: int|
        0 <= i < j < lines.len() ==> (#[trigger] lines[i]).level@ != (#[trigger] lines[j]).level@
}

/// What the metrics hold.
pub ghost struct SinkView {
    /// The number of parsed lines of each level that was seen.
    pub lines: Map<Seq<char>, u64>,
    pub harvester_events: u64,
    pub plots_eligible: u64,
    pub plots_proofs: u64,
    pub plots_total: i64,
}

impl SinkView {
    /// The metrics before anything was seen.
    pub open spec fn empty() -> SinkView {
        SinkView {
            lines: Map::empty(),
            harvester_events: 0,
            plots_eligible: 0,
            plots_proofs: 0,
            plots_total: 0,
        }
    }

    /// The number of parsed lines of a level; zero for a level never seen.
    pub open spec fn line_count(self, level: Seq<char>) -> u64 {
        if self.lines.contains_key(level) {
            self.lines[level]
        } else {
            0
        }
    }

    /// The metrics after one change.
    pub open spec fn apply(self, update: UpdateView) -> SinkView {
        match update {
            UpdateView::CountLine(level) => SinkView {
                lines: self.lines.insert(level, raised(self.line_count(level), 1)),
                ..self
            },
            UpdateView::CountHarvesterEvent => SinkView {
                harvester_events: raised(self.harvester_events, 1),
                ..self
            },
            UpdateView::AddEligible(n) => SinkView {
                plots_eligible: raised(self.plots_eligible, n),
                ..self
            },
            UpdateView::AddProofs(n) => SinkView {
                plots_proofs: raised(self.plots_proofs, n),
                ..self
            },
            UpdateView::SetTotalPlots(n) => SinkView { plots_total: n, ..self },
        }
    }

    /// The metrics after a list of changes, made in order.
    pub open spec fn apply_all(self, updates: Seq<UpdateView>) -> SinkView
        decreases updates.len(),
    {
        if updates.len() == 0 {
            self
        } else {
            self.apply_all(updates.drop_last()).apply(updates.last())
        }
    }

    /// The metrics after one harvest report.
    pub open spec fn record(self, event: HarvestEvent) -> SinkView {
        self.apply_all(event_updates(event))
    }
}

/// A level that stands nowhere in the list has no count.
proof fn lemma_counts_absent(lines: Seq<LevelCount>, level: Seq<char>)
    requires
        forall|i: int| 0 <= i < lines.len() ==> (#[trigger] lines[i]).level@ != level,
    ensures
        !counts_of(lines).contains_key(level),
    decreases lines.len(),
{
    if lines.len() > 0 {
        assert(lines.last().level@ != level);
        lemma_counts_absent(lines.drop_last(), level);
    }
}

/// Where no level stands twice, each level has the count that stands with
/// it.
proof fn lemma_counts_at(lines: Seq<LevelCount>, i: int)
    requires
        distinct_levels(lines),
        0 <= i < lines.len(),
    ensures
        counts_of(lines).contains_key(lines[i].level@),
        counts_of(lines)[lines[i].level@] == lines[i].count,
    decreases lines.len(),
{
    if i < lines.len() - 1 {
        assert(lines[i].level@ != lines.last().level@);
        assert(lines.drop_last()[i] == lines[i]);
        lemma_counts_at(lines.drop_last(), i);
    }
}

/// Replacing the count of a level in the list replaces it among the counts.
proof fn lemma_counts_update(lines: Seq<LevelCount>, i: int, entry: LevelCount)
    requires
        distinct_levels(lines),
        0 <= i < lines.len(),
        entry.level@ == lines[i].level@,
    ensures
        distinct_levels(lines.update(i, entry)),
        counts_of(lines.update(i, entry)) == counts_of(lines).insert(entry.level@, entry.count),
    decreases lines.len(),
{
    let updated = lines.update(i, entry);
    assert forall|a: int, b: int| 0 <= a < b < updated.len() implies (#[trigger] updated[a]).level@
        != (#[trigger] updated[b]).level@ by {
        assert(updated[a].level@ == lines[a].level@);
        assert(updated[b].level@ == lines[b].level@);
    }
    if i == lines.len() - 1 {
        assert(updated.drop_last() =~= lines.drop_last());
        assert(counts_of(updated) =~= counts_of(lines).insert(entry.level@, entry.count));
    } else {
        assert(updated.drop_last() =~= lines.drop_last().update(i, entry));
        assert(lines.drop_last()[i] == lines[i]);
        assert(lines[i].level@ != lines.last().level@);
        lemma_counts_update(lines.drop_last(), i, entry);
        assert(counts_of(updated) =~= counts_of(lines).insert(entry.level@, entry.count));
    }
}

/// Adding a level that stands nowhere in the list adds it to the counts.
proof fn lemma_counts_push(lines: Seq<LevelCount>, entry: LevelCount)
    requires
        distinct_levels(lines),
        forall|i: int| 0 <= i < lines.len() ==> (#[trigger] lines[i]).level@ != entry.level@,
    ensures
        distinct_levels(lines.push(entry)),
        counts_of(lines.push(entry)) == counts_of(lines).insert(entry.level@, entry.count),
{
    assert(lines.push(entry).drop_last() =~= lines);
}

/// Adds `n` to a counter, which stays at the most it can hold where the sum
/// is more.
fn raise(count: u64, n: u64) -> (r: u64)
    ensures
        r == raised(count, n),
{
    if count > u64::MAX - n {
        u64::MAX
    } else {
        count + n
    }
}

/// The metrics of the watcher. Its counters only ever grow; its gauge holds
/// the value that was set last.
pub struct MetricsSink {
    lines: Vec<LevelCount>,
    harvester_events: u64,
    plots_eligible: u64,
    plots_proofs: u64,
    plots_total: i64,
}

/// A copy of all values of the metrics, as they stood at one moment.
#[derive(Debug)]
pub struct RenderableMetrics {
    /// The number of parsed lines per level, each level once.
    pub log_lines: Vec<LevelCount>,
    pub harvester_events: u64,
    pub plots_eligible: u64,
    pub plots_proofs: u64,
    pub plots_total: i64,
}

impl View for RenderableMetrics {
    type V = SinkView;

    open spec fn view(&self) -> SinkView {
        SinkView {
            lines: counts_of(self.log_lines@),
            harvester_events: self.harvester_events,
            plots_eligible: self.plots_eligible,
            plots_proofs: self.plots_proofs,
            plots_total: self.plots_total,
        }
    }
}

impl View for MetricsSink {
    type V = SinkView;

    closed spec fn view(&self) -> SinkView {
        SinkView {
            lines: counts_of(self.lines@),
            harvester_events: self.harvester_events,
            plots_eligible: self.plots_eligible,
            plots_proofs: self.plots_proofs,
            plots_total: self.plots_total,
        }
    }
}

impl MetricsSink {
    #[verifier::type_invariant]
    spec fn no_level_twice(self) -> bool {
        distinct_levels(self.lines@)
    }

    /// Metrics that have seen nothing yet: no level, and zero everywhere.
    pub fn new() -> (sink: MetricsSink)
        ensures
            sink@ == SinkView::empty(),
    {
        MetricsSink {
            lines: Vec::new(),
            harvester_events: 0,
            plots_eligible: 0,
            plots_proofs: 0,
            plots_total: 0,
        }
    }

    /// Counts one more parsed line of the given level. A level seen for the
    /// first time starts from zero.
    pub fn increment_line_count(&mut self, level: &str)
        ensures
            final(self)@ == old(self)@.apply(UpdateView::CountLine(level@)),
    {
        proof {
            use_type_invariant(&*self);
        }
        let ghost before = *self;
        let mut lines: Vec<LevelCount> = Vec::new();
        std::mem::swap(&mut self.lines, &mut lines);
        let wanted: String = level.to_owned();
        let mut i: usize = 0;
        while i < lines.len() && lines[i].level != wanted
            invariant
                i <= lines.len(),
                wanted@ == level@,
                forall|j: int| 0 <= j < i ==> (#[trigger] lines@[j]).level@ != level@,
            decreases lines.len() - i,
        {
            i += 1;
        }
        if i < lines.len() {
            let count: u64 = raise(lines[i].count, 1);
            proof {
                lemma_counts_at(lines@, i as int);
                lemma_counts_update(
                    lines@,
                    i as int,
                    LevelCount { level: lines@[i as int].level, count },
                );
            }
            lines[i].count = count;
            assert(lines@ == before.lines@.update(
                i as int,
                LevelCount { level: before.lines@[i as int].level, count },
            ));
        } else {
            let entry = LevelCount { level: wanted, count: 1 };
            proof {
                lemma_counts_absent(lines@, level@);
                lemma_counts_push(lines@, entry);
            }
            lines.push(entry);
        }
        self.lines = lines;
    }

    /// Counts one more harvest report.
    pub fn increment_harvester_events(&mut self)
        ensures
            final(self)@ == old(self)@.apply(UpdateView::CountHarvesterEvent),
    {
        proof {
            use_type_invariant(&*self);
        }
        self.harvester_events = raise(self.harvester_events, 1);
    }

    /// Adds `n` to the number of eligible plots.
    pub fn increment_eligible(&mut self, n: u64)
        ensures
            final(self)@ == old(self)@.apply(UpdateView::AddEligible(n)),
    {
        proof {
            use_type_invariant(&*self);
        }
        self.plots_eligible = raise(self.plots_eligible, n);
    }

    /// Adds `n` to the number of proofs.
    pub fn increment_proofs(&mut self, n: u64)
        ensures
            final(self)@ == old(self)@.apply(UpdateView::AddProofs(n)),
    {
        proof {
            use_type_invariant(&*self);
        }
        self.plots_proofs = raise(self.plots_proofs, n);
    }

    /// Sets the total number of plots, whatever it was.
    pub fn set_total_plots(&mut self, n: i64)
        ensures
            final(self)@ == old(self)@.apply(UpdateView::SetTotalPlots(n)),
    {
        proof {
            use_type_invariant(&*self);
        }
        self.plots_total = n;
    }

    /// How many lines of the given level were parsed.
    pub fn line_count(&self, level: &str) -> (r: u64)
        ensures
            r == self@.line_count(level@),
    {
        proof {
            use_type_invariant(self);
        }
        let wanted: String = level.to_owned();
        let mut i: usize = 0;
        while i < self.lines.len() && self.lines[i].level != wanted
            invariant
                i <= self.lines.len(),
                wanted@ == level@,
                forall|j: int| 0 <= j < i ==> (#[trigger] self.lines@[j]).level@ != level@,
            decreases self.lines.len() - i,
        {
            i += 1;
        }
        if i < self.lines.len() {
            proof {
                lemma_counts_at(self.lines@, i as int);
            }
            self.lines[i].count
        } else {
            proof {
                lemma_counts_absent(self.lines@, level@);
            }
            0
        }
    }

    /// How many harvest reports were seen.
    pub fn harvester_events(&self) -> (r: u64)
        ensures
            r == self@.harvester_events,
    {
        self.harvester_events
    }

    /// How many plots were eligible, over all harvest reports.
    pub fn plots_eligible(&self) -> (r: u64)
        ensures
            r == self@.plots_eligible,
    {
        self.plots_eligible
    }

    /// How many proofs were found, over all harvest reports.
    pub fn plots_proofs(&self) -> (r: u64)
        ensures
            r == self@.plots_proofs,
    {
        self.plots_proofs
    }

    /// The total number of plots that was reported last.
    pub fn plots_total(&self) -> (r: i64)
        ensures
            r == self@.plots_total,
    {
        self.plots_total
    }

    /// Copies out all values as they stand, each level once.
    pub fn snapshot(&self) -> (r: RenderableMetrics)
        ensures
            r@ == self@,
            distinct_levels(r.log_lines@),
    {
        proof {
            use_type_invariant(self);
        }
        let mut log_lines: Vec<LevelCount> = Vec::new();
        let mut i: usize = 0;
        while i < self.lines.len()
            invariant
                i <= self.lines.len(),
                log_lines@ == self.lines@.take(i as int),
            decreases self.lines.len() - i,
        {
            let entry = LevelCount { level: self.lines[i].level.clone(), count: self.lines[i].count };
            log_lines.push(entry);
            assert(log_lines@ =~= self.lines@.take(i + 1));
            i += 1;
        }
        assert(log_lines@ =~= self.lines@);
        RenderableMetrics {
            log_lines,
            harvester_events: self.harvester_events,
            plots_eligible: self.plots_eligible,
            plots_proofs: self.plots_proofs,
            plots_total: self.plots_total,
        }
    }

    /// Makes one change.
    pub fn apply(&mut self, update: &MetricUpdate)
        ensures
            final(self)@ == old(self)@.apply(update@),
    {
        match update {
            MetricUpdate::CountLine(level) => self.increment_line_count(level.as_str()),
            MetricUpdate::CountHarvesterEvent => self.increment_harvester_events(),
            MetricUpdate::AddEligible(n) => self.increment_eligible(*n),
            MetricUpdate::AddProofs(n) => self.increment_proofs(*n),
            MetricUpdate::SetTotalPlots(n) => self.set_total_plots(*n),
        }
    }

    /// Makes a list of changes, in order.
    pub fn apply_all(&mut self, updates: &[MetricUpdate])
        ensures
            final(self)@ == old(self)@.apply_all(update_views(updates@)),
    {
        let mut i: usize = 0;
        while i < updates.len()
            invariant
                i <= updates.len(),
                self@ == old(self)@.apply_all(update_views(updates@.take(i as int))),
            decreases updates.len() - i,
        {
            proof {
                let next = update_views(updates@.take(i + 1));
                assert(next.drop_last() =~= update_views(updates@.take(i as int)));
                assert(next.last() == updates@[i as int]@);
            }
            self.apply(&updates[i]);
            i += 1;
        }
        assert(updates@.take(updates.len() as int) =~= updates@);
    }

    /// Takes in one harvest report: one more event, its eligible plots and
    /// its proofs on top of what was counted, and its total in place of the
    /// one before.
    pub fn record(&mut self, event: &HarvestEvent)
        ensures
            final(self)@ == old(self)@.record(*event),
    {
        proof {
            lemma_record_steps(self@, *event);
        }
        self.increment_harvester_events();
        self.increment_eligible(event.eligible_plots);
        self.increment_proofs(event.proofs_found);
        self.set_total_plots(event.total_plots);
    }
}

/// A harvest report is taken in by four changes: the event is counted, the
/// eligible plots and the proofs are added, and the total is set.
pub proof fn lemma_record_steps(v: SinkView, event: HarvestEvent)
    ensures
        v.record(event) == v.apply(UpdateView::CountHarvesterEvent).apply(
            UpdateView::AddEligible(event.eligible_plots),
        ).apply(UpdateView::AddProofs(event.proofs_found)).apply(
            UpdateView::SetTotalPlots(event.total_plots),
        ),
{
    let four = event_updates(event);
    let three = four.drop_last();
    let two = three.drop_last();
    let one = two.drop_last();
    assert(one.drop_last() =~= Seq::<UpdateView>::empty());
    assert(v.apply_all(one.drop_last()) == v);
    assert(v.apply_all(one) == v.apply(UpdateView::CountHarvesterEvent));
    assert(v.apply_all(two) == v.apply_all(one).apply(
        UpdateView::AddEligible(event.eligible_plots),
    ));
    assert(v.apply_all(three) == v.apply_all(two).apply(
        UpdateView::AddProofs(event.proofs_found),
    ));
}

/// The metrics after a list of harvest reports, taken in order.
pub open spec fn after_events(v: SinkView, events: Seq<HarvestEvent>) -> SinkView
    decreases events.len(),
{
    if events.len() == 0 {
        v
    } else {
        after_events(v, events.drop_last()).record(events.last())
    }
}

/// The eligible plots of a list of harvest reports, added up.
pub open spec fn eligible_sum(events: Seq<HarvestEvent>) -> nat
    decreases events.len(),
{
    if events.len() == 0 {
        0
    } else {
        eligible_sum(events.drop_last()) + events.last().eligible_plots as nat
    }
}

/// The proofs of a list of harvest reports, added up.
pub open spec fn proofs_sum(events: Seq<HarvestEvent>) -> nat
    decreases events.len(),
{
    if events.len() == 0 {
        0
    } else {
        proofs_sum(events.drop_last()) + events.last().proofs_found as nat
    }
}

/// A sum as a counter holds it: itself, or the most that a counter can hold
/// where it is more.
pub open spec fn capped(sum: int) -> u64
    recommends
        0 <= sum,
{
    if sum <= u64::MAX {
        sum as u64
    } else {
        u64::MAX
    }
}

/// Counters add up: after a list of harvest reports the counters of eligible
/// plots and of proofs hold what they held plus the sums over the reports,
/// and the counter of events what it held plus the number of reports. Where
/// such a sum is more than a counter can hold, the counter holds the most it
/// can. The line counts are as they were.
pub proof fn lemma_counters_add_up(v: SinkView, events: Seq<HarvestEvent>)
    ensures
        after_events(v, events).plots_eligible == capped(v.plots_eligible + eligible_sum(events)),
        after_events(v, events).plots_proofs == capped(v.plots_proofs + proofs_sum(events)),
        after_events(v, events).harvester_events == capped(v.harvester_events + events.len()),
        after_events(v, events).lines == v.lines,
        v.plots_eligible + eligible_sum(events) <= u64::MAX ==> after_events(
            v,
            events,
        ).plots_eligible == v.plots_eligible + eligible_sum(events),
        v.plots_proofs + proofs_sum(events) <= u64::MAX ==> after_events(v, events).plots_proofs
            == v.plots_proofs + proofs_sum(events),
    decreases events.len(),
{
    if events.len() > 0 {
        lemma_counters_add_up(v, events.drop_last());
        lemma_record_steps(after_events(v, events.drop_last()), events.last());
    }
}

/// Counters never go back: whatever the change, no counter holds less after
/// it than before.
pub proof fn lemma_counters_never_decrease(v: SinkView, update: UpdateView)
    ensures
        v.apply(update).harvester_events >= v.harvester_events,
        v.apply(update).plots_eligible >= v.plots_eligible,
        v.apply(update).plots_proofs >= v.plots_proofs,
        forall|level: Seq<char>| #[trigger]
            v.apply(update).line_count(level) >= v.line_count(level),
{
}

/// No counter holds less after a harvest report than before it.
pub proof fn lemma_record_never_decreases(v: SinkView, event: HarvestEvent)
    ensures
        v.record(event).harvester_events >= v.harvester_events,
        v.record(event).plots_eligible >= v.plots_eligible,
        v.record(event).plots_proofs >= v.plots_proofs,
        v.record(event).lines == v.lines,
{
    lemma_record_steps(v, event);
}

/// The gauge holds what was set last: after a list of harvest reports the
/// total number of plots is that of the last report, whatever the others
/// said.
pub proof fn lemma_gauge_holds_last(v: SinkView, events: Seq<HarvestEvent>)
    requires
        events.len() > 0,
    ensures
        after_events(v, events).plots_total == events.last().total_plots,
{
    lemma_record_steps(after_events(v, events.drop_last()), events.last());
}

} // verus!