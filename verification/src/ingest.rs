//! From lines to metrics: every parsed line is counted under its level, and
//! a harvest report changes the harvest metrics unless its line is dated
//! before the cutoff.

use vstd::prelude::*;
use crate::entry::{entry_of, EntryView, LogEntry};
use crate::harvest::{extract, harvest_of};
use crate::metrics::{event_updates, raised, update_views, MetricUpdate, MetricsSink, SinkView, UpdateView};
use crate::timestamp::Timestamp;

verus! {

/// The changes that an entry brings: its line is counted under its level,
/// and, unless it is dated before the cutoff, the harvest report in it, if
/// there is one, is taken in.
pub open spec fn entry_updates(entry: EntryView, cutoff: Timestamp) -> Seq<UpdateView> {
    let counted = seq![UpdateView::CountLine(entry.level)];
    if entry.date.millis < cutoff.millis {
        counted
    } else {
        match harvest_of(entry) {
            Some(event) => counted + event_updates(event),
            None => counted,
        }
    }
}

/// The changes that a line brings: none where it cannot be parsed.
pub open spec fn line_updates(line: Seq<char>, cutoff: Timestamp) -> Seq<UpdateView> {
    match entry_of(line) {
        Some(entry) => entry_updates(entry, cutoff),
        None => Seq::empty(),
    }
}

/// The texts of a list of lines.
pub open spec fn texts_of(lines: Seq<String>) -> Seq<Seq<char>> {
    Seq::new(lines.len(), |i: int| lines[i]@)
}

/// The metrics after a list of lines, taken in order.
pub open spec fn after_lines(v: SinkView, lines: Seq<Seq<char>>, cutoff: Timestamp) -> SinkView
    decreases lines.len(),
{
    if lines.len() == 0 {
        v
    } else {
        after_lines(v, lines.drop_last(), cutoff).apply_all(line_updates(lines.last(), cutoff))
    }
}

/// Making the changes of two lists one after the other is making the changes
/// of the two lists joined.
pub proof fn lemma_apply_joined(v: SinkView, first: Seq<UpdateView>, second: Seq<UpdateView>)
    ensures
        v.apply_all(first + second) == v.apply_all(first).apply_all(second),
    decreases second.len(),
{
    if second.len() == 0 {
        assert(first + second =~= first);
    } else {
        assert((first + second).drop_last() =~= first + second.drop_last());
        lemma_apply_joined(v, first, second.drop_last());
    }
}

/// Making a single change is making the list that holds it alone.
pub proof fn lemma_apply_single(v: SinkView, update: UpdateView)
    ensures
        v.apply_all(seq![update]) == v.apply(update),
{
    let one = seq![update];
    assert(one.drop_last() =~= Seq::<UpdateView>::empty());
    assert(v.apply_all(one.drop_last()) == v);
    assert(one.last() == update);
}

/// The cutoff gates harvest reports only: an entry dated before the cutoff
/// is counted under its level and changes nothing else, whatever its message
/// reports.
pub proof fn lemma_cutoff_gates(v: SinkView, entry: EntryView, cutoff: Timestamp)
    requires
        entry.date.millis < cutoff.millis,
    ensures
        ({
            let w = v.apply_all(entry_updates(entry, cutoff));
            &&& w.harvester_events == v.harvester_events
            &&& w.plots_eligible == v.plots_eligible
            &&& w.plots_proofs == v.plots_proofs
            &&& w.plots_total == v.plots_total
            &&& w.line_count(entry.level) == raised(v.line_count(entry.level), 1)
            &&& w == v.apply(UpdateView::CountLine(entry.level))
        }),
{
    lemma_apply_single(v, UpdateView::CountLine(entry.level));
}

/// An entry that is not dated before the cutoff is counted under its level,
/// and the harvest report in it, if there is one, is taken in after that.
pub proof fn lemma_after_cutoff(v: SinkView, entry: EntryView, cutoff: Timestamp)
    requires
        entry.date.millis >= cutoff.millis,
    ensures
        v.apply_all(entry_updates(entry, cutoff)) == match harvest_of(entry) {
            Some(event) => v.apply(UpdateView::CountLine(entry.level)).record(event),
            None => v.apply(UpdateView::CountLine(entry.level)),
        },
{
    lemma_apply_single(v, UpdateView::CountLine(entry.level));
    if harvest_of(entry) is Some {
        lemma_apply_joined(
            v,
            seq![UpdateView::CountLine(entry.level)],
            event_updates(harvest_of(entry)->0),
        );
    }
}

/// The changes that an entry brings, in the order in which they are to be
/// made.
pub fn updates_for_entry(entry: &LogEntry, cutoff: Timestamp) -> (r: Vec<MetricUpdate>)
    ensures
        update_views(r@) == entry_updates(entry@, cutoff),
{
    let mut updates: Vec<MetricUpdate> = Vec::new();
    updates.push(MetricUpdate::CountLine(entry.level.clone()));
    if !entry.date.is_before(&cutoff) {
        match extract(entry) {
            Some(event) => {
                updates.push(MetricUpdate::CountHarvesterEvent);
                updates.push(MetricUpdate::AddEligible(event.eligible_plots));
                updates.push(MetricUpdate::AddProofs(event.proofs_found));
                updates.push(MetricUpdate::SetTotalPlots(event.total_plots));
            },
            None => {},
        }
    }
    assert(update_views(updates@) =~= entry_updates(entry@, cutoff));
    updates
}

/// The changes that a line brings, in the order in which they are to be
/// made. A line that cannot be parsed brings none.
pub fn updates_for_line(line: &str, cutoff: Timestamp) -> (r: Vec<MetricUpdate>)
    ensures
        update_views(r@) == line_updates(line@, cutoff),
{
    match LogEntry::parse_str(line) {
        Some(entry) => updates_for_entry(&entry, cutoff),
        None => {
            let updates: Vec<MetricUpdate> = Vec::new();
            assert(update_views(updates@) =~= Seq::<UpdateView>::empty());
            updates
        },
    }
}

/// Takes the harvest report of an entry into the metrics, if the entry holds
/// one. Any other entry leaves the metrics as they are.
pub fn handle_log_entry(sink: &mut MetricsSink, entry: &LogEntry)
    ensures
        final(sink)@ == match harvest_of(entry@) {
            Some(event) => old(sink)@.record(event),
            None => old(sink)@,
        },
{
    match extract(entry) {
        Some(event) => sink.record(&event),
        None => {},
    }
}

/// Takes one entry into the metrics: its line is counted whatever its date,
/// its harvest report only if it is not dated before the cutoff.
pub fn ingest_entry(sink: &mut MetricsSink, entry: &LogEntry, cutoff: Timestamp)
    ensures
        final(sink)@ == old(sink)@.apply_all(entry_updates(entry@, cutoff)),
{
    proof {
        let counted = seq![UpdateView::CountLine(entry.level@)];
        lemma_apply_single(sink@, UpdateView::CountLine(entry.level@));
        if harvest_of(entry@) is Some {
            lemma_apply_joined(sink@, counted, event_updates(harvest_of(entry@)->0));
        }
    }
    sink.increment_line_count(entry.level.as_str());
    if entry.date.is_before(&cutoff) {
        return;
    }
    handle_log_entry(sink, entry);
}

/// Takes one line of the log into the metrics. A line that cannot be parsed
/// changes nothing.
pub fn ingest_line(sink: &mut MetricsSink, line: &str, cutoff: Timestamp)
    ensures
        final(sink)@ == old(sink)@.apply_all(line_updates(line@, cutoff)),
{
    match LogEntry::parse_str(line) {
        Some(entry) => ingest_entry(sink, &entry, cutoff),
        None => {},
    }
}

/// Takes a list of lines into the metrics, in order.
pub fn ingest_lines(sink: &mut MetricsSink, lines: &[String], cutoff: Timestamp)
    ensures
        final(sink)@ == after_lines(old(sink)@, texts_of(lines@), cutoff),
{
    let ghost texts = texts_of(lines@);
    let mut i: usize = 0;
    while i < lines.len()
        invariant
            i <= lines.len(),
            texts == texts_of(lines@),
            sink@ == after_lines(old(sink)@, texts.take(i as int), cutoff),
        decreases lines.len() - i,
    {
        proof {
            let next = texts.take(i + 1);
            assert(next.drop_last() =~= texts.take(i as int));
            assert(next.last() == lines@[i as int]@);
        }
        ingest_line(sink, lines[i].as_str(), cutoff);
        i += 1;
    }
    assert(texts.take(lines.len() as int) =~= texts);
}

} // verus!
