use chia_harvester_watcher::harvest::HarvestEvent;
use chia_harvester_watcher::metrics::{
    MetricUpdate, MetricsSink, HARVESTER_EVENTS_TOTAL, HARVESTER_PLOTS_ELIGIBLE,
    HARVESTER_PLOTS_PROOFS, HARVESTER_PLOTS_TOTAL, LEVEL_LABEL, LOG_LINES,
};

fn event(eligible_plots: u64, proofs_found: u64, total_plots: i64) -> HarvestEvent {
    HarvestEvent { eligible_plots, proofs_found, total_plots }
}

fn harvest(sink: &MetricsSink) -> (u64, u64, u64, i64) {
    (sink.harvester_events(), sink.plots_eligible(), sink.plots_proofs(), sink.plots_total())
}

#[test]
fn a_new_sink_holds_nothing() {
    let sink = MetricsSink::new();
    assert_eq!(harvest(&sink), (0, 0, 0, 0));
    assert_eq!(sink.line_count("INFO"), 0);
    let snapshot = sink.snapshot();
    assert!(snapshot.log_lines.is_empty());
    assert_eq!(snapshot.harvester_events, 0);
    assert_eq!(snapshot.plots_eligible, 0);
    assert_eq!(snapshot.plots_proofs, 0);
    assert_eq!(snapshot.plots_total, 0);
}

#[test]
fn counters_add_up_and_never_go_back() {
    let events = [event(5, 1, 100), event(0, 0, 90), event(512, 3, 9001), event(7, 2, 3)];
    let mut sink = MetricsSink::new();
    let mut eligible = 0;
    let mut proofs = 0;
    for (i, e) in events.iter().enumerate() {
        let before = harvest(&sink);
        sink.record(e);
        eligible += e.eligible_plots;
        proofs += e.proofs_found;
        let after = harvest(&sink);
        assert!(after.0 >= before.0 && after.1 >= before.1 && after.2 >= before.2);
        assert_eq!(after, (i as u64 + 1, eligible, proofs, e.total_plots));
    }
    assert_eq!(harvest(&sink), (4, 524, 6, 3));
}

#[test]
fn the_gauge_holds_the_last_total() {
    let mut sink = MetricsSink::new();
    for total in [10, 9001, 3, 0, 42, 41] {
        sink.record(&event(1, 1, total));
        assert_eq!(sink.plots_total(), total);
    }
    sink.set_total_plots(-5);
    assert_eq!(sink.plots_total(), -5);
    sink.set_total_plots(i64::MAX);
    assert_eq!(sink.plots_total(), i64::MAX);
    assert_eq!(sink.harvester_events(), 6);
}

#[test]
fn each_operation_changes_its_own_metric() {
    let mut sink = MetricsSink::new();
    sink.increment_harvester_events();
    assert_eq!(harvest(&sink), (1, 0, 0, 0));
    sink.increment_eligible(512);
    assert_eq!(harvest(&sink), (1, 512, 0, 0));
    sink.increment_proofs(3);
    assert_eq!(harvest(&sink), (1, 512, 3, 0));
    sink.set_total_plots(9001);
    assert_eq!(harvest(&sink), (1, 512, 3, 9001));
    sink.increment_eligible(0);
    sink.increment_proofs(0);
    assert_eq!(harvest(&sink), (1, 512, 3, 9001));
    assert!(sink.snapshot().log_lines.is_empty());
    sink.increment_line_count("INFO");
    assert_eq!(harvest(&sink), (1, 512, 3, 9001));
    assert_eq!(sink.line_count("INFO"), 1);
}

#[test]
fn counters_stay_at_the_most_they_can_hold() {
    let mut sink = MetricsSink::new();
    sink.increment_eligible(u64::MAX - 1);
    sink.increment_eligible(1);
    assert_eq!(sink.plots_eligible(), u64::MAX);
    sink.increment_eligible(1);
    assert_eq!(sink.plots_eligible(), u64::MAX);
    sink.increment_proofs(u64::MAX);
    sink.increment_proofs(u64::MAX);
    assert_eq!(sink.plots_proofs(), u64::MAX);
    sink.record(&event(3, 4, 5));
    assert_eq!(harvest(&sink), (1, u64::MAX, u64::MAX, 5));
}

#[test]
fn lines_are_counted_per_level() {
    let mut sink = MetricsSink::new();
    for level in ["INFO", "WARNING", "INFO", "ERROR", "INFO", "WARNING", "", "info"] {
        sink.increment_line_count(level);
    }
    assert_eq!(sink.line_count("INFO"), 3);
    assert_eq!(sink.line_count("WARNING"), 2);
    assert_eq!(sink.line_count("ERROR"), 1);
    assert_eq!(sink.line_count(""), 1);
    assert_eq!(sink.line_count("info"), 1);
    assert_eq!(sink.line_count("DEBUG"), 0);
    assert_eq!(sink.line_count("INF"), 0);
    assert_eq!(harvest(&sink), (0, 0, 0, 0));
}

#[test]
fn a_snapshot_copies_every_value() {
    let mut sink = MetricsSink::new();
    sink.increment_line_count("INFO");
    sink.increment_line_count("ERROR");
    sink.increment_line_count("INFO");
    sink.record(&event(512, 3, 9001));
    let snapshot = sink.snapshot();
    let mut lines: Vec<(String, u64)> =
        snapshot.log_lines.iter().map(|l| (l.level.clone(), l.count)).collect();
    lines.sort();
    assert_eq!(lines, vec![("ERROR".to_string(), 1), ("INFO".to_string(), 2)]);
    assert_eq!(snapshot.harvester_events, 1);
    assert_eq!(snapshot.plots_eligible, 512);
    assert_eq!(snapshot.plots_proofs, 3);
    assert_eq!(snapshot.plots_total, 9001);
    sink.increment_line_count("INFO");
    sink.record(&event(1, 1, 1));
    assert_eq!(snapshot.log_lines.len(), 2);
    assert_eq!(snapshot.plots_total, 9001);
    assert_eq!(sink.snapshot().plots_total, 1);
}

#[test]
fn changes_are_made_in_order() {
    let mut sink = MetricsSink::new();
    let updates = vec![
        MetricUpdate::CountLine("INFO".to_string()),
        MetricUpdate::CountHarvesterEvent,
        MetricUpdate::AddEligible(5),
        MetricUpdate::SetTotalPlots(7),
        MetricUpdate::AddProofs(2),
        MetricUpdate::SetTotalPlots(8),
        MetricUpdate::CountLine("INFO".to_string()),
        MetricUpdate::AddEligible(6),
    ];
    sink.apply_all(&updates);
    assert_eq!(harvest(&sink), (1, 11, 2, 8));
    assert_eq!(sink.line_count("INFO"), 2);
    sink.apply(&MetricUpdate::SetTotalPlots(1));
    assert_eq!(harvest(&sink), (1, 11, 2, 1));
    sink.apply_all(&[]);
    assert_eq!(harvest(&sink), (1, 11, 2, 1));
}

#[test]
fn metrics_have_their_names() {
    assert_eq!(LOG_LINES, "chia_log_lines");
    assert_eq!(LEVEL_LABEL, "level");
    assert_eq!(HARVESTER_EVENTS_TOTAL, "chia_harvester_events_total");
    assert_eq!(HARVESTER_PLOTS_ELIGIBLE, "chia_harvester_plots_eligible");
    assert_eq!(HARVESTER_PLOTS_PROOFS, "chia_harvester_plots_proofs");
    assert_eq!(HARVESTER_PLOTS_TOTAL, "chia_harvester_plots_total");
}
