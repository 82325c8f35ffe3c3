use relay_bench::reporter::Report;
use relay_bench::reporter::Reporter;
use relay_bench::reporter::NANOS_PER_MILLI;
use relay_bench::reporter::NANOS_PER_SEC;
use relay_bench::reporter::REPORT_PERIOD_SECS;
use relay_bench::stats::ConnectionStats;
use relay_bench::stats::EventStats;

fn events_with(completed: usize, errored: usize) -> EventStats {
    EventStats { total: completed + 1, completed, errored, cumulative_round_trip_time: 0 }
}

#[test]
fn reporter_constants() {
    assert_eq!(REPORT_PERIOD_SECS, 2);
    assert_eq!(NANOS_PER_SEC, 1_000_000_000);
    assert_eq!(NANOS_PER_MILLI, 1_000_000);
    assert_eq!(Reporter::new(), Reporter { baseline: 0 });
}

#[test]
fn first_report_has_no_throughput() {
    let mut reporter = Reporter::new();
    let connections = ConnectionStats::new(100);
    let events = EventStats::new();
    assert!(reporter.can_follow(&events));
    let report = reporter.tick(&connections, &events, 1_234_567, 890);
    assert_eq!(
        report,
        Report { elapsed_ms: 1, events: 0, throughput: 0, done: false, next_in: Some(2) }
    );
    assert_eq!(reporter.baseline, 0);
}

#[test]
fn throughput_is_events_per_second_rounded_down() {
    let connections = ConnectionStats::new(100);

    let mut reporter = Reporter { baseline: 1000 };
    let report = reporter.tick(&connections, &events_with(4000, 0), 0, 2 * NANOS_PER_SEC);
    assert_eq!(report.events, 3000);
    assert_eq!(report.throughput, 1500);

    let mut reporter = Reporter { baseline: 0 };
    let report = reporter.tick(&connections, &events_with(7, 0), 0, 3 * NANOS_PER_SEC);
    assert_eq!(report.events, 7);
    assert_eq!(report.throughput, 2);

    let mut reporter = Reporter { baseline: 0 };
    let report = reporter.tick(&connections, &events_with(5, 0), 0, 2_500_000_000);
    assert_eq!(report.throughput, 2);

    let mut reporter = Reporter { baseline: 0 };
    let report = reporter.tick(&connections, &events_with(1, 0), 0, 2 * NANOS_PER_SEC);
    assert_eq!(report.throughput, 0);
}

#[test]
fn throughput_needs_more_than_one_second() {
    let connections = ConnectionStats::new(100);

    let mut reporter = Reporter::new();
    let report = reporter.tick(&connections, &events_with(1_000_000, 0), 0, NANOS_PER_SEC);
    assert_eq!(report.events, 1_000_000);
    assert_eq!(report.throughput, 0);

    let mut reporter = Reporter::new();
    let report = reporter.tick(&connections, &events_with(1_000_000, 0), 0, 0);
    assert_eq!(report.throughput, 0);

    let mut reporter = Reporter::new();
    let report = reporter.tick(&connections, &events_with(1_000_000, 0), 0, NANOS_PER_SEC + 1);
    assert_eq!(report.throughput, 999_999);
}

#[test]
fn failed_cycles_do_not_count() {
    let connections = ConnectionStats::new(100);
    let mut reporter = Reporter { baseline: 10 };
    let events = events_with(50, 20);
    assert!(reporter.can_follow(&events));
    let report = reporter.tick(&connections, &events, 0, 4 * NANOS_PER_SEC);
    assert_eq!(report.events, 20);
    assert_eq!(report.throughput, 5);
    assert_eq!(reporter.baseline, 30);
}

#[test]
fn baseline_moves_with_every_report() {
    let connections = ConnectionStats::new(100);
    let mut reporter = Reporter::new();
    let report = reporter.tick(&connections, &events_with(40, 0), 0, 0);
    assert_eq!(report.events, 40);
    assert_eq!(reporter.baseline, 40);
    let report = reporter.tick(&connections, &events_with(100, 0), 0, 2 * NANOS_PER_SEC);
    assert_eq!(report.events, 60);
    assert_eq!(report.throughput, 30);
    assert_eq!(reporter.baseline, 100);
    let report = reporter.tick(&connections, &events_with(100, 0), 0, 2 * NANOS_PER_SEC);
    assert_eq!(report.events, 0);
    assert_eq!(report.throughput, 0);
    assert_eq!(reporter.baseline, 100);
}

#[test]
fn run_is_over_when_every_connection_has_completed() {
    let events = EventStats::new();
    let mut connections = ConnectionStats::new(3);
    connections.completed = 2;
    let mut reporter = Reporter::new();
    let report = reporter.tick(&connections, &events, 0, 0);
    assert!(!report.done);
    assert_eq!(report.next_in, Some(REPORT_PERIOD_SECS));
    connections.completed = 3;
    let report = reporter.tick(&connections, &events, 0, 0);
    assert!(report.done);
    assert_eq!(report.next_in, None);
    // completion alone decides, also while a connection still counts as alive
    connections.alive = 1;
    assert!(reporter.tick(&connections, &events, 0, 0).done);
    let nothing_requested = ConnectionStats::new(0);
    assert!(reporter.tick(&nothing_requested, &events, 0, 0).done);
}

#[test]
fn elapsed_time_is_reported_in_whole_milliseconds() {
    let connections = ConnectionStats::new(1);
    let events = EventStats::new();
    let mut reporter = Reporter::new();
    assert_eq!(reporter.tick(&connections, &events, 0, 0).elapsed_ms, 0);
    assert_eq!(reporter.tick(&connections, &events, 999_999, 0).elapsed_ms, 0);
    assert_eq!(reporter.tick(&connections, &events, 1_000_000, 0).elapsed_ms, 1);
    assert_eq!(reporter.tick(&connections, &events, 2_000_999_999, 0).elapsed_ms, 2000);
    assert_eq!(
        reporter.tick(&connections, &events, u128::MAX, 0).elapsed_ms,
        u128::MAX / 1_000_000
    );
}

#[test]
fn a_snapshot_behind_the_baseline_cannot_follow() {
    let reporter = Reporter { baseline: 10 };
    assert!(reporter.can_follow(&events_with(10, 0)));
    assert!(reporter.can_follow(&events_with(11, 1)));
    assert!(!reporter.can_follow(&events_with(9, 0)));
    assert!(!reporter.can_follow(&events_with(10, 1)));
    assert!(!reporter.can_follow(&events_with(5, 6)));
    assert!(!Reporter::new().can_follow(&events_with(5, 6)));
}

#[test]
fn largest_interval_and_count_give_no_overflow() {
    let connections = ConnectionStats::new(1);
    let mut reporter = Reporter::new();
    let events = EventStats {
        total: usize::MAX,
        completed: usize::MAX,
        errored: 0,
        cumulative_round_trip_time: 0,
    };
    let report = reporter.tick(&connections, &events, 0, NANOS_PER_SEC + 1);
    assert_eq!(report.events, usize::MAX);
    assert_eq!(
        report.throughput as u128,
        (usize::MAX as u128) * 1_000_000_000 / 1_000_000_001
    );
    let mut reporter = Reporter::new();
    let report = reporter.tick(&connections, &events, 0, u128::MAX);
    assert_eq!(report.throughput, 0);
}
