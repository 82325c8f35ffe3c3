use relay_bench::error::Error;
use relay_bench::lifecycle::ConnAction;
use relay_bench::lifecycle::ConnEvent;
use relay_bench::lifecycle::Lifecycle;
use relay_bench::lifecycle::Outcome;
use relay_bench::lifecycle::Phase;
use relay_bench::reporter::Reporter;
use relay_bench::spawner::SpawnAction;
use relay_bench::spawner::Spawner;
use relay_bench::stats::ConnectionStats;
use relay_bench::stats::EventStats;

/// Plays a whole run in one thread: the spawner is stepped, and between its
/// steps the connections launched so far are moved on by one report each, in
/// an order drawn from `seed`. Connection `i` is refused where `i % 5 == 4`,
/// ends by itself where `i % 5 == 3`, and is otherwise ended by the deadline.
/// After every update `check` sees the statistics.
fn play_run(
    count: usize,
    rate: usize,
    keepalive: u64,
    mut seed: u64,
    check: &mut dyn FnMut(&ConnectionStats),
) -> (ConnectionStats, Vec<Lifecycle>) {
    let mut stats = ConnectionStats::new(count);
    let mut spawner = Spawner::new(count, rate, 0);
    let mut drivers: Vec<Lifecycle> = Vec::new();
    let mut spawning = true;
    loop {
        if spawning {
            match spawner.next() {
                SpawnAction::Launch { index, .. } => {
                    assert_eq!(index, drivers.len());
                    let (driver, update) = Lifecycle::launch(keepalive);
                    assert!(stats.apply(update));
                    check(&stats);
                    drivers.push(driver);
                }
                SpawnAction::Pause { .. } => {}
                SpawnAction::Done => spawning = false,
            }
        }
        let unfinished: Vec<usize> =
            (0..drivers.len()).filter(|i| !drivers[*i].is_terminated()).collect();
        if unfinished.is_empty() {
            if !spawning {
                break;
            }
            continue;
        }
        seed = seed.wrapping_mul(6364136223846793005).wrapping_add(1442695040888963407);
        let at = unfinished[((seed >> 33) as usize) % unfinished.len()];
        let event = match drivers[at].phase {
            Phase::Connecting => {
                if at % 5 == 4 {
                    ConnEvent::Refused { elapsed: seed as u128 }
                } else {
                    ConnEvent::Established { elapsed: seed as u128, latency: 1_000 }
                }
            }
            Phase::Connected => ConnEvent::LoopEntered,
            Phase::Running => {
                if at % 5 == 3 {
                    ConnEvent::Waited(Ok(()))
                } else {
                    ConnEvent::Waited(Err(Error::AliveTimeout))
                }
            }
            Phase::Terminated(_) => unreachable!(),
        };
        if let ConnAction::Record(update) = drivers[at].step(event) {
            assert!(stats.apply(update));
            check(&stats);
        }
    }
    (stats, drivers)
}

#[test]
fn completed_never_decreases_and_never_exceeds_total() {
    let mut last_completed: usize = 0;
    let mut seen: usize = 0;
    let (stats, _) = play_run(40, 7, 30, 11, &mut |stats: &ConnectionStats| {
        assert!(stats.completed >= last_completed);
        assert!(stats.completed <= stats.total);
        assert_eq!(stats.total, 40);
        last_completed = stats.completed;
        seen += 1;
    });
    assert_eq!(stats.completed, 40);
    // one update per launch, one per connect result, one per established connection's end
    assert_eq!(seen, 40 + 40 + 32);
}

#[test]
fn completed_is_the_sum_of_the_three_outcomes_at_the_end() {
    let (stats, drivers) = play_run(40, 7, 30, 99, &mut |stats: &ConnectionStats| {
        assert_eq!(stats.completed, stats.closed + stats.lost + stats.errored);
        assert!(stats.alive + stats.completed <= stats.connecting);
    });
    assert_eq!(stats.completed, stats.total);
    assert_eq!(stats.completed, stats.closed + stats.lost + stats.errored);
    assert_eq!(
        (stats.connecting, stats.alive, stats.closed, stats.lost, stats.errored),
        (40, 0, 24, 8, 8)
    );
    assert_eq!(stats.cumulative_time_to_first_success, 32_000);
    assert!(drivers.iter().all(|driver| driver.is_terminated()));
    let mut reporter = Reporter::new();
    assert!(reporter.tick(&stats, &EventStats::new(), 0, 0).done);
}

#[test]
fn a_run_without_keepalive_closes_nothing() {
    let (stats, drivers) = play_run(25, 4, 0, 5, &mut |stats: &ConnectionStats| {
        assert_eq!(stats.closed, 0);
    });
    assert_eq!(
        (stats.completed, stats.closed, stats.lost, stats.errored),
        (25, 0, 20, 5)
    );
    for driver in drivers.iter() {
        assert!(matches!(
            driver.phase,
            Phase::Terminated(Outcome::Lost) | Phase::Terminated(Outcome::Error)
        ));
    }
}

#[test]
fn a_run_of_nothing_is_over_at_once() {
    let (stats, drivers) = play_run(0, 0, 600, 1, &mut |_stats: &ConnectionStats| {
        panic!("no update is expected");
    });
    assert_eq!(stats, ConnectionStats::new(0));
    assert!(drivers.is_empty());
    let mut reporter = Reporter::new();
    assert!(reporter.tick(&stats, &EventStats::new(), 0, 0).done);
}

#[test]
fn the_reporter_sees_the_run_end_only_with_the_last_completion() {
    let mut reporter = Reporter::new();
    let events = EventStats::new();
    let mut reports_done: usize = 0;
    let mut reports: usize = 0;
    let (stats, _) = play_run(10, 3, 5, 3, &mut |stats: &ConnectionStats| {
        reports += 1;
        if reporter.tick(stats, &events, 0, 0).done {
            reports_done += 1;
            assert_eq!(stats.completed, 10);
        }
    });
    assert_eq!(stats.completed, 10);
    assert_eq!(reports_done, 1);
    assert_eq!(reports, 10 + 10 + 8);
}
