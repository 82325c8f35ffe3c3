use relay_bench::error::Error;
use relay_bench::lifecycle::wait_bound;
use relay_bench::lifecycle::wait_result;
use relay_bench::lifecycle::Bound;
use relay_bench::lifecycle::ConnAction;
use relay_bench::lifecycle::ConnEvent;
use relay_bench::lifecycle::Lifecycle;
use relay_bench::lifecycle::Outcome;
use relay_bench::lifecycle::Phase;
use relay_bench::lifecycle::Race;
use relay_bench::request_loop::LoopEnd;
use relay_bench::stats::ConnUpdate;
use relay_bench::stats::ConnectionStats;

#[test]
fn launch_starts_connecting_and_counts_the_attempt() {
    let (driver, update) = Lifecycle::launch(600);
    assert_eq!(driver, Lifecycle { keepalive: 600, phase: Phase::Connecting });
    assert_eq!(update, ConnUpdate::Attempt);
    assert!(!driver.is_terminated());
}

#[test]
fn healthy_connection_is_closed_by_the_keepalive() {
    let (mut driver, _) = Lifecycle::launch(30);
    let action = driver.step(ConnEvent::Established { elapsed: 2_000, latency: 500 });
    assert_eq!(
        action,
        ConnAction::Record(ConnUpdate::Established { elapsed: 2_000, latency: 500 })
    );
    assert_eq!(driver.phase, Phase::Connected);
    let action = driver.step(ConnEvent::LoopEntered);
    assert_eq!(action, ConnAction::Serve(Bound::Within(30)));
    assert_eq!(driver.phase, Phase::Running);
    let action = driver.step(ConnEvent::Waited(wait_result(Race::Deadline)));
    assert_eq!(action, ConnAction::Record(ConnUpdate::Closed));
    assert_eq!(driver.phase, Phase::Terminated(Outcome::Closed));
    assert!(driver.is_terminated());
}

#[test]
fn loop_that_ends_by_itself_is_lost_even_with_keepalive() {
    for end in [LoopEnd::CloseFrame, LoopEnd::StreamEnded, LoopEnd::Failed] {
        let (mut driver, _) = Lifecycle::launch(30);
        driver.step(ConnEvent::Established { elapsed: 1, latency: 1 });
        driver.step(ConnEvent::LoopEntered);
        let action = driver.step(ConnEvent::Waited(wait_result(Race::Finished(end))));
        assert_eq!(action, ConnAction::Record(ConnUpdate::Lost));
        assert_eq!(driver.phase, Phase::Terminated(Outcome::Lost));
    }
}

#[test]
fn without_keepalive_nothing_is_classified_closed() {
    let waits = [
        Ok(()),
        Err(Error::Lost),
        Err(Error::AliveTimeout),
        Err(Error::ConnectFailed),
    ];
    for waited in waits {
        let (mut driver, _) = Lifecycle::launch(0);
        driver.step(ConnEvent::Established { elapsed: 1, latency: 1 });
        assert_eq!(driver.step(ConnEvent::LoopEntered), ConnAction::Serve(Bound::Unbounded));
        let action = driver.step(ConnEvent::Waited(waited));
        assert_eq!(action, ConnAction::Record(ConnUpdate::Lost));
        assert_eq!(driver.phase, Phase::Terminated(Outcome::Lost));
    }
    let (mut driver, _) = Lifecycle::launch(0);
    let action = driver.step(ConnEvent::Refused { elapsed: 5 });
    assert_eq!(action, ConnAction::Record(ConnUpdate::Refused { elapsed: 5 }));
    assert_eq!(driver.phase, Phase::Terminated(Outcome::Error));
}

#[test]
fn refused_connection_goes_straight_to_error() {
    let (mut driver, _) = Lifecycle::launch(600);
    let action = driver.step(ConnEvent::Refused { elapsed: 9_000 });
    assert_eq!(action, ConnAction::Record(ConnUpdate::Refused { elapsed: 9_000 }));
    assert_eq!(driver.phase, Phase::Terminated(Outcome::Error));
    assert!(driver.is_terminated());
}

#[test]
fn reports_that_do_not_fit_the_phase_change_nothing() {
    let (mut driver, _) = Lifecycle::launch(10);
    assert_eq!(driver.step(ConnEvent::LoopEntered), ConnAction::Ignore);
    assert_eq!(driver.step(ConnEvent::Waited(Ok(()))), ConnAction::Ignore);
    assert_eq!(driver.phase, Phase::Connecting);

    driver.step(ConnEvent::Established { elapsed: 1, latency: 1 });
    assert_eq!(driver.step(ConnEvent::Established { elapsed: 2, latency: 2 }), ConnAction::Ignore);
    assert_eq!(driver.step(ConnEvent::Refused { elapsed: 2 }), ConnAction::Ignore);
    assert_eq!(driver.step(ConnEvent::Waited(Err(Error::AliveTimeout))), ConnAction::Ignore);
    assert_eq!(driver.phase, Phase::Connected);

    driver.step(ConnEvent::LoopEntered);
    assert_eq!(driver.step(ConnEvent::LoopEntered), ConnAction::Ignore);
    assert_eq!(driver.step(ConnEvent::Refused { elapsed: 2 }), ConnAction::Ignore);
    assert_eq!(driver.phase, Phase::Running);

    driver.step(ConnEvent::Waited(Err(Error::AliveTimeout)));
    let over = driver;
    assert_eq!(driver.step(ConnEvent::Waited(Err(Error::AliveTimeout))), ConnAction::Ignore);
    assert_eq!(driver.step(ConnEvent::Established { elapsed: 1, latency: 1 }), ConnAction::Ignore);
    assert_eq!(driver.step(ConnEvent::LoopEntered), ConnAction::Ignore);
    assert_eq!(driver, over);
}

#[test]
fn keepalive_of_zero_means_no_bound() {
    assert_eq!(wait_bound(0), Bound::Unbounded);
    assert_eq!(wait_bound(1), Bound::Within(1));
    assert_eq!(wait_bound(600), Bound::Within(600));
    assert_eq!(wait_bound(u64::MAX), Bound::Within(u64::MAX));
}

#[test]
fn each_race_has_its_result() {
    assert_eq!(wait_result(Race::Deadline), Err(Error::AliveTimeout));
    assert_eq!(wait_result(Race::Finished(LoopEnd::Failed)), Err(Error::Lost));
    assert_eq!(wait_result(Race::Finished(LoopEnd::CloseFrame)), Ok(()));
    assert_eq!(wait_result(Race::Finished(LoopEnd::StreamEnded)), Ok(()));
}

#[test]
fn alive_is_decremented_exactly_once_for_a_closed_connection() {
    let mut stats = ConnectionStats::new(1);
    let (mut driver, update) = Lifecycle::launch(5);
    assert!(stats.apply(update));
    let events = vec![
        ConnEvent::Established { elapsed: 100, latency: 40 },
        ConnEvent::LoopEntered,
        ConnEvent::Waited(Err(Error::AliveTimeout)),
        // reported again, by mistake: nothing more may be counted
        ConnEvent::Waited(Err(Error::AliveTimeout)),
        ConnEvent::Waited(Ok(())),
    ];
    let mut decrements: usize = 0;
    let mut increments: usize = 0;
    for event in events {
        match driver.step(event) {
            ConnAction::Record(update) => {
                match update {
                    ConnUpdate::Closed | ConnUpdate::Lost => decrements += 1,
                    ConnUpdate::Established { .. } => increments += 1,
                    _ => {}
                }
                assert!(stats.apply(update));
            }
            _ => {}
        }
    }
    assert_eq!(increments, 1);
    assert_eq!(decrements, 1);
    assert_eq!(
        stats,
        ConnectionStats {
            total: 1,
            connecting: 1,
            alive: 0,
            closed: 1,
            lost: 0,
            errored: 0,
            completed: 1,
            elapsed_since_run_start: 100,
            cumulative_time_to_first_success: 40,
        }
    );
}

#[test]
fn a_refused_connection_never_touches_alive() {
    let mut stats = ConnectionStats::new(1);
    let (mut driver, update) = Lifecycle::launch(5);
    assert!(stats.apply(update));
    let events = vec![
        ConnEvent::Refused { elapsed: 7 },
        ConnEvent::LoopEntered,
        ConnEvent::Waited(Err(Error::AliveTimeout)),
    ];
    for event in events {
        if let ConnAction::Record(update) = driver.step(event) {
            assert!(stats.apply(update));
        }
    }
    assert_eq!((stats.alive, stats.errored, stats.completed), (0, 1, 1));
    assert_eq!((stats.closed, stats.lost), (0, 0));
}

#[test]
fn each_ending_is_signalled_by_its_error_kind() {
    let (mut driver, _) = Lifecycle::launch(5);
    assert_eq!(driver.signaled(), None);
    driver.step(ConnEvent::Refused { elapsed: 1 });
    assert_eq!(driver.signaled(), Some(Error::ConnectFailed));

    let (mut driver, _) = Lifecycle::launch(5);
    driver.step(ConnEvent::Established { elapsed: 1, latency: 1 });
    assert_eq!(driver.signaled(), None);
    driver.step(ConnEvent::LoopEntered);
    assert_eq!(driver.signaled(), None);
    driver.step(ConnEvent::Waited(Err(Error::AliveTimeout)));
    assert_eq!(driver.signaled(), Some(Error::AliveTimeout));

    let (mut driver, _) = Lifecycle::launch(5);
    driver.step(ConnEvent::Established { elapsed: 1, latency: 1 });
    driver.step(ConnEvent::LoopEntered);
    driver.step(ConnEvent::Waited(Ok(())));
    assert_eq!(driver.signaled(), Some(Error::Lost));
}
