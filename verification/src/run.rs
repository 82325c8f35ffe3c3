//! A run as a whole: the spawner, the lifecycle of every launched connection
//! and the connection statistics, moved by the events of the run in whatever
//! order they come.
//!
//! Nothing here is executed. The model is built from the same specification
//! functions that the executable spawner, lifecycle driver and statistics are
//! proved against, and the laws of a run are proved of it.

use vstd::prelude::*;
use crate::lifecycle::ConnAction;
use crate::lifecycle::ConnEvent;
use crate::lifecycle::Lifecycle;
use crate::lifecycle::Outcome;
use crate::lifecycle::Phase;
use crate::reporter::run_over;
use crate::spawner::lemma_spawner_step;
use crate::spawner::lemma_start_wf;
use crate::spawner::SpawnAction;
use crate::spawner::SpawnerView;
use crate::stats::ConnUpdate;
use crate::stats::ConnectionCounts;

verus! {

/// One thing that happens in a run.
pub enum RunEvent {
    /// The spawner takes its next action; a launch starts a new connection
    /// and counts its attempt.
    Spawn,
    /// The driver of the connection launched as number `connection` is told
    /// of `event`, and the update it answers with is applied.
    Report { connection: int, event: ConnEvent },
}

/// A property of a connection that one of the counters counts.
pub enum Standing {
    /// Established and not yet ended.
    Alive,
    /// Over, however it ended.
    Completed,
    /// Ended by the keepalive deadline.
    Closed,
    /// Ended by the loop itself.
    Lost,
    /// Never established.
    Errored,
}

/// Whether a connection has the given standing.
pub open spec fn stands(driver: Lifecycle, standing: Standing) -> bool {
    match standing {
        Standing::Alive => driver.alive(),
        Standing::Completed => driver.terminated(),
        Standing::Closed => driver.phase == Phase::Terminated(Outcome::Closed),
        Standing::Lost => driver.phase == Phase::Terminated(Outcome::Lost),
        Standing::Errored => driver.phase == Phase::Terminated(Outcome::Error),
    }
}

/// How many of the connections have the given standing.
pub open spec fn tally(connections: Seq<Lifecycle>, standing: Standing) -> nat
    decreases connections.len(),
{
    if connections.len() == 0 {
        0
    } else {
        tally(connections.drop_last(), standing) + (if stands(connections.last(), standing) {
            1nat
        } else {
            0nat
        })
    }
}

/// The state of a run.
pub struct Run {
    /// Keepalive of every connection, in seconds; zero for none.
    pub keepalive: u64,
    /// The spawner.
    pub spawner: SpawnerView,
    /// The drivers of the connections launched so far, in launch order.
    pub connections: Seq<Lifecycle>,
    /// The connection statistics.
    pub stats: ConnectionCounts,
}

impl Run {
    /// The run before anything has happened.
    pub open spec fn start(count: nat, rate: nat, interfaces: nat, keepalive: u64) -> Run {
        Run {
            keepalive,
            spawner: SpawnerView::start(count, rate, interfaces),
            connections: Seq::empty(),
            stats: ConnectionCounts::fresh(count as int),
        }
    }

    /// The run after one event. A report for a connection that was not
    /// launched changes nothing.
    pub open spec fn step(self, event: RunEvent) -> Run {
        match event {
            RunEvent::Spawn => match self.spawner.next().1 {
                SpawnAction::Launch { .. } => Run {
                    spawner: self.spawner.next().0,
                    connections: self.connections.push(
                        Lifecycle { keepalive: self.keepalive, phase: Phase::Connecting },
                    ),
                    stats: self.stats.apply(ConnUpdate::Attempt),
                    ..self
                },
                _ => Run { spawner: self.spawner.next().0, ..self },
            },
            RunEvent::Report { connection, event } => {
                if 0 <= connection < self.connections.len() {
                    let (driver, action) = self.connections[connection].step_spec(event);
                    Run {
                        connections: self.connections.update(connection, driver),
                        stats: match action {
                            ConnAction::Record(update) => self.stats.apply(update),
                            _ => self.stats,
                        },
                        ..self
                    }
                } else {
                    self
                }
            },
        }
    }

    /// The run after a sequence of events, first to last.
    pub open spec fn after(self, events: Seq<RunEvent>) -> Run
        decreases events.len(),
    {
        if events.len() == 0 {
            self
        } else {
            self.after(events.drop_last()).step(events.last())
        }
    }

    /// What holds of every state a run passes through: the statistics count
    /// the connections as they stand.
    pub open spec fn inv(self) -> bool {
        &&& self.spawner.wf()
        &&& self.stats.total == self.spawner.count
        &&& self.connections.len() == self.spawner.launched
        &&& forall|i: int|
            0 <= i < self.connections.len() ==> (#[trigger] self.connections[i]).keepalive
                == self.keepalive
        &&& self.stats.connecting == self.connections.len()
        &&& self.stats.alive == tally(self.connections, Standing::Alive)
        &&& self.stats.completed == tally(self.connections, Standing::Completed)
        &&& self.stats.closed == tally(self.connections, Standing::Closed)
        &&& self.stats.lost == tally(self.connections, Standing::Lost)
        &&& self.stats.errored == tally(self.connections, Standing::Errored)
        &&& self.stats.completed == self.stats.closed + self.stats.lost + self.stats.errored
        &&& self.keepalive == 0 ==> self.stats.closed == 0
    }

    /// Whether the run has ended: every requested connection was launched
    /// and its lifecycle is over.
    pub open spec fn ended(self) -> bool {
        &&& self.connections.len() == self.spawner.count
        &&& forall|i: int|
            0 <= i < self.connections.len() ==> (#[trigger] self.connections[i]).terminated()
    }
}

/// A tally is at most the number of connections, and equal to it exactly
/// when every connection has the standing.
pub proof fn lemma_tally_bounds(connections: Seq<Lifecycle>, standing: Standing)
    ensures
        tally(connections, standing) <= connections.len(),
        tally(connections, standing) == connections.len() <==> forall|i: int|
            0 <= i < connections.len() ==> stands(#[trigger] connections[i], standing),
        tally(connections, standing) == 0 <==> forall|i: int|
            0 <= i < connections.len() ==> !stands(#[trigger] connections[i], standing),
    decreases connections.len(),
{
    if connections.len() > 0 {
        let front = connections.drop_last();
        lemma_tally_bounds(front, standing);
        assert forall|i: int| 0 <= i < front.len() implies front[i] == connections[i] by {}
        if tally(connections, standing) == connections.len() {
            assert forall|i: int| 0 <= i < connections.len() implies stands(
                #[trigger] connections[i],
                standing,
            ) by {
                if i < front.len() {
                    assert(stands(front[i], standing));
                }
            }
        }
        if forall|i: int| 0 <= i < connections.len() ==> stands(#[trigger] connections[i], standing) {
            assert forall|i: int| 0 <= i < front.len() implies stands(
                #[trigger] front[i],
                standing,
            ) by {
                assert(stands(connections[i], standing));
            }
            assert(stands(connections[connections.len() - 1], standing));
        }
        if tally(connections, standing) == 0 {
            assert forall|i: int| 0 <= i < connections.len() implies !stands(
                #[trigger] connections[i],
                standing,
            ) by {
                if i < front.len() {
                    assert(!stands(front[i], standing));
                }
            }
        }
        if forall|i: int| 0 <= i < connections.len() ==> !stands(#[trigger] connections[i], standing) {
            assert forall|i: int| 0 <= i < front.len() implies !stands(
                #[trigger] front[i],
                standing,
            ) by {
                assert(!stands(connections[i], standing));
            }
            assert(!stands(connections[connections.len() - 1], standing));
        }
    }
}

/// A new connection adds to a tally what it stands for.
proof fn lemma_tally_push(connections: Seq<Lifecycle>, driver: Lifecycle, standing: Standing)
    ensures
        tally(connections.push(driver), standing) == tally(connections, standing) + (if stands(
            driver,
            standing,
        ) {
            1nat
        } else {
            0nat
        }),
{
    assert(connections.push(driver).drop_last() =~= connections);
}

/// A connection that changes moves a tally by the difference between what it
/// stood for and what it stands for.
proof fn lemma_tally_update(
    connections: Seq<Lifecycle>,
    at: int,
    driver: Lifecycle,
    standing: Standing,
)
    requires
        0 <= at < connections.len(),
    ensures
        tally(connections.update(at, driver), standing) == tally(connections, standing) - (
        if stands(connections[at], standing) {
            1int
        } else {
            0int
        }) + (if stands(driver, standing) {
            1int
        } else {
            0int
        }),
    decreases connections.len(),
{
    let changed = connections.update(at, driver);
    if at == connections.len() - 1 {
        assert(changed.drop_last() =~= connections.drop_last());
    } else {
        lemma_tally_update(connections.drop_last(), at, driver, standing);
        assert(changed.drop_last() =~= connections.drop_last().update(at, driver));
    }
}

/// Every event keeps the invariant of a run, and never takes `completed` down.
pub proof fn lemma_step_keeps_inv(run: Run, event: RunEvent)
    requires
        run.inv(),
    ensures
        run.step(event).inv(),
        run.step(event).keepalive == run.keepalive,
        run.step(event).stats.total == run.stats.total,
        run.step(event).stats.completed >= run.stats.completed,
{
    match event {
        RunEvent::Spawn => {
            lemma_spawner_step(run.spawner);
            match run.spawner.next().1 {
                SpawnAction::Launch { .. } => {
                    let driver = Lifecycle { keepalive: run.keepalive, phase: Phase::Connecting };
                    lemma_tally_push(run.connections, driver, Standing::Alive);
                    lemma_tally_push(run.connections, driver, Standing::Completed);
                    lemma_tally_push(run.connections, driver, Standing::Closed);
                    lemma_tally_push(run.connections, driver, Standing::Lost);
                    lemma_tally_push(run.connections, driver, Standing::Errored);
                },
                _ => {},
            }
        },
        RunEvent::Report { connection, event } => {
            if 0 <= connection < run.connections.len() {
                let before = run.connections[connection];
                let driver = before.step_spec(event).0;
                assert(before.keepalive == run.keepalive);
                lemma_tally_update(run.connections, connection, driver, Standing::Alive);
                lemma_tally_update(run.connections, connection, driver, Standing::Completed);
                lemma_tally_update(run.connections, connection, driver, Standing::Closed);
                lemma_tally_update(run.connections, connection, driver, Standing::Lost);
                lemma_tally_update(run.connections, connection, driver, Standing::Errored);
            }
        },
    }
}

/// The invariant of a run holds at its start and after any events.
pub proof fn lemma_run_inv(
    count: nat,
    rate: nat,
    interfaces: nat,
    keepalive: u64,
    events: Seq<RunEvent>,
)
    requires
        SpawnerView::admissible(count, rate, interfaces),
    ensures
        Run::start(count, rate, interfaces, keepalive).after(events).inv(),
        Run::start(count, rate, interfaces, keepalive).after(events).keepalive == keepalive,
        Run::start(count, rate, interfaces, keepalive).after(events).stats.total == count,
    decreases events.len(),
{
    let start = Run::start(count, rate, interfaces, keepalive);
    if events.len() == 0 {
        lemma_start_wf(count, rate, interfaces);
    } else {
        lemma_run_inv(count, rate, interfaces, keepalive, events.drop_last());
        lemma_step_keeps_inv(start.after(events.drop_last()), events.last());
    }
}

/// In every run `completed` never decreases and never exceeds `total`: after
/// the first `earlier` events of any sequence it is at most what it is after
/// all of them, which is at most the requested number of connections.
pub proof fn lemma_completed_monotone_and_bounded(
    count: nat,
    rate: nat,
    interfaces: nat,
    keepalive: u64,
    events: Seq<RunEvent>,
    earlier: int,
)
    requires
        SpawnerView::admissible(count, rate, interfaces),
        0 <= earlier <= events.len(),
    ensures
        0 <= Run::start(count, rate, interfaces, keepalive).after(
            events.take(earlier),
        ).stats.completed,
        Run::start(count, rate, interfaces, keepalive).after(events.take(earlier)).stats.completed
            <= Run::start(count, rate, interfaces, keepalive).after(events).stats.completed,
        Run::start(count, rate, interfaces, keepalive).after(events).stats.completed <= count,
        Run::start(count, rate, interfaces, keepalive).after(events).stats.total == count,
    decreases events.len(),
{
    let start = Run::start(count, rate, interfaces, keepalive);
    lemma_run_inv(count, rate, interfaces, keepalive, events);
    lemma_run_inv(count, rate, interfaces, keepalive, events.take(earlier));
    lemma_tally_bounds(start.after(events).connections, Standing::Completed);
    if earlier == events.len() {
        assert(events.take(earlier) =~= events);
    } else {
        let front = events.drop_last();
        assert(front.take(earlier) =~= events.take(earlier));
        lemma_completed_monotone_and_bounded(count, rate, interfaces, keepalive, front, earlier);
        lemma_run_inv(count, rate, interfaces, keepalive, front);
        lemma_step_keeps_inv(start.after(front), events.last());
    }
}

/// In every state of a run `completed` is the sum of `closed`, `lost` and
/// `errored`. The run has ended exactly when `completed` has reached
/// `total`, which is when the reporter stops; every connection then counts
/// in exactly one of the three and none is alive.
pub proof fn lemma_completed_balance(
    count: nat,
    rate: nat,
    interfaces: nat,
    keepalive: u64,
    events: Seq<RunEvent>,
)
    requires
        SpawnerView::admissible(count, rate, interfaces),
    ensures
        ({
            let run = Run::start(count, rate, interfaces, keepalive).after(events);
            &&& run.stats.completed == run.stats.closed + run.stats.lost + run.stats.errored
            &&& run.ended() <==> run_over(run.stats)
            &&& run.ended() ==> run.stats.closed + run.stats.lost + run.stats.errored == count
                && run.stats.alive == 0 && run.stats.connecting == count
        }),
{
    let run = Run::start(count, rate, interfaces, keepalive).after(events);
    lemma_run_inv(count, rate, interfaces, keepalive, events);
    lemma_tally_bounds(run.connections, Standing::Completed);
    lemma_tally_bounds(run.connections, Standing::Alive);
    if run.ended() {
        assert forall|i: int| 0 <= i < run.connections.len() implies !stands(
            #[trigger] run.connections[i],
            Standing::Alive,
        ) by {
            assert(run.connections[i].terminated());
        }
    }
    if run_over(run.stats) {
        assert forall|i: int| 0 <= i < run.connections.len() implies (
        #[trigger] run.connections[i]).terminated() by {
            assert(stands(run.connections[i], Standing::Completed));
        }
    }
}

/// In a run without keepalive no connection is ever classified `Closed`:
/// `closed` stays zero, and every connection that is over was lost or never
/// established.
pub proof fn lemma_never_closed_without_keepalive(
    count: nat,
    rate: nat,
    interfaces: nat,
    events: Seq<RunEvent>,
)
    requires
        SpawnerView::admissible(count, rate, interfaces),
    ensures
        ({
            let run = Run::start(count, rate, interfaces, 0).after(events);
            &&& run.stats.closed == 0
            &&& run.stats.completed == run.stats.lost + run.stats.errored
            &&& forall|i: int|
                0 <= i < run.connections.len() ==> (#[trigger] run.connections[i]).phase
                    != Phase::Terminated(Outcome::Closed)
        }),
{
    let run = Run::start(count, rate, interfaces, 0).after(events);
    lemma_run_inv(count, rate, interfaces, 0, events);
    lemma_tally_bounds(run.connections, Standing::Closed);
    assert forall|i: int| 0 <= i < run.connections.len() implies (#[trigger] run.connections[i]).phase
        != Phase::Terminated(Outcome::Closed) by {
        assert(!stands(run.connections[i], Standing::Closed));
    }
}

/// In every state of a run `alive` is the number of connections that are
/// established and not yet over, and `connecting` the number launched, which
/// is never more than requested.
pub proof fn lemma_alive_counts_serving(
    count: nat,
    rate: nat,
    interfaces: nat,
    keepalive: u64,
    events: Seq<RunEvent>,
)
    requires
        SpawnerView::admissible(count, rate, interfaces),
    ensures
        ({
            let run = Run::start(count, rate, interfaces, keepalive).after(events);
            &&& run.stats.alive == tally(run.connections, Standing::Alive)
            &&& 0 <= run.stats.alive <= run.stats.connecting - run.stats.completed
            &&& run.stats.connecting == run.connections.len()
            &&& run.stats.connecting <= count
        }),
{
    let run = Run::start(count, rate, interfaces, keepalive).after(events);
    lemma_run_inv(count, rate, interfaces, keepalive, events);
    lemma_alive_and_completed_disjoint(run.connections);
}

/// No connection is both alive and over, so the two tallies together are at
/// most the number of connections.
proof fn lemma_alive_and_completed_disjoint(connections: Seq<Lifecycle>)
    ensures
        tally(connections, Standing::Alive) + tally(connections, Standing::Completed)
            <= connections.len(),
    decreases connections.len(),
{
    if connections.len() > 0 {
        lemma_alive_and_completed_disjoint(connections.drop_last());
    }
}

} // verus!
