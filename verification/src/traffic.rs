//! The request loops of a run together: the loop of every connection that
//! serves, and the event statistics, moved by the reports of the loops in
//! whatever order they come.
//!
//! Nothing here is executed. The model is built from the same specification
//! functions that the executable request loop and statistics are proved
//! against, and the laws of the event statistics are proved of it.

use vstd::prelude::*;
use crate::request_loop::react;
use crate::request_loop::LoopEvent;
use crate::request_loop::LoopState;
use crate::stats::EventCounts;

verus! {

/// One thing that happens to the request loops of a run.
pub enum TrafficEvent {
    /// An established connection enters its request loop.
    Enter,
    /// The loop of the connection that entered as number `connection` is
    /// told of `event`, and the update it answers with is applied.
    Report { connection: int, event: LoopEvent },
}

/// A property of a loop that bounds the cycles it has open.
pub enum LoopStanding {
    /// A request is out: exactly one cycle is open.
    Awaiting,
    /// The loop is over: it left at most one cycle open.
    Finished,
}

/// Whether a loop has the given standing.
pub open spec fn loop_stands(state: LoopState, standing: LoopStanding) -> bool {
    match standing {
        LoopStanding::Awaiting => state == LoopState::Awaiting,
        LoopStanding::Finished => state is Finished,
    }
}

/// How many of the loops have the given standing.
pub open spec fn loop_tally(loops: Seq<LoopState>, standing: LoopStanding) -> nat
    decreases loops.len(),
{
    if loops.len() == 0 {
        0
    } else {
        loop_tally(loops.drop_last(), standing) + (if loop_stands(loops.last(), standing) {
            1nat
        } else {
            0nat
        })
    }
}

/// The request loops of a run and the statistics they feed.
pub struct Traffic {
    /// The loops of the connections that have entered theirs, in that order.
    pub loops: Seq<LoopState>,
    /// The event statistics.
    pub stats: EventCounts,
}

impl Traffic {
    /// The start of a run: no loop, and every count zero.
    pub open spec fn start() -> Traffic {
        Traffic { loops: Seq::empty(), stats: EventCounts::fresh() }
    }

    /// The traffic after one event. A report for a loop that does not exist
    /// changes nothing.
    pub open spec fn step(self, event: TrafficEvent) -> Traffic {
        match event {
            TrafficEvent::Enter => Traffic {
                loops: self.loops.push(LoopState::WarmingUp),
                ..self
            },
            TrafficEvent::Report { connection, event } => {
                if 0 <= connection < self.loops.len() {
                    let answer = react(self.loops[connection], event);
                    Traffic {
                        loops: self.loops.update(connection, answer.state),
                        stats: match answer.update {
                            Some(update) => self.stats.apply(update),
                            None => self.stats,
                        },
                    }
                } else {
                    self
                }
            },
        }
    }

    /// The traffic after a sequence of events, first to last.
    pub open spec fn after(self, events: Seq<TrafficEvent>) -> Traffic
        decreases events.len(),
    {
        if events.len() == 0 {
            self
        } else {
            self.after(events.drop_last()).step(events.last())
        }
    }

    /// What holds of every state the traffic passes through: the cycles
    /// issued and not completed are one for each loop that awaits its
    /// marker, and at most one more for each loop that is over.
    pub open spec fn inv(self) -> bool {
        &&& self.stats.errored == 0
        &&& 0 <= self.stats.completed
        &&& loop_tally(self.loops, LoopStanding::Awaiting) <= self.stats.total
            - self.stats.completed
        &&& self.stats.total - self.stats.completed <= loop_tally(
            self.loops,
            LoopStanding::Awaiting,
        ) + loop_tally(self.loops, LoopStanding::Finished)
    }
}

/// A new loop adds to a tally what it stands for.
proof fn lemma_loop_tally_push(loops: Seq<LoopState>, state: LoopState, standing: LoopStanding)
    ensures
        loop_tally(loops.push(state), standing) == loop_tally(loops, standing) + (if loop_stands(
            state,
            standing,
        ) {
            1nat
        } else {
            0nat
        }),
{
    assert(loops.push(state).drop_last() =~= loops);
}

/// A loop that changes moves a tally by the difference between what it stood
/// for and what it stands for.
proof fn lemma_loop_tally_update(
    loops: Seq<LoopState>,
    at: int,
    state: LoopState,
    standing: LoopStanding,
)
    requires
        0 <= at < loops.len(),
    ensures
        loop_tally(loops.update(at, state), standing) == loop_tally(loops, standing) - (
        if loop_stands(loops[at], standing) {
            1int
        } else {
            0int
        }) + (if loop_stands(state, standing) {
            1int
        } else {
            0int
        }),
    decreases loops.len(),
{
    let changed = loops.update(at, state);
    if at == loops.len() - 1 {
        assert(changed.drop_last() =~= loops.drop_last());
    } else {
        lemma_loop_tally_update(loops.drop_last(), at, state, standing);
        assert(changed.drop_last() =~= loops.drop_last().update(at, state));
    }
}

/// No loop both awaits and is over, so the two tallies together are at most
/// the number of loops.
proof fn lemma_loop_tallies_disjoint(loops: Seq<LoopState>)
    ensures
        loop_tally(loops, LoopStanding::Awaiting) + loop_tally(loops, LoopStanding::Finished)
            <= loops.len(),
    decreases loops.len(),
{
    if loops.len() > 0 {
        lemma_loop_tallies_disjoint(loops.drop_last());
    }
}

/// Every event keeps the invariant of the traffic, and takes no counter down.
pub proof fn lemma_traffic_step_keeps_inv(traffic: Traffic, event: TrafficEvent)
    requires
        traffic.inv(),
    ensures
        traffic.step(event).inv(),
        traffic.step(event).stats.total >= traffic.stats.total,
        traffic.step(event).stats.completed >= traffic.stats.completed,
        traffic.step(event).loops.len() >= traffic.loops.len(),
{
    match event {
        TrafficEvent::Enter => {
            lemma_loop_tally_push(traffic.loops, LoopState::WarmingUp, LoopStanding::Awaiting);
            lemma_loop_tally_push(traffic.loops, LoopState::WarmingUp, LoopStanding::Finished);
        },
        TrafficEvent::Report { connection, event } => {
            if 0 <= connection < traffic.loops.len() {
                let state = react(traffic.loops[connection], event).state;
                lemma_loop_tally_update(traffic.loops, connection, state, LoopStanding::Awaiting);
                lemma_loop_tally_update(traffic.loops, connection, state, LoopStanding::Finished);
            }
        },
    }
}

/// In every run the event statistics are consistent: whatever the loops are
/// told, in whatever order, no more cycles are completed than were issued,
/// at most one cycle per loop is issued and not completed, and the reserved
/// counter stays zero.
pub proof fn lemma_completed_cycles_were_issued(events: Seq<TrafficEvent>)
    ensures
        ({
            let traffic = Traffic::start().after(events);
            &&& traffic.inv()
            &&& traffic.stats.consistent()
            &&& 0 <= traffic.stats.completed <= traffic.stats.total
            &&& traffic.stats.total <= traffic.stats.completed + traffic.loops.len()
            &&& traffic.stats.errored == 0
            &&& traffic.stats.net_completed() == traffic.stats.completed
        }),
    decreases events.len(),
{
    let traffic = Traffic::start().after(events);
    if events.len() > 0 {
        lemma_completed_cycles_were_issued(events.drop_last());
        lemma_traffic_step_keeps_inv(Traffic::start().after(events.drop_last()), events.last());
    }
    lemma_loop_tallies_disjoint(traffic.loops);
}

/// Over a run neither event counter ever decreases: after the first
/// `earlier` events of any sequence each is at most what it is after all of
/// them.
pub proof fn lemma_event_counters_monotone(events: Seq<TrafficEvent>, earlier: int)
    requires
        0 <= earlier <= events.len(),
    ensures
        Traffic::start().after(events.take(earlier)).stats.total <= Traffic::start().after(
            events,
        ).stats.total,
        Traffic::start().after(events.take(earlier)).stats.completed <= Traffic::start().after(
            events,
        ).stats.completed,
    decreases events.len(),
{
    if earlier == events.len() {
        assert(events.take(earlier) =~= events);
    } else {
        let front = events.drop_last();
        assert(front.take(earlier) =~= events.take(earlier));
        lemma_event_counters_monotone(front, earlier);
        lemma_completed_cycles_were_issued(front);
        lemma_traffic_step_keeps_inv(Traffic::start().after(front), events.last());
    }
}

} // verus!
