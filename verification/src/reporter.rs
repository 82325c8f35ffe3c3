//! The periodic reporter: from a snapshot of both statistics it works out how
//! many request cycles completed since the last report, the throughput over
//! that interval, and whether the run is over.
//!
//! The reporter computes; its caller takes the snapshots, measures the time,
//! prints the line and sleeps until the next report.

use vstd::prelude::*;
use vstd::arithmetic::div_mod::lemma_div_is_ordered_by_denominator;
use vstd::arithmetic::div_mod::lemma_div_multiples_vanish;
use crate::stats::ConnectionStats;
use crate::stats::ConnectionCounts;
use crate::stats::EventStats;
use crate::stats::EventCounts;
use crate::stats::EventUpdate;

verus! {

/// Time between two reports, in seconds.
pub const REPORT_PERIOD_SECS: u64 = 2;

/// Nanoseconds in a second.
pub const NANOS_PER_SEC: u128 = 1_000_000_000;

/// Nanoseconds in a millisecond.
pub const NANOS_PER_MILLI: u128 = 1_000_000;

/// Completed cycles per second, rounded down, for `events` cycles completed
/// in `interval` nanoseconds; zero where the interval is a second or less.
pub open spec fn throughput_of(events: nat, interval: nat) -> nat {
    if interval > NANOS_PER_SEC {
        events * NANOS_PER_SEC as nat / interval
    } else {
        0
    }
}

/// Whether the run is over: every requested connection has completed.
pub open spec fn run_over(connections: ConnectionCounts) -> bool {
    connections.completed == connections.total
}

/// One report.
#[derive(Clone, Copy, Debug, PartialEq, Eq)]
pub struct Report {
    /// Time since the run started, in whole milliseconds.
    pub elapsed_ms: u128,
    /// Request cycles completed since the last report.
    pub events: usize,
    /// Completed cycles per second over the interval since the last report.
    pub throughput: u64,
    /// Whether the run is over, so that this is the last report.
    pub done: bool,
    /// Seconds to sleep before the next report; none after the last.
    pub next_in: Option<u64>,
}

/// The reporter's memory between two reports.
#[derive(Clone, Copy, Debug, PartialEq, Eq, Structural)]
pub struct Reporter {
    /// The completed cycles, less the failed ones, as of the last report.
    pub baseline: usize,
}

/// The throughput is never more than the number of events, so it fits
/// wherever that number fits.
proof fn lemma_throughput_bounded(events: nat, interval: nat)
    ensures
        throughput_of(events, interval) <= events,
{
    if interval > NANOS_PER_SEC {
        let scaled = (events * NANOS_PER_SEC as nat) as int;
        assert(scaled >= 0) by (nonlinear_arith)
            requires
                scaled == events * 1_000_000_000,
        ;
        lemma_div_is_ordered_by_denominator(scaled, 1_000_000_000, interval as int);
        lemma_div_multiples_vanish(events as int, 1_000_000_000);
        assert(scaled == 1_000_000_000 * events) by (nonlinear_arith)
            requires
                scaled == events * 1_000_000_000,
        ;
    }
}

impl Reporter {
    /// A reporter that has reported nothing yet.
    pub fn new() -> (reporter: Reporter)
        ensures
            reporter.baseline == 0,
    {
        Reporter { baseline: 0 }
    }

    /// Whether a snapshot can follow the last report: no more cycles failed
    /// than completed, and the net count has not gone below the baseline.
    pub open spec fn follows(&self, events: EventCounts) -> bool {
        events.errored <= events.completed && self.baseline <= events.net_completed()
    }

    /// Computes `follows` on a snapshot.
    pub fn can_follow(&self, events: &EventStats) -> (ok: bool)
        ensures
            ok == self.follows(events@),
    {
        events.errored <= events.completed && self.baseline <= events.completed - events.errored
    }

    /// Makes one report from a snapshot of both statistics, taken
    /// `run_elapsed` nanoseconds after the run started and `interval`
    /// nanoseconds after the last report, and moves the baseline to it.
    pub fn tick(
        &mut self,
        connections: &ConnectionStats,
        events: &EventStats,
        run_elapsed: u128,
        interval: u128,
    ) -> (report: Report)
        requires
            old(self).follows(events@),
        ensures
            report.elapsed_ms == run_elapsed / NANOS_PER_MILLI,
            report.events == events@.net_completed() - old(self).baseline,
            report.throughput == throughput_of(report.events as nat, interval as nat),
            report.done == run_over(connections@),
            report.next_in == (if report.done {
                None
            } else {
                Some(REPORT_PERIOD_SECS)
            }),
            final(self).baseline == events@.net_completed(),
    {
        let net: usize = events.completed - events.errored;
        let fresh: usize = net - self.baseline;
        proof {
            lemma_throughput_bounded(fresh as nat, interval as nat);
        }
        let throughput: u64 = if interval > NANOS_PER_SEC {
            let scaled: u128 = (fresh as u128) * NANOS_PER_SEC;
            (scaled / interval) as u64
        } else {
            0
        };
        let done: bool = connections.completed == connections.total;
        self.baseline = net;
        Report {
            elapsed_ms: run_elapsed / NANOS_PER_MILLI,
            events: fresh,
            throughput,
            done,
            next_in: if done {
                None
            } else {
                Some(REPORT_PERIOD_SECS)
            },
        }
    }
}

/// A snapshot taken later in the same run can always follow a report made
/// from an earlier one: updates never take the net count of completed cycles
/// down, nor touch the count of failed ones.
pub proof fn lemma_later_snapshot_follows(
    reporter: Reporter,
    earlier: EventCounts,
    updates: Seq<EventUpdate>,
)
    requires
        earlier.errored <= earlier.completed,
        reporter.baseline <= earlier.net_completed(),
    ensures
        reporter.follows(earlier.apply_all(updates)),
    decreases updates.len(),
{
    if updates.len() > 0 {
        lemma_later_snapshot_follows(reporter, earlier, updates.drop_last());
    }
}

} // verus!
