//! The statistics aggregator: connection-level and event-level counters, and the
//! update operations through which every worker changes them.
//!
//! Each update touches one or more named counters in a single step. The caller
//! decides how the step is made atomic (a lock, an actor, ...); what is proved
//! here is what one step does, and that steps can be reordered freely without
//! changing any counter.

use vstd::prelude::*;

verus! {

/// One atomic change to the connection-level statistics.
///
/// Durations are whole nanoseconds.
#[derive(Clone, Copy, Debug, PartialEq, Eq, Structural)]
pub enum ConnUpdate {
    /// A connection attempt was issued.
    Attempt,
    /// A connection was established. `elapsed` is the time since the run
    /// started, `latency` the time the connect took.
    Established { elapsed: u128, latency: u128 },
    /// A connection attempt failed, `elapsed` after the run started. The
    /// connection never counted as alive and is complete.
    Refused { elapsed: u128 },
    /// An established connection reached its keepalive deadline and is complete.
    Closed,
    /// An established connection ended on its own (close, end of stream or
    /// transport error) and is complete.
    Lost,
}

/// What a [`ConnectionStats`] holds, as unbounded integers.
pub struct ConnectionCounts {
    pub total: int,
    pub connecting: int,
    pub alive: int,
    pub closed: int,
    pub lost: int,
    pub errored: int,
    pub completed: int,
    pub elapsed_since_run_start: int,
    pub cumulative_time_to_first_success: int,
}

impl ConnectionCounts {
    /// The counts at the start of a run of `total` connections.
    pub open spec fn fresh(total: int) -> ConnectionCounts {
        ConnectionCounts {
            total,
            connecting: 0,
            alive: 0,
            closed: 0,
            lost: 0,
            errored: 0,
            completed: 0,
            elapsed_since_run_start: 0,
            cumulative_time_to_first_success: 0,
        }
    }

    /// The counts after one update.
    pub open spec fn apply(self, update: ConnUpdate) -> ConnectionCounts {
        match update {
            ConnUpdate::Attempt => ConnectionCounts { connecting: self.connecting + 1, ..self },
            ConnUpdate::Established { elapsed, latency } => ConnectionCounts {
                alive: self.alive + 1,
                elapsed_since_run_start: elapsed as int,
                cumulative_time_to_first_success: self.cumulative_time_to_first_success + latency,
                ..self
            },
            ConnUpdate::Refused { elapsed } => ConnectionCounts {
                errored: self.errored + 1,
                completed: self.completed + 1,
                elapsed_since_run_start: elapsed as int,
                ..self
            },
            ConnUpdate::Closed => ConnectionCounts {
                alive: self.alive - 1,
                closed: self.closed + 1,
                completed: self.completed + 1,
                ..self
            },
            ConnUpdate::Lost => ConnectionCounts {
                alive: self.alive - 1,
                lost: self.lost + 1,
                completed: self.completed + 1,
                ..self
            },
        }
    }

    /// The counts after a sequence of updates, applied first to last.
    pub open spec fn apply_all(self, updates: Seq<ConnUpdate>) -> ConnectionCounts
        decreases updates.len(),
    {
        if updates.len() == 0 {
            self
        } else {
            self.apply_all(updates.drop_last()).apply(updates.last())
        }
    }

    /// Whether every count fits the machine representation.
    pub open spec fn representable(self) -> bool {
        &&& 0 <= self.total <= usize::MAX
        &&& 0 <= self.connecting <= usize::MAX
        &&& 0 <= self.alive <= usize::MAX
        &&& 0 <= self.closed <= usize::MAX
        &&& 0 <= self.lost <= usize::MAX
        &&& 0 <= self.errored <= usize::MAX
        &&& 0 <= self.completed <= usize::MAX
        &&& 0 <= self.elapsed_since_run_start <= u128::MAX
        &&& 0 <= self.cumulative_time_to_first_success <= u128::MAX
    }

    /// The same counters, whatever the recorded elapsed time: the part of the
    /// statistics that does not depend on which update came last.
    pub open spec fn same_counters(self, other: ConnectionCounts) -> bool {
        other == ConnectionCounts { elapsed_since_run_start: other.elapsed_since_run_start, ..self }
    }
}

/// Connection-level statistics of one run. Durations are whole nanoseconds.
#[derive(Clone, Copy, Debug, PartialEq, Eq, Structural)]
pub struct ConnectionStats {
    /// Requested connection count, fixed at the start.
    pub total: usize,
    /// Connection attempts issued so far.
    pub connecting: usize,
    /// Connections established and not yet ended.
    pub alive: usize,
    /// Connections ended by the keepalive deadline.
    pub closed: usize,
    /// Connections ended by a close, an end of stream or a transport error.
    pub lost: usize,
    /// Connections that were never established.
    pub errored: usize,
    /// Connections whose lifecycle is over.
    pub completed: usize,
    /// Time since the run started, as of the latest connect result.
    pub elapsed_since_run_start: u128,
    /// Sum of the connect latencies of all established connections.
    pub cumulative_time_to_first_success: u128,
}

impl View for ConnectionStats {
    type V = ConnectionCounts;

    open spec fn view(&self) -> ConnectionCounts {
        ConnectionCounts {
            total: self.total as int,
            connecting: self.connecting as int,
            alive: self.alive as int,
            closed: self.closed as int,
            lost: self.lost as int,
            errored: self.errored as int,
            completed: self.completed as int,
            elapsed_since_run_start: self.elapsed_since_run_start as int,
            cumulative_time_to_first_success: self.cumulative_time_to_first_success as int,
        }
    }
}

impl ConnectionStats {
    /// Statistics for a run of `total` connections: every other field is zero.
    pub fn new(total: usize) -> (stats: ConnectionStats)
        ensures
            stats@ == ConnectionCounts::fresh(total as int),
    {
        ConnectionStats {
            total,
            connecting: 0,
            alive: 0,
            closed: 0,
            lost: 0,
            errored: 0,
            completed: 0,
            elapsed_since_run_start: 0,
            cumulative_time_to_first_success: 0,
        }
    }

    /// Whether `update` can be applied without leaving the range of a counter:
    /// no counter passes its maximum, and `alive` is not decremented below zero.
    pub open spec fn admits(&self, update: ConnUpdate) -> bool {
        self@.apply(update).representable()
    }

    /// Applies one update. Returns whether it was applied; an update that
    /// would take a counter out of range leaves the statistics unchanged.
    pub fn apply(&mut self, update: ConnUpdate) -> (applied: bool)
        ensures
            applied == old(self).admits(update),
            applied ==> final(self)@ == old(self)@.apply(update),
            !applied ==> *final(self) == *old(self),
    {
        match update {
            ConnUpdate::Attempt => {
                if self.connecting == usize::MAX {
                    return false;
                }
                self.connecting = self.connecting + 1;
            },
            ConnUpdate::Established { elapsed, latency } => {
                if self.alive == usize::MAX || latency > u128::MAX
                    - self.cumulative_time_to_first_success {
                    return false;
                }
                self.alive = self.alive + 1;
                self.elapsed_since_run_start = elapsed;
                self.cumulative_time_to_first_success = self.cumulative_time_to_first_success
                    + latency;
            },
            ConnUpdate::Refused { elapsed } => {
                if self.errored == usize::MAX || self.completed == usize::MAX {
                    return false;
                }
                self.errored = self.errored + 1;
                self.completed = self.completed + 1;
                self.elapsed_since_run_start = elapsed;
            },
            ConnUpdate::Closed => {
                if self.alive == 0 || self.closed == usize::MAX || self.completed == usize::MAX {
                    return false;
                }
                self.alive = self.alive - 1;
                self.closed = self.closed + 1;
                self.completed = self.completed + 1;
            },
            ConnUpdate::Lost => {
                if self.alive == 0 || self.lost == usize::MAX || self.completed == usize::MAX {
                    return false;
                }
                self.alive = self.alive - 1;
                self.lost = self.lost + 1;
                self.completed = self.completed + 1;
            },
        }
        true
    }
}

/// One atomic change to the event-level statistics.
#[derive(Clone, Copy, Debug, PartialEq, Eq, Structural)]
pub enum EventUpdate {
    /// A request cycle is issued: its request is about to be sent.
    Issued,
    /// A request cycle saw its completion marker `latency` nanoseconds after
    /// it was issued.
    Completed { latency: u128 },
}

/// What an [`EventStats`] holds, as unbounded integers.
pub struct EventCounts {
    pub total: int,
    pub completed: int,
    pub errored: int,
    pub cumulative_round_trip_time: int,
}

impl EventCounts {
    /// The counts at the start of a run.
    pub open spec fn fresh() -> EventCounts {
        EventCounts { total: 0, completed: 0, errored: 0, cumulative_round_trip_time: 0 }
    }

    /// The counts after one update.
    pub open spec fn apply(self, update: EventUpdate) -> EventCounts {
        match update {
            EventUpdate::Issued => EventCounts { total: self.total + 1, ..self },
            EventUpdate::Completed { latency } => EventCounts {
                completed: self.completed + 1,
                cumulative_round_trip_time: self.cumulative_round_trip_time + latency,
                ..self
            },
        }
    }

    /// The counts after a sequence of updates, applied first to last.
    pub open spec fn apply_all(self, updates: Seq<EventUpdate>) -> EventCounts
        decreases updates.len(),
    {
        if updates.len() == 0 {
            self
        } else {
            self.apply_all(updates.drop_last()).apply(updates.last())
        }
    }

    /// Whether every count fits the machine representation.
    pub open spec fn representable(self) -> bool {
        &&& 0 <= self.total <= usize::MAX
        &&& 0 <= self.completed <= usize::MAX
        &&& 0 <= self.errored <= usize::MAX
        &&& 0 <= self.cumulative_round_trip_time <= u128::MAX
    }

    /// No more cycles are completed than were issued. Every run keeps its
    /// counts so, since a cycle is completed only after it was issued.
    pub open spec fn consistent(self) -> bool {
        self.completed <= self.total
    }

    /// Completed cycles that count towards throughput.
    pub open spec fn net_completed(self) -> int {
        self.completed - self.errored
    }
}

/// Event-level statistics of one run. Durations are whole nanoseconds.
#[derive(Clone, Copy, Debug, PartialEq, Eq, Structural)]
pub struct EventStats {
    /// Request cycles issued over all connections.
    pub total: usize,
    /// Request cycles that saw their completion marker.
    pub completed: usize,
    /// Reserved for cycle-level failures; no update changes it.
    pub errored: usize,
    /// Sum of the round-trip times of all completed cycles.
    pub cumulative_round_trip_time: u128,
}

impl View for EventStats {
    type V = EventCounts;

    open spec fn view(&self) -> EventCounts {
        EventCounts {
            total: self.total as int,
            completed: self.completed as int,
            errored: self.errored as int,
            cumulative_round_trip_time: self.cumulative_round_trip_time as int,
        }
    }
}

impl EventStats {
    /// Statistics with every field zero.
    pub fn new() -> (stats: EventStats)
        ensures
            stats@ == EventCounts::fresh(),
    {
        EventStats { total: 0, completed: 0, errored: 0, cumulative_round_trip_time: 0 }
    }

    /// Whether `update` can be applied without a counter passing its maximum.
    pub open spec fn admits(&self, update: EventUpdate) -> bool {
        self@.apply(update).representable()
    }

    /// Applies one update. Returns whether it was applied; an update that
    /// would take a counter out of range leaves the statistics unchanged.
    pub fn apply(&mut self, update: EventUpdate) -> (applied: bool)
        ensures
            applied == old(self).admits(update),
            applied ==> final(self)@ == old(self)@.apply(update),
            !applied ==> *final(self) == *old(self),
    {
        match update {
            EventUpdate::Issued => {
                if self.total == usize::MAX {
                    return false;
                }
                self.total = self.total + 1;
            },
            EventUpdate::Completed { latency } => {
                if self.completed == usize::MAX || latency > u128::MAX
                    - self.cumulative_round_trip_time {
                    return false;
                }
                self.completed = self.completed + 1;
                self.cumulative_round_trip_time = self.cumulative_round_trip_time + latency;
            },
        }
        true
    }
}

/// The change that one update makes to `alive`.
pub open spec fn alive_delta(update: ConnUpdate) -> int {
    match update {
        ConnUpdate::Established { .. } => 1,
        ConnUpdate::Closed => -1,
        ConnUpdate::Lost => -1,
        _ => 0,
    }
}

/// The change that one update makes to `completed`.
pub open spec fn completed_delta(update: ConnUpdate) -> int {
    match update {
        ConnUpdate::Refused { .. } => 1,
        ConnUpdate::Closed => 1,
        ConnUpdate::Lost => 1,
        _ => 0,
    }
}

/// The sum of `alive_delta` over a sequence of updates.
pub open spec fn net_alive(updates: Seq<ConnUpdate>) -> int
    decreases updates.len(),
{
    if updates.len() == 0 {
        0
    } else {
        net_alive(updates.drop_last()) + alive_delta(updates.last())
    }
}

/// Two updates reach the same counters in either order: only the recorded
/// elapsed time, which the later update sets, can differ.
pub proof fn lemma_updates_commute(counts: ConnectionCounts, first: ConnUpdate, second: ConnUpdate)
    ensures
        counts.apply(first).apply(second).same_counters(counts.apply(second).apply(first)),
{
}

/// No update is lost: after any sequence of updates `alive` has changed by
/// the sum of what each update adds to it, `completed` never decreases, and
/// `total` is untouched.
pub proof fn lemma_every_update_counts(counts: ConnectionCounts, updates: Seq<ConnUpdate>)
    ensures
        counts.apply_all(updates).alive == counts.alive + net_alive(updates),
        counts.apply_all(updates).completed >= counts.completed,
        counts.apply_all(updates).total == counts.total,
    decreases updates.len(),
{
    if updates.len() > 0 {
        lemma_every_update_counts(counts, updates.drop_last());
    }
}

/// A burst of successful connects, in any number, raises `alive` by exactly
/// that number.
pub proof fn lemma_connect_burst(counts: ConnectionCounts, updates: Seq<ConnUpdate>)
    requires
        forall|i: int| 0 <= i < updates.len() ==> #[trigger] updates[i] is Established,
    ensures
        counts.apply_all(updates).alive == counts.alive + updates.len(),
    decreases updates.len(),
{
    if updates.len() > 0 {
        lemma_connect_burst(counts, updates.drop_last());
    }
}

/// Event counters only grow: after any sequence of updates neither the
/// cycles issued nor the cycles completed have decreased, and the reserved
/// counter is unchanged.
pub proof fn lemma_event_counts_grow(counts: EventCounts, updates: Seq<EventUpdate>)
    ensures
        counts.apply_all(updates).total >= counts.total,
        counts.apply_all(updates).completed >= counts.completed,
        counts.apply_all(updates).errored == counts.errored,
        counts.apply_all(updates).net_completed() >= counts.net_completed(),
    decreases updates.len(),
{
    if updates.len() > 0 {
        lemma_event_counts_grow(counts, updates.drop_last());
    }
}

} // verus!
