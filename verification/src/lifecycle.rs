//! The lifecycle of one connection: connect, serve the request loop under the
//! keepalive bound, classify how it ended.
//!
//! The driver here decides; its caller connects, runs the loop, races it
//! against the deadline, and reports what happened. Each report is answered
//! with the change to record in the connection statistics.

use vstd::prelude::*;
use crate::error::Error;
use crate::request_loop::LoopEnd;
use crate::stats::alive_delta;
use crate::stats::completed_delta;
use crate::stats::ConnUpdate;

verus! {

/// How a connection ended.
#[derive(Clone, Copy, Debug, PartialEq, Eq, Structural)]
pub enum Outcome {
    /// The keepalive deadline was reached while the connection was serving.
    Closed,
    /// The request loop ended by itself: a close, an end of stream, an error.
    Lost,
    /// The connection was never established.
    Error,
}

/// Where a connection stands.
#[derive(Clone, Copy, Debug, PartialEq, Eq, Structural)]
pub enum Phase {
    /// The connect attempt is under way.
    Connecting,
    /// The connection is established and counted as alive.
    Connected,
    /// The request loop is running.
    Running,
    /// The lifecycle is over.
    Terminated(Outcome),
}

/// How long the request loop may run.
#[derive(Clone, Copy, Debug, PartialEq, Eq, Structural)]
pub enum Bound {
    /// Until it ends by itself.
    Unbounded,
    /// At most this many seconds; then the loop is abandoned.
    Within(u64),
}

/// What the race between the request loop and the deadline timer gave.
#[derive(Clone, Copy, Debug, PartialEq, Eq, Structural)]
pub enum Race {
    /// The deadline came first; the loop was abandoned where it stood.
    Deadline,
    /// The loop ended first, or there was no deadline.
    Finished(LoopEnd),
}

/// What the driver's caller reports.
#[derive(Clone, Copy, Debug, PartialEq, Eq)]
pub enum ConnEvent {
    /// The connect succeeded, `elapsed` nanoseconds after the run started and
    /// `latency` nanoseconds after the attempt began.
    Established { elapsed: u128, latency: u128 },
    /// The connect failed, `elapsed` nanoseconds after the run started.
    Refused { elapsed: u128 },
    /// The caller is about to run the request loop.
    LoopEntered,
    /// The wait for the request loop is over, with this result.
    Waited(Result<(), Error>),
}

/// What the driver's caller does in answer to its report.
#[derive(Clone, Copy, Debug, PartialEq, Eq)]
pub enum ConnAction {
    /// Nothing: the report does not fit the phase, and nothing has changed.
    Ignore,
    /// Apply this update to the connection statistics.
    Record(ConnUpdate),
    /// Run the request loop under this bound.
    Serve(Bound),
}

/// The bound that a keepalive of so many seconds puts on the request loop:
/// none where it is zero.
pub open spec fn bound_of(keepalive: u64) -> Bound {
    if keepalive == 0 {
        Bound::Unbounded
    } else {
        Bound::Within(keepalive)
    }
}

/// The result of a wait: a deadline is reported as `AliveTimeout`, a failed
/// loop as `Lost`, and a loop that ended on a close or an end of stream is no
/// error.
pub open spec fn result_of(race: Race) -> Result<(), Error> {
    match race {
        Race::Deadline => Err(Error::AliveTimeout),
        Race::Finished(LoopEnd::Failed) => Err(Error::Lost),
        Race::Finished(_) => Ok(()),
    }
}

/// How an established connection is classified once its wait is over:
/// `Closed` where a keepalive was set and the wait ended on its deadline,
/// `Lost` in every other case.
pub open spec fn classify(keepalive: u64, waited: Result<(), Error>) -> Outcome {
    if keepalive > 0 && waited == Err::<(), Error>(Error::AliveTimeout) {
        Outcome::Closed
    } else {
        Outcome::Lost
    }
}

/// Computes `bound_of`.
pub fn wait_bound(keepalive: u64) -> (bound: Bound)
    ensures
        bound == bound_of(keepalive),
{
    if keepalive == 0 {
        Bound::Unbounded
    } else {
        Bound::Within(keepalive)
    }
}

/// Computes `result_of`.
pub fn wait_result(race: Race) -> (result: Result<(), Error>)
    ensures
        result == result_of(race),
{
    match race {
        Race::Deadline => Err(Error::AliveTimeout),
        Race::Finished(LoopEnd::Failed) => Err(Error::Lost),
        Race::Finished(_) => Ok(()),
    }
}

/// The driver of one connection's lifecycle.
#[derive(Clone, Copy, Debug, PartialEq, Eq)]
pub struct Lifecycle {
    /// Keepalive in seconds; zero for none.
    pub keepalive: u64,
    /// The current phase.
    pub phase: Phase,
}

impl Lifecycle {
    /// The driver after `event`, and the answer to it.
    ///
    /// An event that does not fit the phase changes nothing.
    pub open spec fn step_spec(self, event: ConnEvent) -> (Lifecycle, ConnAction) {
        match (self.phase, event) {
            (Phase::Connecting, ConnEvent::Established { elapsed, latency }) => (
                Lifecycle { phase: Phase::Connected, ..self },
                ConnAction::Record(ConnUpdate::Established { elapsed, latency }),
            ),
            (Phase::Connecting, ConnEvent::Refused { elapsed }) => (
                Lifecycle { phase: Phase::Terminated(Outcome::Error), ..self },
                ConnAction::Record(ConnUpdate::Refused { elapsed }),
            ),
            (Phase::Connected, ConnEvent::LoopEntered) => (
                Lifecycle { phase: Phase::Running, ..self },
                ConnAction::Serve(bound_of(self.keepalive)),
            ),
            (Phase::Running, ConnEvent::Waited(waited)) => match classify(self.keepalive, waited) {
                Outcome::Closed => (
                    Lifecycle { phase: Phase::Terminated(Outcome::Closed), ..self },
                    ConnAction::Record(ConnUpdate::Closed),
                ),
                _ => (
                    Lifecycle { phase: Phase::Terminated(Outcome::Lost), ..self },
                    ConnAction::Record(ConnUpdate::Lost),
                ),
            },
            _ => (self, ConnAction::Ignore),
        }
    }

    /// The driver after a sequence of events, first to last.
    pub open spec fn after(self, events: Seq<ConnEvent>) -> Lifecycle
        decreases events.len(),
    {
        if events.len() == 0 {
            self
        } else {
            self.after(events.drop_last()).step_spec(events.last()).0
        }
    }

    /// How often, over a sequence of events, the answer was an update that
    /// increments `alive`.
    pub open spec fn increments(self, events: Seq<ConnEvent>) -> nat
        decreases events.len(),
    {
        if events.len() == 0 {
            0
        } else {
            let before = self.after(events.drop_last());
            let counted: nat = match before.step_spec(events.last()).1 {
                ConnAction::Record(ConnUpdate::Established { .. }) => 1,
                _ => 0,
            };
            self.increments(events.drop_last()) + counted
        }
    }

    /// How often, over a sequence of events, the answer was an update that
    /// decrements `alive`.
    pub open spec fn decrements(self, events: Seq<ConnEvent>) -> nat
        decreases events.len(),
    {
        if events.len() == 0 {
            0
        } else {
            let before = self.after(events.drop_last());
            let counted: nat = match before.step_spec(events.last()).1 {
                ConnAction::Record(ConnUpdate::Closed) => 1,
                ConnAction::Record(ConnUpdate::Lost) => 1,
                _ => 0,
            };
            self.decrements(events.drop_last()) + counted
        }
    }

    /// Whether the connection counts as alive.
    pub open spec fn alive(self) -> bool {
        self.phase == Phase::Connected || self.phase == Phase::Running
    }

    /// Whether the lifecycle is over.
    pub open spec fn terminated(self) -> bool {
        self.phase is Terminated
    }

    /// Whether the connection was established at some point.
    pub open spec fn was_established(self) -> bool {
        self.phase != Phase::Connecting && self.phase != Phase::Terminated(Outcome::Error)
    }

    /// A driver for a connection that is about to connect, and the update
    /// that counts the attempt.
    pub fn launch(keepalive: u64) -> (launched: (Lifecycle, ConnUpdate))
        ensures
            launched.0 == (Lifecycle { keepalive, phase: Phase::Connecting }),
            launched.1 == ConnUpdate::Attempt,
    {
        (Lifecycle { keepalive, phase: Phase::Connecting }, ConnUpdate::Attempt)
    }

    /// Takes one report from the caller and answers it.
    pub fn step(&mut self, event: ConnEvent) -> (action: ConnAction)
        ensures
            (*final(self), action) == old(self).step_spec(event),
    {
        match (self.phase, event) {
            (Phase::Connecting, ConnEvent::Established { elapsed, latency }) => {
                self.phase = Phase::Connected;
                ConnAction::Record(ConnUpdate::Established { elapsed, latency })
            },
            (Phase::Connecting, ConnEvent::Refused { elapsed }) => {
                self.phase = Phase::Terminated(Outcome::Error);
                ConnAction::Record(ConnUpdate::Refused { elapsed })
            },
            (Phase::Connected, ConnEvent::LoopEntered) => {
                self.phase = Phase::Running;
                ConnAction::Serve(wait_bound(self.keepalive))
            },
            (Phase::Running, ConnEvent::Waited(waited)) => {
                let timed_out: bool = match waited {
                    Err(Error::AliveTimeout) => true,
                    _ => false,
                };
                if self.keepalive > 0 && timed_out {
                    self.phase = Phase::Terminated(Outcome::Closed);
                    ConnAction::Record(ConnUpdate::Closed)
                } else {
                    self.phase = Phase::Terminated(Outcome::Lost);
                    ConnAction::Record(ConnUpdate::Lost)
                }
            },
            _ => ConnAction::Ignore,
        }
    }

    /// The error kind that signals how the lifecycle ended, once it has:
    /// `ConnectFailed` for a connection that was never established, `Lost`
    /// for one whose loop ended by itself, and `AliveTimeout`, which is no
    /// failure, for one that reached its keepalive deadline.
    pub open spec fn signal(self) -> Option<Error> {
        match self.phase {
            Phase::Terminated(Outcome::Error) => Some(Error::ConnectFailed),
            Phase::Terminated(Outcome::Lost) => Some(Error::Lost),
            Phase::Terminated(Outcome::Closed) => Some(Error::AliveTimeout),
            _ => None,
        }
    }

    /// Computes `signal`.
    pub fn signaled(&self) -> (signal: Option<Error>)
        ensures
            signal == self.signal(),
    {
        match self.phase {
            Phase::Terminated(Outcome::Error) => Some(Error::ConnectFailed),
            Phase::Terminated(Outcome::Lost) => Some(Error::Lost),
            Phase::Terminated(Outcome::Closed) => Some(Error::AliveTimeout),
            _ => None,
        }
    }

    /// Whether the lifecycle is over.
    pub fn is_terminated(&self) -> (over: bool)
        ensures
            over == self.terminated(),
    {
        match self.phase {
            Phase::Terminated(_) => true,
            _ => false,
        }
    }
}

/// How far a phase is along the lifecycle.
pub open spec fn rank(phase: Phase) -> nat {
    match phase {
        Phase::Connecting => 0,
        Phase::Connected => 1,
        Phase::Running => 2,
        Phase::Terminated(_) => 3,
    }
}

/// The phases of a connection follow each other strictly: a step that
/// changes anything moves the phase forward, to the next phase or, from
/// connecting, to the end; and an established connection passes through
/// `Running` before it ends.
pub proof fn lemma_phases_in_order(driver: Lifecycle, event: ConnEvent)
    ensures
        ({
            let (next, action) = driver.step_spec(event);
            &&& action == ConnAction::Ignore <==> next == driver
            &&& next != driver ==> rank(next.phase) > rank(driver.phase)
            &&& next != driver ==> rank(next.phase) == rank(driver.phase) + 1 || (driver.phase
                == Phase::Connecting && next.phase == Phase::Terminated(Outcome::Error))
            &&& next.phase == Phase::Terminated(Outcome::Error) ==> driver.phase
                == Phase::Connecting || next == driver
        }),
{
}

/// One step of a lifecycle moves `alive` by as much as the connection's own
/// standing changes, and finishes the connection exactly when it answers with
/// an update that counts a completion.
pub proof fn lemma_step_accounts(driver: Lifecycle, event: ConnEvent)
    ensures
        ({
            let (next, action) = driver.step_spec(event);
            &&& next.keepalive == driver.keepalive
            &&& driver.terminated() ==> next == driver && action == ConnAction::Ignore
            &&& match action {
                ConnAction::Record(update) => {
                    &&& alive_delta(update) == (if next.alive() { 1int } else { 0int })
                        - (if driver.alive() { 1int } else { 0int })
                    &&& completed_delta(update) == (if next.terminated() { 1int } else { 0int })
                        - (if driver.terminated() { 1int } else { 0int })
                    &&& update != ConnUpdate::Attempt
                },
                _ => next.alive() == driver.alive() && next.terminated() == driver.terminated(),
            }
        }),
{
}

/// Without a keepalive no connection is ever classified `Closed`: whatever is
/// reported, a driver with keepalive zero that is not `Closed` does not become
/// so, and never asks for a `Closed` update.
pub proof fn lemma_no_close_without_keepalive(driver: Lifecycle, event: ConnEvent)
    requires
        driver.keepalive == 0,
        driver.phase != Phase::Terminated(Outcome::Closed),
    ensures
        driver.step_spec(event).0.phase != Phase::Terminated(Outcome::Closed),
        driver.step_spec(event).1 != ConnAction::Record(ConnUpdate::Closed),
        bound_of(driver.keepalive) == Bound::Unbounded,
{
}

/// With a keepalive, a serving connection whose wait ends on the deadline is
/// classified `Closed`, and on anything else `Lost`.
pub proof fn lemma_deadline_closes(driver: Lifecycle, race: Race)
    requires
        driver.keepalive > 0,
        driver.phase == Phase::Running,
    ensures
        bound_of(driver.keepalive) == Bound::Within(driver.keepalive),
        driver.step_spec(ConnEvent::Waited(result_of(race))).0.phase == Phase::Terminated(
            if race == Race::Deadline {
                Outcome::Closed
            } else {
                Outcome::Lost
            },
        ),
{
}

/// Over any sequence of reports, a connection that starts out connecting has
/// `alive` incremented once if it was ever established and not at all
/// otherwise, and decremented exactly once if it was established and its
/// lifecycle is over, and not at all otherwise.
pub proof fn lemma_alive_once(keepalive: u64, events: Seq<ConnEvent>)
    ensures
        ({
            let start = Lifecycle { keepalive, phase: Phase::Connecting };
            let end = start.after(events);
            &&& end.keepalive == keepalive
            &&& start.increments(events) == (if end.was_established() { 1nat } else { 0nat })
            &&& start.decrements(events) == (if end.was_established() && end.terminated() {
                1nat
            } else {
                0nat
            })
            &&& keepalive == 0 ==> end.phase != Phase::Terminated(Outcome::Closed)
        }),
    decreases events.len(),
{
    if events.len() > 0 {
        lemma_alive_once(keepalive, events.drop_last());
    }
}

} // verus!
