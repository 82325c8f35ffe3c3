//! The request loop of one established connection: send a request, wait for
//! the end-of-stream marker, close the subscription, send the next request.
//!
//! The loop here decides; its caller sleeps, sends and reads, and reports each
//! thing that happened. Each report is answered with the update to record in
//! the event statistics and the commands to carry out, in order. When it has
//! carried out the commands of an answer, the caller reports that they were
//! sent, or that a send failed; when an answer has no command, it reads the
//! next message. A request cycle is counted as issued just before its
//! request is sent, and not before the subscription of the cycle before it
//! was closed.

use vstd::prelude::*;
use vstd::utf8::encode_utf8;
use vstd::utf8::is_ascii_chars;
use vstd::utf8::is_ascii_chars_encode_utf8;
use crate::stats::EventCounts;
use crate::stats::EventUpdate;

verus! {

/// Delay before the first request of a connection, in seconds.
pub const WARM_UP_SECS: u64 = 1;

/// The end-of-stream marker: the bytes of `EOSE`.
pub open spec fn marker() -> Seq<u8> {
    seq![0x45u8, 0x4fu8, 0x53u8, 0x45u8]
}

/// Whether the marker stands in `payload` at position `at`.
pub open spec fn marker_at(payload: Seq<u8>, at: int) -> bool {
    0 <= at && at + 4 <= payload.len() && payload.subrange(at, at + 4) == marker()
}

/// Whether the marker stands anywhere in `payload`.
pub open spec fn has_marker(payload: Seq<u8>) -> bool {
    exists|at: int| marker_at(payload, at)
}

/// Whether a text message ends the current request cycle: its UTF-8 encoding
/// holds the marker.
pub open spec fn marks_end_of_stream(text: Seq<char>) -> bool {
    has_marker(encode_utf8(text))
}

/// The marker stands at `at` exactly when the four bytes from there are its
/// four bytes.
proof fn lemma_marker_at(payload: Seq<u8>, at: int)
    requires
        0 <= at,
        at + 4 <= payload.len(),
    ensures
        marker_at(payload, at) <==> payload[at] == 0x45 && payload[at + 1] == 0x4f && payload[at
            + 2] == 0x53 && payload[at + 3] == 0x45,
{
    let window = payload.subrange(at, at + 4);
    assert(window[0] == payload[at]);
    assert(window[1] == payload[at + 1]);
    assert(window[2] == payload[at + 2]);
    assert(window[3] == payload[at + 3]);
    if payload[at] == 0x45 && payload[at + 1] == 0x4f && payload[at + 2] == 0x53 && payload[at + 3]
        == 0x45 {
        assert(window =~= marker());
    }
}

/// Searches `payload` for the marker.
pub fn contains_marker(payload: &[u8]) -> (found: bool)
    ensures
        found == has_marker(payload@),
{
    let n: usize = payload.len();
    if n < 4 {
        return false;
    }
    let mut at: usize = 0;
    while at <= n - 4
        invariant
            n == payload@.len(),
            n >= 4,
            at <= n - 3,
            forall|k: int| 0 <= k < at ==> !marker_at(payload@, k),
        decreases n - at,
    {
        proof {
            lemma_marker_at(payload@, at as int);
        }
        if payload[at] == 0x45 && payload[at + 1] == 0x4f && payload[at + 2] == 0x53 && payload[at
            + 3] == 0x45 {
            return true;
        }
        at = at + 1;
    }
    false
}

/// Whether a text message ends the current request cycle.
pub fn is_end_of_stream(text: &str) -> (found: bool)
    ensures
        found == marks_end_of_stream(text@),
{
    contains_marker(text.as_bytes())
}

/// A message read from the connection, as far as the loop looks at it.
#[derive(Clone, Debug, PartialEq, Eq)]
pub enum Incoming {
    /// A text message.
    Text(String),
    /// A close frame.
    Close,
    /// Any other message: binary, ping, pong.
    Other,
}

/// What the loop's caller reports.
#[derive(Clone, Debug, PartialEq, Eq)]
pub enum LoopEvent {
    /// The warm-up delay is over.
    WarmedUp,
    /// A message was read, `waited` nanoseconds after the cycle clock was
    /// last started.
    Frame { message: Incoming, waited: u128 },
    /// The stream has no further message.
    StreamEnded,
    /// Reading failed.
    ReadFailed,
    /// Every command of the last answer was carried out.
    Sent,
    /// A send failed; the commands after the failed one were not carried out.
    SendFailed,
}

/// How the request loop stopped.
#[derive(Clone, Copy, Debug, PartialEq, Eq, Structural)]
pub enum LoopEnd {
    /// The peer sent a close frame.
    CloseFrame,
    /// The stream had no further message.
    StreamEnded,
    /// A read or a send failed.
    Failed,
}

/// Where the loop stands.
#[derive(Clone, Copy, Debug, PartialEq, Eq, Structural)]
pub enum LoopState {
    /// Waiting out the warm-up delay; nothing was sent yet.
    WarmingUp,
    /// A request is out and its end-of-stream marker has not been seen.
    Awaiting,
    /// The marker was seen and the subscription is being closed; the next
    /// cycle is not issued yet.
    Closing,
    /// The loop is over.
    Finished(LoopEnd),
}

/// One thing for the loop's caller to do.
#[derive(Clone, Copy, Debug, PartialEq, Eq, Structural)]
pub enum Command {
    /// Start the cycle clock anew.
    StartClock,
    /// Build a request message and send it.
    SendRequest,
    /// Build a close-subscription message and send it.
    SendClose,
}

/// The loop's answer to a report, as a value of specifications.
pub struct Reaction {
    /// The state after the report.
    pub state: LoopState,
    /// The update to record, if any.
    pub update: Option<EventUpdate>,
    /// The commands to carry out, in order.
    pub commands: Seq<Command>,
}

/// The loop's answer to a report.
#[derive(Clone, Debug, PartialEq, Eq)]
pub struct LoopStep {
    /// The update to record in the event statistics, before any command.
    pub update: Option<EventUpdate>,
    /// The commands to carry out, in order, up to the first that fails.
    pub commands: Vec<Command>,
}

/// The loop's answer to `event` in `state`.
///
/// After the warm-up the first cycle is issued. A text message with the
/// marker completes the cycle, and the subscription is closed; once that is
/// sent, the next cycle is issued. Any other text, and any message that is
/// neither text nor close, is passed over. A close frame, the end of the
/// stream and a failure end the loop. A report that does not fit the state
/// changes nothing.
pub open spec fn react(state: LoopState, event: LoopEvent) -> Reaction {
    match (state, event) {
        (LoopState::WarmingUp, LoopEvent::WarmedUp) => Reaction {
            state: LoopState::Awaiting,
            update: Some(EventUpdate::Issued),
            commands: seq![Command::StartClock, Command::SendRequest],
        },
        (LoopState::Awaiting, LoopEvent::Frame { message: Incoming::Text(text), waited }) => {
            if marks_end_of_stream(text@) {
                Reaction {
                    state: LoopState::Closing,
                    update: Some(EventUpdate::Completed { latency: waited }),
                    commands: seq![Command::SendClose],
                }
            } else {
                Reaction { state, update: None, commands: seq![] }
            }
        },
        (LoopState::Awaiting, LoopEvent::Frame { message: Incoming::Close, .. }) => Reaction {
            state: LoopState::Finished(LoopEnd::CloseFrame),
            update: None,
            commands: seq![],
        },
        (LoopState::Awaiting, LoopEvent::StreamEnded) => Reaction {
            state: LoopState::Finished(LoopEnd::StreamEnded),
            update: None,
            commands: seq![],
        },
        (LoopState::Awaiting, LoopEvent::ReadFailed) => Reaction {
            state: LoopState::Finished(LoopEnd::Failed),
            update: None,
            commands: seq![],
        },
        (LoopState::Awaiting, LoopEvent::SendFailed) => Reaction {
            state: LoopState::Finished(LoopEnd::Failed),
            update: None,
            commands: seq![],
        },
        (LoopState::Closing, LoopEvent::Sent) => Reaction {
            state: LoopState::Awaiting,
            update: Some(EventUpdate::Issued),
            commands: seq![Command::StartClock, Command::SendRequest],
        },
        (LoopState::Closing, LoopEvent::SendFailed) => Reaction {
            state: LoopState::Finished(LoopEnd::Failed),
            update: None,
            commands: seq![],
        },
        _ => Reaction { state, update: None, commands: seq![] },
    }
}

/// The state after a sequence of reports, first to last.
pub open spec fn state_after(state: LoopState, events: Seq<LoopEvent>) -> LoopState
    decreases events.len(),
{
    if events.len() == 0 {
        state
    } else {
        react(state_after(state, events.drop_last()), events.last()).state
    }
}

/// The updates asked for over a sequence of reports, in order.
pub open spec fn updates_over(state: LoopState, events: Seq<LoopEvent>) -> Seq<EventUpdate>
    decreases events.len(),
{
    if events.len() == 0 {
        seq![]
    } else {
        let earlier = updates_over(state, events.drop_last());
        match react(state_after(state, events.drop_last()), events.last()).update {
            Some(update) => earlier.push(update),
            None => earlier,
        }
    }
}

/// The request loop of one connection.
#[derive(Clone, Copy, Debug, PartialEq, Eq)]
pub struct RequestLoop {
    /// The current state.
    pub state: LoopState,
}

impl RequestLoop {
    /// A loop that waits out its warm-up delay.
    pub fn new() -> (request_loop: RequestLoop)
        ensures
            request_loop.state == LoopState::WarmingUp,
    {
        RequestLoop { state: LoopState::WarmingUp }
    }

    /// How long the caller sleeps before it reports `WarmedUp`: the warm-up
    /// delay while the loop is warming up, and nothing afterwards.
    pub fn warm_up(&self) -> (secs: Option<u64>)
        ensures
            secs == (if self.state == LoopState::WarmingUp {
                Some(WARM_UP_SECS)
            } else {
                None
            }),
    {
        match self.state {
            LoopState::WarmingUp => Some(WARM_UP_SECS),
            _ => None,
        }
    }

    /// Takes one report from the caller and answers it.
    pub fn step(&mut self, event: &LoopEvent) -> (step: LoopStep)
        ensures
            final(self).state == react(old(self).state, *event).state,
            step.update == react(old(self).state, *event).update,
            step.commands@ == react(old(self).state, *event).commands,
    {
        let mut update: Option<EventUpdate> = None;
        let mut commands: Vec<Command> = Vec::new();
        match self.state {
            LoopState::WarmingUp => {
                match event {
                    LoopEvent::WarmedUp => {
                        self.state = LoopState::Awaiting;
                        update = Some(EventUpdate::Issued);
                        commands.push(Command::StartClock);
                        commands.push(Command::SendRequest);
                    },
                    _ => {},
                }
            },
            LoopState::Awaiting => {
                match event {
                    LoopEvent::Frame { message: Incoming::Text(text), waited } => {
                        if is_end_of_stream(text.as_str()) {
                            self.state = LoopState::Closing;
                            update = Some(EventUpdate::Completed { latency: *waited });
                            commands.push(Command::SendClose);
                        }
                    },
                    LoopEvent::Frame { message: Incoming::Close, .. } => {
                        self.state = LoopState::Finished(LoopEnd::CloseFrame);
                    },
                    LoopEvent::StreamEnded => {
                        self.state = LoopState::Finished(LoopEnd::StreamEnded);
                    },
                    LoopEvent::ReadFailed => {
                        self.state = LoopState::Finished(LoopEnd::Failed);
                    },
                    LoopEvent::SendFailed => {
                        self.state = LoopState::Finished(LoopEnd::Failed);
                    },
                    _ => {},
                }
            },
            LoopState::Closing => {
                match event {
                    LoopEvent::Sent => {
                        self.state = LoopState::Awaiting;
                        update = Some(EventUpdate::Issued);
                        commands.push(Command::StartClock);
                        commands.push(Command::SendRequest);
                    },
                    LoopEvent::SendFailed => {
                        self.state = LoopState::Finished(LoopEnd::Failed);
                    },
                    _ => {},
                }
            },
            LoopState::Finished(_) => {},
        }
        proof {
            assert(commands@ =~= react(old(self).state, *event).commands);
        }
        LoopStep { update, commands }
    }

    /// How the loop stopped, once it has.
    pub fn ended(&self) -> (end: Option<LoopEnd>)
        ensures
            end == match self.state {
                LoopState::Finished(end) => Some(end),
                _ => None::<LoopEnd>,
            },
    {
        match self.state {
            LoopState::Finished(end) => Some(end),
            _ => None,
        }
    }
}

/// The cycles issued by a sequence of updates.
pub open spec fn cycles_issued(updates: Seq<EventUpdate>) -> nat
    decreases updates.len(),
{
    if updates.len() == 0 {
        0
    } else {
        cycles_issued(updates.drop_last()) + (if updates.last() is Issued {
            1nat
        } else {
            0nat
        })
    }
}

/// The cycles completed by a sequence of updates.
pub open spec fn cycles_completed(updates: Seq<EventUpdate>) -> nat
    decreases updates.len(),
{
    if updates.len() == 0 {
        0
    } else {
        cycles_completed(updates.drop_last()) + (if updates.last() is Completed {
            1nat
        } else {
            0nat
        })
    }
}

/// One more report moves the state by `react` and adds the update of its
/// answer, if it has one, to those asked for so far.
pub proof fn lemma_one_more_report(state: LoopState, events: Seq<LoopEvent>, event: LoopEvent)
    ensures
        state_after(state, events.push(event)) == react(state_after(state, events), event).state,
        updates_over(state, events.push(event)) == match react(
            state_after(state, events),
            event,
        ).update {
            Some(update) => updates_over(state, events).push(update),
            None => updates_over(state, events),
        },
{
    assert(events.push(event).drop_last() =~= events);
}

/// One more update adds to the three sums what it stands for.
pub proof fn lemma_one_more_update(updates: Seq<EventUpdate>, update: EventUpdate)
    ensures
        cycles_issued(updates.push(update)) == cycles_issued(updates) + (if update is Issued {
            1nat
        } else {
            0nat
        }),
        cycles_completed(updates.push(update)) == cycles_completed(updates) + (if update
            is Completed {
            1nat
        } else {
            0nat
        }),
        round_trip_time(updates.push(update)) == round_trip_time(updates) + (match update {
            EventUpdate::Completed { latency } => latency as nat,
            _ => 0nat,
        }),
{
    assert(updates.push(update).drop_last() =~= updates);
}

/// A loop has at most one cycle open: over any sequence of reports the
/// cycles it has issued are those it has completed, or one more. While it
/// warms up it has issued none; while it awaits the marker exactly one is
/// open; while it closes a subscription none is.
pub proof fn lemma_one_cycle_open(events: Seq<LoopEvent>)
    ensures
        ({
            let end = state_after(LoopState::WarmingUp, events);
            let updates = updates_over(LoopState::WarmingUp, events);
            &&& cycles_completed(updates) <= cycles_issued(updates) <= cycles_completed(updates) + 1
            &&& end == LoopState::WarmingUp ==> updates.len() == 0
            &&& end == LoopState::Awaiting ==> cycles_issued(updates) == cycles_completed(updates)
                + 1
            &&& end == LoopState::Closing ==> cycles_issued(updates) == cycles_completed(updates)
        }),
    decreases events.len(),
{
    if events.len() > 0 {
        let front = events.drop_last();
        lemma_one_cycle_open(front);
        assert(front.push(events.last()) =~= events);
        lemma_one_more_report(LoopState::WarmingUp, front, events.last());
        let earlier = updates_over(LoopState::WarmingUp, front);
        let before = state_after(LoopState::WarmingUp, front);
        match react(before, events.last()).update {
            Some(update) => {
                lemma_one_more_update(earlier, update);
            },
            None => {},
        }
    }
}

/// A finished loop stays finished: whatever is reported to it, its state is
/// the same and it asks for no update.
pub proof fn lemma_finished_stays_finished(end: LoopEnd, events: Seq<LoopEvent>)
    ensures
        state_after(LoopState::Finished(end), events) == LoopState::Finished(end),
        updates_over(LoopState::Finished(end), events) == Seq::<EventUpdate>::empty(),
    decreases events.len(),
{
    if events.len() > 0 {
        lemma_finished_stays_finished(end, events.drop_last());
    }
}

/// The sum of the round-trip times of the cycles completed by a sequence of
/// updates.
pub open spec fn round_trip_time(updates: Seq<EventUpdate>) -> nat
    decreases updates.len(),
{
    if updates.len() == 0 {
        0
    } else {
        round_trip_time(updates.drop_last()) + (match updates.last() {
            EventUpdate::Completed { latency } => latency as nat,
            _ => 0nat,
        })
    }
}

/// Whether `event` is a text message that holds the marker.
pub open spec fn is_answer(event: LoopEvent) -> bool {
    event matches LoopEvent::Frame { message: Incoming::Text(text), .. } && marks_end_of_stream(
        text@,
    )
}

/// The sum of the waits reported with a sequence of messages.
pub open spec fn waits(events: Seq<LoopEvent>) -> nat
    decreases events.len(),
{
    if events.len() == 0 {
        0
    } else {
        waits(events.drop_last()) + (match events.last() {
            LoopEvent::Frame { waited, .. } => waited as nat,
            _ => 0nat,
        })
    }
}

/// The statistics count what the updates say: after any sequence of updates
/// `total` has grown by the cycles issued, `completed` by the cycles
/// completed, and the cumulative round-trip time by the sum of their
/// round-trip times.
pub proof fn lemma_updates_accounted(counts: EventCounts, updates: Seq<EventUpdate>)
    ensures
        counts.apply_all(updates).total == counts.total + cycles_issued(updates),
        counts.apply_all(updates).completed == counts.completed + cycles_completed(updates),
        counts.apply_all(updates).cumulative_round_trip_time == counts.cumulative_round_trip_time
            + round_trip_time(updates),
        counts.apply_all(updates).errored == counts.errored,
    decreases updates.len(),
{
    if updates.len() > 0 {
        lemma_updates_accounted(counts, updates.drop_last());
    }
}

/// The reports of a loop whose peer answers every request with one of
/// `answers` and whose sends all succeed: the warm-up and its request, then
/// each answer followed by the close and the next request.
pub open spec fn served(answers: Seq<LoopEvent>) -> Seq<LoopEvent>
    decreases answers.len(),
{
    if answers.len() == 0 {
        Seq::empty().push(LoopEvent::WarmedUp).push(LoopEvent::Sent)
    } else {
        served(answers.drop_last()).push(answers.last()).push(LoopEvent::Sent)
    }
}

/// A peer that answers every request with the marker completes one cycle per
/// answer: after the warm-up and any number of such answers the loop is
/// awaiting again, has completed as many cycles as there were answers and
/// issued one more, and the round-trip times add up to the waits reported
/// with the answers.
pub proof fn lemma_every_answer_completes_a_cycle(answers: Seq<LoopEvent>)
    requires
        forall|i: int| 0 <= i < answers.len() ==> is_answer(#[trigger] answers[i]),
    ensures
        ({
            let events = served(answers);
            let updates = updates_over(LoopState::WarmingUp, events);
            &&& state_after(LoopState::WarmingUp, events) == LoopState::Awaiting
            &&& cycles_completed(updates) == answers.len()
            &&& cycles_issued(updates) == answers.len() + 1
            &&& round_trip_time(updates) == waits(answers)
        }),
    decreases answers.len(),
{
    let start = LoopState::WarmingUp;
    if answers.len() == 0 {
        let none = Seq::<LoopEvent>::empty();
        let warmed = none.push(LoopEvent::WarmedUp);
        lemma_one_more_report(start, none, LoopEvent::WarmedUp);
        lemma_one_more_report(start, warmed, LoopEvent::Sent);
        lemma_one_more_update(Seq::<EventUpdate>::empty(), EventUpdate::Issued);
    } else {
        let front = answers.drop_last();
        let answer = answers.last();
        lemma_every_answer_completes_a_cycle(front);
        assert(is_answer(answers[answers.len() - 1]));
        let before = served(front);
        let answered = before.push(answer);
        lemma_one_more_report(start, before, answer);
        lemma_one_more_report(start, answered, LoopEvent::Sent);
        match answer {
            LoopEvent::Frame { message: Incoming::Text(text), waited } => {
                let completed = EventUpdate::Completed { latency: waited };
                lemma_one_more_update(updates_over(start, before), completed);
                lemma_one_more_update(updates_over(start, answered), EventUpdate::Issued);
            },
            _ => {},
        }
    }
}

/// The marker as characters.
pub open spec fn marker_chars() -> Seq<char> {
    seq!['E', 'O', 'S', 'E']
}

/// In a text of ASCII characters the marker is found exactly where the four
/// characters `EOSE` stand next to each other.
pub proof fn lemma_marker_in_ascii_text(text: Seq<char>)
    requires
        is_ascii_chars(text),
    ensures
        marks_end_of_stream(text) <==> exists|at: int|
            0 <= at && at + 4 <= text.len() && #[trigger] text.subrange(at, at + 4)
                == marker_chars(),
{
    let bytes = encode_utf8(text);
    is_ascii_chars_encode_utf8(text);
    assert forall|at: int| 0 <= at && at + 4 <= text.len() implies (marker_at(bytes, at)
        <==> #[trigger] text.subrange(at, at + 4) == marker_chars()) by {
        lemma_marker_at(bytes, at);
        let window = text.subrange(at, at + 4);
        assert(window[0] == text[at]);
        assert(window[1] == text[at + 1]);
        assert(window[2] == text[at + 2]);
        assert(window[3] == text[at + 3]);
        assert(text[at] as u8 == bytes[at]);
        assert(text[at + 1] as u8 == bytes[at + 1]);
        assert(text[at + 2] as u8 == bytes[at + 2]);
        assert(text[at + 3] as u8 == bytes[at + 3]);
        if marker_at(bytes, at) {
            assert(window =~= marker_chars());
        }
    }
    if marks_end_of_stream(text) {
        let at = choose|at: int| marker_at(bytes, at);
        assert(text.subrange(at, at + 4) == marker_chars());
    }
    if exists|at: int|
        0 <= at && at + 4 <= text.len() && #[trigger] text.subrange(at, at + 4) == marker_chars() {
        let at = choose|at: int|
            0 <= at && at + 4 <= text.len() && #[trigger] text.subrange(at, at + 4)
                == marker_chars();
        assert(marker_at(bytes, at));
    }
}

} // verus!
