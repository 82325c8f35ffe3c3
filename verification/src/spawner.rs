//! The connection spawner: which connection to launch next, on which local
//! interface, and when to pause so that no more than `rate` connections are
//! launched per one-second window.
//!
//! The spawner decides; its caller launches the task, or sleeps, and asks again.

use vstd::prelude::*;
use vstd::arithmetic::div_mod::lemma_fundamental_div_mod;
use vstd::arithmetic::div_mod::lemma_fundamental_div_mod_converse;

verus! {

/// Length of the pause after each full batch of launches, in seconds.
pub const BATCH_PAUSE_SECS: u64 = 1;

/// What the spawner's caller does next.
#[derive(Clone, Copy, Debug, PartialEq, Eq)]
pub enum SpawnAction {
    /// Launch connection number `index`, bound to the local interface at
    /// position `interface` of the configured list, or unbound.
    Launch { index: usize, interface: Option<usize> },
    /// Sleep for `secs` seconds before asking again.
    Pause { secs: u64 },
    /// Every connection has been launched.
    Done,
}

/// The interface that connection `index` binds to: round-robin over a list of
/// `interfaces` entries, none where the list is empty.
pub open spec fn bind_interface(index: nat, interfaces: nat) -> Option<usize> {
    if interfaces > 0 {
        Some((index % interfaces) as usize)
    } else {
        None
    }
}

/// The state of a spawner, as unbounded integers.
pub struct SpawnerView {
    /// Connections to launch.
    pub count: nat,
    /// Launches per batch.
    pub rate: nat,
    /// Length of the interface list.
    pub interfaces: nat,
    /// Connections launched so far.
    pub launched: nat,
    /// Pauses taken so far.
    pub pauses: nat,
    /// Whether a batch was just filled and its pause not yet taken.
    pub pause_owed: bool,
}

impl SpawnerView {
    /// The state before anything is launched.
    pub open spec fn start(count: nat, rate: nat, interfaces: nat) -> SpawnerView {
        SpawnerView { count, rate, interfaces, launched: 0, pauses: 0, pause_owed: false }
    }

    /// The runs that a spawner can be made for: every number fits the
    /// machine, and the rate is zero only where nothing is to be launched.
    pub open spec fn admissible(count: nat, rate: nat, interfaces: nat) -> bool {
        &&& count <= usize::MAX
        &&& rate <= usize::MAX
        &&& interfaces <= usize::MAX
        &&& count == 0 || rate > 0
    }

    /// The next state and the action that leads to it.
    pub open spec fn next(self) -> (SpawnerView, SpawnAction) {
        if self.pause_owed {
            (
                SpawnerView { pauses: self.pauses + 1, pause_owed: false, ..self },
                SpawnAction::Pause { secs: BATCH_PAUSE_SECS },
            )
        } else if self.launched < self.count {
            (
                SpawnerView {
                    launched: self.launched + 1,
                    pause_owed: (self.launched + 1) % self.rate == 0,
                    ..self
                },
                SpawnAction::Launch {
                    index: self.launched as usize,
                    interface: bind_interface(self.launched, self.interfaces),
                },
            )
        } else {
            (self, SpawnAction::Done)
        }
    }

    /// The state after `steps` actions.
    pub open spec fn after(self, steps: nat) -> SpawnerView
        decreases steps,
    {
        if steps == 0 {
            self
        } else {
            self.after((steps - 1) as nat).next().0
        }
    }

    /// The states that a spawner passes through: never more launches than
    /// requested, a pause owed only at the end of a full batch, and one pause
    /// taken for every full batch before the current one.
    pub open spec fn wf(self) -> bool {
        &&& self.count <= usize::MAX
        &&& self.rate <= usize::MAX
        &&& self.interfaces <= usize::MAX
        &&& self.launched <= self.count
        &&& self.count > 0 ==> self.rate > 0
        &&& self.rate == 0 ==> self.pauses == 0 && !self.pause_owed
        &&& self.rate > 0 ==> self.pauses + (if self.pause_owed { 1nat } else { 0nat })
            == self.launched / self.rate
        &&& self.pause_owed ==> self.launched > 0 && self.launched % self.rate == 0
    }

    /// Actions still to come before `Done`, at most.
    pub open spec fn remaining(self) -> nat {
        (2 * (self.count - self.launched) + (if self.pause_owed { 1int } else { 0int })) as nat
    }
}

/// Full batches among `launched + 1` launches, from those among `launched`.
proof fn lemma_batches_step(launched: nat, rate: nat)
    requires
        rate > 0,
    ensures
        (launched + 1) % rate == 0 ==> (launched + 1) / rate == launched / rate + 1,
        (launched + 1) % rate != 0 ==> (launched + 1) / rate == launched / rate,
{
    let q = launched as int / rate as int;
    let r = launched as int % rate as int;
    lemma_fundamental_div_mod(launched as int, rate as int);
    assert(launched == rate * q + r);
    if r + 1 < rate {
        assert(launched + 1 == q * rate + (r + 1)) by (nonlinear_arith)
            requires
                launched == rate * q + r,
        ;
        lemma_fundamental_div_mod_converse((launched + 1) as int, rate as int, q, r + 1);
    } else {
        assert(launched + 1 == (q + 1) * rate + 0) by (nonlinear_arith)
            requires
                launched == rate * q + r,
                r + 1 == rate,
        ;
        lemma_fundamental_div_mod_converse((launched + 1) as int, rate as int, q + 1, 0);
    }
}

/// A spawner starts out well formed.
pub proof fn lemma_start_wf(count: nat, rate: nat, interfaces: nat)
    requires
        SpawnerView::admissible(count, rate, interfaces),
    ensures
        SpawnerView::start(count, rate, interfaces).wf(),
{
    if rate > 0 {
        lemma_fundamental_div_mod_converse(0, rate as int, 0, 0);
    }
}

/// Every step keeps the spawner well formed. A launch takes the next index in
/// order, binds it round-robin, and comes after exactly `index / rate` pauses
/// of `BATCH_PAUSE_SECS` seconds each: batch `k` holds the indices from
/// `k * rate` up to `(k + 1) * rate` and starts `k` pauses after the first. The spawner is done exactly
/// when `count` connections are launched and no pause is owed, and each other
/// step brings that nearer.
pub proof fn lemma_spawner_step(state: SpawnerView)
    requires
        state.wf(),
    ensures
        state.next().0.wf(),
        match state.next().1 {
            SpawnAction::Launch { index, interface } => {
                &&& index == state.launched
                &&& state.launched < state.count
                &&& state.next().0.launched == state.launched + 1
                &&& state.next().0.pauses == state.pauses
                &&& state.pauses == index as nat / state.rate
                &&& interface == bind_interface(index as nat, state.interfaces)
                &&& state.interfaces > 0 ==> interface == Some(
                    (index as nat % state.interfaces) as usize,
                )
                &&& state.next().0.remaining() < state.remaining()
            },
            SpawnAction::Pause { secs } => {
                &&& secs == BATCH_PAUSE_SECS
                &&& state.launched > 0
                &&& state.launched % state.rate == 0
                &&& state.next().0.launched == state.launched
                &&& state.next().0.pauses == state.pauses + 1
                &&& state.next().0.pauses == state.launched / state.rate
                &&& state.next().0.remaining() < state.remaining()
            },
            SpawnAction::Done => {
                &&& state.launched == state.count
                &&& state.next().0 == state
                &&& state.remaining() == 0
            },
        },
{
    if !state.pause_owed && state.launched < state.count {
        lemma_batches_step(state.launched, state.rate);
    }
}

/// However many actions are taken, the spawner stays well formed and never
/// launches more than `count` connections. After `remaining` actions, at the
/// latest, all `count` are launched, and one pause was taken for each full
/// batch among them.
pub proof fn lemma_spawner_after(state: SpawnerView, steps: nat)
    requires
        state.wf(),
    ensures
        state.after(steps).wf(),
        state.after(steps).launched <= state.count,
        state.after(steps).count == state.count,
        state.after(steps).rate == state.rate,
        state.after(steps).interfaces == state.interfaces,
        state.after(steps).launched >= state.launched,
        state.after(steps).remaining() == 0 || state.after(steps).remaining() + steps
            <= state.remaining(),
        steps >= state.remaining() ==> state.after(steps).launched == state.count
            && !state.after(steps).pause_owed,
        steps >= state.remaining() && state.rate > 0 ==> state.after(steps).pauses == state.count
            / state.rate,
    decreases steps,
{
    if steps > 0 {
        lemma_spawner_after(state, (steps - 1) as nat);
        lemma_spawner_step(state.after((steps - 1) as nat));
    }
}

/// The connection spawner.
pub struct Spawner {
    count: usize,
    rate: usize,
    interfaces: usize,
    launched: usize,
    pauses: usize,
    pause_owed: bool,
}

impl View for Spawner {
    type V = SpawnerView;

    closed spec fn view(&self) -> SpawnerView {
        SpawnerView {
            count: self.count as nat,
            rate: self.rate as nat,
            interfaces: self.interfaces as nat,
            launched: self.launched as nat,
            pauses: self.pauses as nat,
            pause_owed: self.pause_owed,
        }
    }
}

impl Spawner {
    #[verifier::type_invariant]
    spec fn inv(&self) -> bool {
        self@.wf()
    }

    /// A spawner for `count` connections in batches of `rate`, over a list of
    /// `interfaces` local interfaces (zero for none).
    ///
    /// A rate of zero is accepted only where nothing is to be launched.
    pub fn new(count: usize, rate: usize, interfaces: usize) -> (spawner: Spawner)
        requires
            count == 0 || rate > 0,
        ensures
            spawner@ == SpawnerView::start(count as nat, rate as nat, interfaces as nat),
            spawner@.wf(),
    {
        proof {
            lemma_start_wf(count as nat, rate as nat, interfaces as nat);
        }
        Spawner { count, rate, interfaces, launched: 0, pauses: 0, pause_owed: false }
    }

    /// Decides the next action and moves to the state after it.
    pub fn next(&mut self) -> (action: SpawnAction)
        ensures
            final(self)@.wf(),
            final(self)@ == old(self)@.next().0,
            action == old(self)@.next().1,
    {
        proof {
            use_type_invariant(&*self);
            lemma_spawner_step(self@);
        }
        if self.pause_owed {
            *self = Spawner {
                count: self.count,
                rate: self.rate,
                interfaces: self.interfaces,
                launched: self.launched,
                pauses: self.pauses + 1,
                pause_owed: false,
            };
            SpawnAction::Pause { secs: BATCH_PAUSE_SECS }
        } else if self.launched < self.count {
            let index: usize = self.launched;
            let interface: Option<usize> = if self.interfaces > 0 {
                Some(index % self.interfaces)
            } else {
                None
            };
            *self = Spawner {
                count: self.count,
                rate: self.rate,
                interfaces: self.interfaces,
                launched: index + 1,
                pauses: self.pauses,
                pause_owed: (index + 1) % self.rate == 0,
            };
            SpawnAction::Launch { index, interface }
        } else {
            SpawnAction::Done
        }
    }

    /// Connections launched so far.
    pub fn launched(&self) -> (n: usize)
        ensures
            n == self@.launched,
    {
        self.launched
    }

    /// Pauses taken so far.
    pub fn pauses(&self) -> (n: usize)
        ensures
            n == self@.pauses,
    {
        self.pauses
    }
}

} // verus!
