//! The configuration of one run.

use vstd::prelude::*;
use crate::spawner::Spawner;
use crate::spawner::SpawnerView;

verus! {

/// Connections opened where no count is given.
pub const DEFAULT_COUNT: usize = 100;

/// Connections launched per second where no rate is given.
pub const DEFAULT_RATE: usize = 50;

/// Keepalive in seconds where none is given.
pub const DEFAULT_KEEPALIVE: u64 = 600;

/// Options of a run.
///
/// The target and the local interfaces are carried as text; they are parsed
/// and resolved where the connections are made.
#[derive(Clone, Debug, PartialEq, Eq)]
pub struct ReqOpts {
    /// Target URL.
    pub url: String,
    /// Number of connections to open.
    pub count: usize,
    /// Connections launched per second.
    pub rate: usize,
    /// Seconds after which a connection is closed; zero for never.
    pub keepalive: u64,
    /// Worker threads; zero for one per available core.
    pub threads: usize,
    /// Addresses of the local interfaces to bind to, if any.
    pub interface: Option<Vec<String>>,
}

impl ReqOpts {
    /// The length of the interface list; zero where there is none.
    pub open spec fn interfaces(&self) -> nat {
        match self.interface {
            Some(list) => list@.len(),
            None => 0,
        }
    }

    /// Whether a spawner can work through these options: a rate of zero is
    /// acceptable only where nothing is to be launched.
    pub open spec fn launchable(&self) -> bool {
        self.count == 0 || self.rate > 0
    }

    /// Options for `url` with the default count, rate and keepalive, one
    /// worker thread per core, and no interface list.
    pub fn new(url: String) -> (opts: ReqOpts)
        ensures
            opts.url == url,
            opts.count == DEFAULT_COUNT,
            opts.rate == DEFAULT_RATE,
            opts.keepalive == DEFAULT_KEEPALIVE,
            opts.threads == 0,
            opts.interface is None,
            opts.launchable(),
    {
        ReqOpts {
            url,
            count: DEFAULT_COUNT,
            rate: DEFAULT_RATE,
            keepalive: DEFAULT_KEEPALIVE,
            threads: 0,
            interface: None,
        }
    }

    /// Computes `interfaces`.
    pub fn interface_count(&self) -> (n: usize)
        ensures
            n == self.interfaces(),
    {
        match &self.interface {
            Some(list) => list.len(),
            None => 0,
        }
    }

    /// The spawner for these options, or none where they are not launchable.
    pub fn spawner(&self) -> (spawner: Option<Spawner>)
        ensures
            spawner is Some <==> self.launchable(),
            spawner matches Some(s) ==> s@ == SpawnerView::start(
                self.count as nat,
                self.rate as nat,
                self.interfaces(),
            ) && s@.wf(),
    {
        if self.count == 0 || self.rate > 0 {
            Some(Spawner::new(self.count, self.rate, self.interface_count()))
        } else {
            None
        }
    }
}

} // verus!
