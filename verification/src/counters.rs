//! The request counters that the handlers of the service share: one cell
//! for each endpoint, which any number of requests may count on at once.

use crate::hits::{Endpoint, HitCounts};
use std::sync::atomic::{AtomicU64, Ordering};
use vstd::prelude::*;

verus! {

/// One counter for each endpoint. A counter is an atomic cell: counting
/// takes no lock, and a reading never waits for a request that counts. What
/// the cells hold is shared between the requests in flight, so no contract
/// here speaks of it; [`HitCounts`] says what one request does to the counts.
#[derive(Debug)]
pub struct RequestCounters {
    root: AtomicU64,
    health: AtomicU64,
    sum: AtomicU64,
    echo: AtomicU64,
    parallel: AtomicU64,
}

impl RequestCounters {
    /// The counters of a service that has taken no request: all zero.
    pub fn new() -> RequestCounters {
        RequestCounters {
            root: AtomicU64::new(0),
            health: AtomicU64::new(0),
            sum: AtomicU64::new(0),
            echo: AtomicU64::new(0),
            parallel: AtomicU64::new(0),
        }
    }

    /// The cell in which the requests on `endpoint` are counted.
    pub closed spec fn spec_cell(&self, endpoint: Endpoint) -> AtomicU64 {
        match endpoint {
            Endpoint::Root => self.root,
            Endpoint::Health => self.health,
            Endpoint::Sum => self.sum,
            Endpoint::Echo => self.echo,
            Endpoint::Parallel => self.parallel,
        }
    }

    /// The cell of `endpoint`.
    fn cell(&self, endpoint: Endpoint) -> (cell: &AtomicU64)
        ensures
            *cell == self.spec_cell(endpoint),
    {
        match endpoint {
            Endpoint::Root => &self.root,
            Endpoint::Health => &self.health,
            Endpoint::Sum => &self.sum,
            Endpoint::Echo => &self.echo,
            Endpoint::Parallel => &self.parallel,
        }
    }

    /// Counts one more request on `endpoint`, in one atomic step on that
    /// endpoint's cell alone.
    pub fn increment(&self, endpoint: Endpoint) {
        let _ = self.cell(endpoint).fetch_add(1, Ordering::Relaxed);
    }

    /// Reads the count of `endpoint`.
    pub fn load(&self, endpoint: Endpoint) -> u64 {
        self.cell(endpoint).load(Ordering::Relaxed)
    }

    /// Reads every count, one cell after the other. Requests that count
    /// meanwhile may be in some of the readings and not in others.
    pub fn snapshot(&self) -> HitCounts {
        let root: u64 = self.load(Endpoint::Root);
        let health: u64 = self.load(Endpoint::Health);
        let sum: u64 = self.load(Endpoint::Sum);
        let echo: u64 = self.load(Endpoint::Echo);
        let parallel: u64 = self.load(Endpoint::Parallel);
        HitCounts::from_readings(root, health, sum, echo, parallel)
    }
}

} // verus!
