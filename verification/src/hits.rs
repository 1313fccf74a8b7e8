//! The endpoints of the service and the number of requests that each has
//! taken.

use vstd::prelude::*;

verus! {

/// An endpoint whose requests are counted.
#[derive(Debug, Clone, Copy, PartialEq, Eq, Hash, Structural)]
pub enum Endpoint {
    Root,
    Health,
    Sum,
    Echo,
    Parallel,
}

impl Endpoint {
    /// The name under which the endpoint's count is reported.
    pub open spec fn spec_name(self) -> Seq<char> {
        match self {
            Endpoint::Root => "root"@,
            Endpoint::Health => "health"@,
            Endpoint::Sum => "sum"@,
            Endpoint::Echo => "echo"@,
            Endpoint::Parallel => "parallel"@,
        }
    }

    /// The name under which the endpoint's count is reported.
    pub fn name(self) -> (name: &'static str)
        ensures
            name@ == self.spec_name(),
    {
        match self {
            Endpoint::Root => "root",
            Endpoint::Health => "health",
            Endpoint::Sum => "sum",
            Endpoint::Echo => "echo",
            Endpoint::Parallel => "parallel",
        }
    }

    /// All the endpoints, in the order in which their counts are reported.
    pub fn all() -> (endpoints: [Endpoint; 5])
        ensures
            endpoints@ == seq![
                Endpoint::Root,
                Endpoint::Health,
                Endpoint::Sum,
                Endpoint::Echo,
                Endpoint::Parallel,
            ],
    {
        [Endpoint::Root, Endpoint::Health, Endpoint::Sum, Endpoint::Echo, Endpoint::Parallel]
    }
}

/// The count of each endpoint at one moment.
#[derive(Debug, Clone, Copy, PartialEq, Eq, Structural)]
pub struct HitCounts {
    pub root: u64,
    pub health: u64,
    pub sum: u64,
    pub echo: u64,
    pub parallel: u64,
}

/// The count that follows `count` when one more request is taken. A count
/// that has reached the end of the 64-bit range starts again at zero.
pub open spec fn next_count(count: u64) -> u64 {
    if count == u64::MAX {
        0
    } else {
        (count + 1) as u64
    }
}

/// How many of `hits` are requests on `endpoint`.
pub open spec fn occurrences(hits: Seq<Endpoint>, endpoint: Endpoint) -> nat
    decreases hits.len(),
{
    if hits.len() == 0 {
        0
    } else if hits.last() == endpoint {
        occurrences(hits.drop_last(), endpoint) + 1
    } else {
        occurrences(hits.drop_last(), endpoint)
    }
}

/// `k` requests on `endpoint`, and no other.
pub open spec fn repeated(endpoint: Endpoint, k: nat) -> Seq<Endpoint> {
    Seq::new(k, |i: int| endpoint)
}

impl HitCounts {
    /// The counts before any request: all zero.
    pub open spec fn zero() -> HitCounts {
        HitCounts { root: 0, health: 0, sum: 0, echo: 0, parallel: 0 }
    }

    /// The count of `endpoint`.
    pub open spec fn count(self, endpoint: Endpoint) -> u64 {
        match endpoint {
            Endpoint::Root => self.root,
            Endpoint::Health => self.health,
            Endpoint::Sum => self.sum,
            Endpoint::Echo => self.echo,
            Endpoint::Parallel => self.parallel,
        }
    }

    /// The counts after one more request on `endpoint`.
    pub open spec fn recorded(self, endpoint: Endpoint) -> HitCounts {
        match endpoint {
            Endpoint::Root => HitCounts { root: next_count(self.root), ..self },
            Endpoint::Health => HitCounts { health: next_count(self.health), ..self },
            Endpoint::Sum => HitCounts { sum: next_count(self.sum), ..self },
            Endpoint::Echo => HitCounts { echo: next_count(self.echo), ..self },
            Endpoint::Parallel => HitCounts { parallel: next_count(self.parallel), ..self },
        }
    }

    /// The counts after the requests `hits`, one after the other.
    pub open spec fn recorded_all(self, hits: Seq<Endpoint>) -> HitCounts
        decreases hits.len(),
    {
        if hits.len() == 0 {
            self
        } else {
            self.recorded_all(hits.drop_last()).recorded(hits.last())
        }
    }

    /// The counts before any request: all zero.
    pub fn new() -> (counts: HitCounts)
        ensures
            counts == HitCounts::zero(),
            forall|endpoint: Endpoint| #[trigger] counts.count(endpoint) == 0,
    {
        HitCounts { root: 0, health: 0, sum: 0, echo: 0, parallel: 0 }
    }

    /// The counts that one reading of each endpoint's counter gives.
    pub fn from_readings(root: u64, health: u64, sum: u64, echo: u64, parallel: u64) -> (counts:
        HitCounts)
        ensures
            counts == (HitCounts { root, health, sum, echo, parallel }),
            counts.count(Endpoint::Root) == root,
            counts.count(Endpoint::Health) == health,
            counts.count(Endpoint::Sum) == sum,
            counts.count(Endpoint::Echo) == echo,
            counts.count(Endpoint::Parallel) == parallel,
    {
        HitCounts { root, health, sum, echo, parallel }
    }

    /// The count of `endpoint`.
    pub fn get(&self, endpoint: Endpoint) -> (count: u64)
        ensures
            count == self.count(endpoint),
    {
        match endpoint {
            Endpoint::Root => self.root,
            Endpoint::Health => self.health,
            Endpoint::Sum => self.sum,
            Endpoint::Echo => self.echo,
            Endpoint::Parallel => self.parallel,
        }
    }

    /// Counts one more request on `endpoint`: its count goes up by one, and
    /// the other counts stay.
    pub fn record(&mut self, endpoint: Endpoint)
        ensures
            *final(self) == old(self).recorded(endpoint),
            final(self).count(endpoint) == next_count(old(self).count(endpoint)),
            old(self).count(endpoint) < u64::MAX ==> final(self).count(endpoint) == old(
                self,
            ).count(endpoint) + 1,
            forall|other: Endpoint|
                other != endpoint ==> #[trigger] final(self).count(other) == old(self).count(
                    other,
                ),
    {
        match endpoint {
            Endpoint::Root => {
                self.root = step(self.root);
            },
            Endpoint::Health => {
                self.health = step(self.health);
            },
            Endpoint::Sum => {
                self.sum = step(self.sum);
            },
            Endpoint::Echo => {
                self.echo = step(self.echo);
            },
            Endpoint::Parallel => {
                self.parallel = step(self.parallel);
            },
        }
    }
}

/// Computes [`next_count`].
fn step(count: u64) -> (next: u64)
    ensures
        next == next_count(count),
{
    if count == u64::MAX {
        0
    } else {
        count + 1
    }
}

/// Every request is counted once, on its own endpoint: after the requests
/// `hits`, in whatever order the endpoints follow each other in it, the count
/// of `endpoint` has gone up by the number of requests on it, as long as that
/// fits the 64-bit range.
pub proof fn lemma_every_hit_counts(start: HitCounts, hits: Seq<Endpoint>, endpoint: Endpoint)
    requires
        start.count(endpoint) + occurrences(hits, endpoint) <= u64::MAX,
    ensures
        start.recorded_all(hits).count(endpoint) == start.count(endpoint) + occurrences(
            hits,
            endpoint,
        ),
    decreases hits.len(),
{
    if hits.len() > 0 {
        lemma_every_hit_counts(start, hits.drop_last(), endpoint);
    }
}

/// After `k` requests on `endpoint` and no other request, counted from
/// zero, the count of `endpoint` is `k` and every other count is zero.
pub proof fn lemma_count_after_k_hits(endpoint: Endpoint, k: nat)
    requires
        k <= u64::MAX,
    ensures
        HitCounts::zero().recorded_all(repeated(endpoint, k)).count(endpoint) == k,
        forall|other: Endpoint|
            other != endpoint ==> #[trigger] HitCounts::zero().recorded_all(
                repeated(endpoint, k),
            ).count(other) == 0,
    decreases k,
{
    let hits = repeated(endpoint, k);
    if k > 0 {
        let fewer = repeated(endpoint, (k - 1) as nat);
        assert(hits.drop_last() =~= fewer);
        assert(hits.last() == endpoint);
        lemma_count_after_k_hits(endpoint, (k - 1) as nat);
        assert forall|other: Endpoint| other != endpoint implies #[trigger] HitCounts::zero(
        ).recorded_all(hits).count(other) == 0 by {
            assert(HitCounts::zero().recorded_all(fewer).count(other) == 0);
        }
    }
}

/// A count never goes down before it has reached the end of the 64-bit
/// range.
pub proof fn lemma_counts_do_not_decrease(counts: HitCounts, hit: Endpoint, endpoint: Endpoint)
    requires
        counts.count(endpoint) < u64::MAX,
    ensures
        counts.recorded(hit).count(endpoint) >= counts.count(endpoint),
{
}

} // verus!
