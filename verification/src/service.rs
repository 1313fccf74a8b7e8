//! The state that the service keeps while it runs, and what each endpoint
//! does with a request: it counts the request, then answers it.

use crate::compute::{clamped, plan, ComputeTask, FanIn, FanInState};
use crate::counters::RequestCounters;
use crate::echo::{blank_message, is_blank, validate_echo};
use crate::error::AppError;
use crate::hits::{Endpoint, HitCounts};
use crate::sum::{parse_sum, parse_sum_input, reports};
use crate::uptime::ServiceUptime;
use vstd::prelude::*;

verus! {

/// How many tasks a request for the fan-out gets when it names no number.
pub const DEFAULT_TASKS: usize = 5;

/// The answer of the health endpoint.
#[derive(Debug, Clone, Copy)]
pub struct Health {
    pub status: &'static str,
}

/// The answer of the metrics endpoint: for how long the service has run, and
/// how many requests each endpoint has taken.
#[derive(Debug, Clone, Copy, PartialEq, Eq, Structural)]
pub struct MetricsReport {
    pub uptime_seconds: u64,
    pub hits: HitCounts,
}

impl MetricsReport {
    /// The report of a service that has run for `uptime_seconds` and counted
    /// `hits`.
    pub fn new(uptime_seconds: u64, hits: HitCounts) -> (report: MetricsReport)
        ensures
            report.uptime_seconds == uptime_seconds,
            report.hits == hits,
    {
        MetricsReport { uptime_seconds, hits }
    }
}

/// The number of tasks that a request for the fan-out asks for: the number
/// it names, or [`DEFAULT_TASKS`] where it names none.
pub open spec fn requested_tasks(n: Option<usize>) -> usize {
    match n {
        Some(requested) => requested,
        None => DEFAULT_TASKS,
    }
}

/// What the service keeps from its start to its end: the moment of its
/// start and the request counters. It is made once and handed to every
/// handler by reference.
#[derive(Debug)]
pub struct AppState {
    uptime: ServiceUptime,
    counters: RequestCounters,
}

impl AppState {
    /// The state of a service that starts now and has taken no request.
    pub fn new() -> AppState {
        AppState { uptime: ServiceUptime::start(), counters: RequestCounters::new() }
    }

    /// The request counters of the service.
    pub closed spec fn spec_counters(&self) -> RequestCounters {
        self.counters
    }

    /// The request counters.
    pub fn counters(&self) -> (counters: &RequestCounters)
        ensures
            *counters == self.spec_counters(),
    {
        &self.counters
    }

    /// The root endpoint: counts the request and answers `ok`.
    pub fn root(&self) -> (body: &'static str)
        ensures
            body@ == "ok"@,
    {
        self.counters.increment(Endpoint::Root);
        "ok"
    }

    /// The health endpoint: counts the request and answers that the service
    /// is healthy.
    pub fn health(&self) -> (health: Health)
        ensures
            health.status@ == "healthy"@,
    {
        self.counters.increment(Endpoint::Health);
        Health { status: "healthy" }
    }

    /// The sum endpoint: counts the request and sums the integers that
    /// `nums` lists, as [`parse_sum_input`] does.
    pub fn sum(&self, nums: &str) -> (total: Result<i64, AppError>)
        ensures
            match (parse_sum(nums@), total) {
                (Ok(sum), Ok(value)) => value == sum,
                (Err(fault), Err(error)) => reports(error, fault),
                _ => false,
            },
    {
        self.counters.increment(Endpoint::Sum);
        parse_sum_input(nums)
    }

    /// The echo endpoint: counts the request and gives the message back,
    /// unless it is blank, as [`validate_echo`] does.
    pub fn echo(&self, message: String) -> (checked: Result<String, AppError>)
        ensures
            match checked {
                Ok(echoed) => !is_blank(message@) && echoed == message,
                Err(error) => is_blank(message@) && error is BadRequest && error.spec_message()
                    == blank_message(),
            },
    {
        self.counters.increment(Endpoint::Echo);
        validate_echo(message)
    }

    /// The fan-out endpoint: counts the request and plans its tasks. The
    /// caller starts the tasks, joins them and hands each outcome to the
    /// fan-in that comes with them.
    pub fn parallel(&self, n: Option<usize>) -> (started: (Vec<ComputeTask>, FanIn))
        ensures
            started.0@.len() == clamped(requested_tasks(n)),
            forall|i: int| 0 <= i < started.0@.len() ==> (#[trigger] started.0@[i])@ == i,
            started.1@ == FanInState::start(clamped(requested_tasks(n)) as nat),
    {
        self.counters.increment(Endpoint::Parallel);
        let requested: usize = match n {
            Some(requested) => requested,
            None => DEFAULT_TASKS,
        };
        let tasks = plan(requested);
        let fan_in = FanIn::new(tasks.len());
        (tasks, fan_in)
    }

    /// The metrics endpoint: reads the clock and the counters, and reports
    /// both. A request on this endpoint is not counted.
    pub fn metrics(&self) -> MetricsReport {
        let uptime_seconds: u64 = self.uptime.elapsed_seconds();
        let hits = self.counters.snapshot();
        MetricsReport::new(uptime_seconds, hits)
    }
}

} // verus!
