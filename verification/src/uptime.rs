//! The moment at which the service started, and the time that has passed
//! since.

use std::time::{Duration, Instant};
use vstd::prelude::*;

verus! {

/// `std::time::Instant`: a reading of the monotonic clock. Nothing is said
/// of what it holds.
#[verifier::external_type_specification]
#[verifier::external_body]
pub struct ExInstant(Instant);

/// `std::time::Instant::now` reads the clock. Nothing is claimed of the
/// reading: it differs from call to call.
pub assume_specification[ Instant::now ]() -> Instant;

/// `std::time::Instant::elapsed` gives the time that has passed since the
/// reading was taken. Nothing is claimed of it: it depends on the clock.
pub assume_specification[ Instant::elapsed ](instant: &Instant) -> Duration;

/// `std::time::Duration::as_secs` gives the whole seconds of a duration.
/// Nothing is claimed of the number: a duration is not looked into here.
pub assume_specification[ Duration::as_secs ](duration: &Duration) -> u64;

/// The moment at which the service started.
#[derive(Debug, Clone, Copy)]
pub struct ServiceUptime {
    started: Instant,
}

impl ServiceUptime {
    /// Takes the present moment as the start of the service.
    pub fn start() -> ServiceUptime {
        ServiceUptime { started: Instant::now() }
    }

    /// The whole seconds that have passed since the service started.
    pub fn elapsed_seconds(&self) -> u64 {
        let elapsed = self.started.elapsed();
        elapsed.as_secs()
    }
}

} // verus!
