//! The clock by which the state changes of peers are timed.
//!
//! Time is counted in whole seconds since the clock was started. All records
//! of one registry are to be timed by one clock.

use vstd::prelude::*;

verus! {

#[verifier::external_type_specification]
#[verifier::external_body]
pub struct ExInstant(tokio::time::Instant);

/// A clock that counts the seconds since it was started.
#[derive(Clone, Copy, Debug)]
pub struct Clock {
    origin: tokio::time::Instant,
}

/// Calls `tokio::time::Instant::now`. Nothing is claimed of the moment that
/// it returns.
#[verifier::external_body]
fn present() -> tokio::time::Instant {
    tokio::time::Instant::now()
}

/// Calls `tokio::time::Instant::elapsed` on `origin` and takes the whole
/// seconds of the duration. Nothing is claimed of the number: it depends on
/// when the call is made.
#[verifier::external_body]
fn seconds_since(origin: &tokio::time::Instant) -> u64 {
    origin.elapsed().as_secs()
}

impl Clock {
    /// A clock that starts now.
    pub fn start() -> Clock {
        Clock { origin: present() }
    }

    /// The seconds since the clock was started.
    pub fn seconds(&self) -> u64 {
        seconds_since(&self.origin)
    }
}

} // verus!
