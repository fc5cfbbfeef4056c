//! A cloud backend for tests and development: it succeeds after a delay and
//! calls nothing.
use vstd::prelude::*;
use std::time::Duration;

verus! {

/// A cloud client that answers every call with success after `delay`.
pub struct MockClient {
    delay: Duration,
}

impl MockClient {
    /// The simulated latency of each call.
    pub closed spec fn spec_delay(&self) -> Duration {
        self.delay
    }

    /// A mock client whose calls take `delay`.
    pub fn new(delay: Duration) -> (r: MockClient)
        ensures
            r.spec_delay() == delay,
    {
        MockClient { delay }
    }

    /// The simulated latency of each call.
    pub fn delay(&self) -> (r: Duration)
        ensures
            r == self.spec_delay(),
    {
        self.delay
    }

    /// The provider's name in metrics.
    pub fn provider_name(&self) -> (r: &'static str)
        ensures
            r@ == "mock"@,
    {
        "mock"
    }
}

} // verus!
