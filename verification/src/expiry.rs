//! Expiration against an absolute Unix clock.

use vstd::prelude::*;

verus! {

/// The clock that lookups compare expirations with.
#[derive(Clone, Copy, Debug, PartialEq, Eq, Structural)]
pub enum ExpiryClock {
    /// Milliseconds since the Unix epoch, sampled once.
    Fixed(u64),
}

impl ExpiryClock {
    /// The sampled time.
    pub open spec fn now(self) -> u64 {
        match self {
            ExpiryClock::Fixed(now) => now,
        }
    }

    /// Whether something that expires then is over. Zero stands for no
    /// expiration.
    pub open spec fn expired(self, expires_at_unix_ms: u64) -> bool {
        expires_at_unix_ms != 0 && expires_at_unix_ms <= self.now()
    }

    /// Whether something that expires then is over.
    pub fn is_expired(&self, expires_at_unix_ms: u64) -> (expired: bool)
        ensures
            expired == self.expired(expires_at_unix_ms),
    {
        match self {
            ExpiryClock::Fixed(now) => expires_at_unix_ms != 0 && expires_at_unix_ms <= *now,
        }
    }
}

/// Nothing is over before its time and everything is from then on, but for what
/// has no expiration.
pub proof fn law_expiration(clock: ExpiryClock, expires_at_unix_ms: u64)
    ensures
        !clock.expired(0),
        expires_at_unix_ms > 0 ==> (clock.expired(expires_at_unix_ms) <==> clock.now() >= expires_at_unix_ms),
        clock == ExpiryClock::Fixed(clock.now()),
{
}

/// What is over stays over.
pub proof fn law_expiration_is_for_good(earlier: ExpiryClock, later: ExpiryClock, expires_at_unix_ms: u64)
    requires
        earlier.now() <= later.now(),
        earlier.expired(expires_at_unix_ms),
    ensures
        later.expired(expires_at_unix_ms),
{
}

} // verus!
