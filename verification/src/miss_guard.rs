//! Explicit upstream-fill protection for cache miss storms.
//!
//! A limiter admits fills at a rate, with a burst of one second of tokens, and
//! caps how many are in flight. Time comes in as nanoseconds of a monotonic
//! clock.

use vstd::prelude::*;

verus! {

/// Credit that one fill costs: token-nanoseconds, so that a fraction of a token
/// is not lost between refills.
pub const NANOS_PER_TOKEN: u128 = 1_000_000_000;

#[derive(Clone, Copy, Debug, PartialEq, Eq, Structural)]
pub struct OriginFillConfig {
    /// Maximum fills admitted per second. The burst is one second of tokens.
    pub fills_per_second: u64,
    /// Hard cap on fills that have been admitted but whose permit is not
    /// released.
    pub max_in_flight: usize,
}

impl OriginFillConfig {
    pub fn new(fills_per_second: u64, max_in_flight: usize) -> (config: OriginFillConfig)
        ensures
            config.fills_per_second == fills_per_second,
            config.max_in_flight == max_in_flight,
    {
        OriginFillConfig { fills_per_second, max_in_flight }
    }
}

#[non_exhaustive]
#[derive(Clone, Copy, Debug, PartialEq, Eq, Structural)]
pub enum OriginFillRejectReason {
    Disabled,
    RateLimited,
    ConcurrencyLimited,
}

impl OriginFillRejectReason {
    /// The reason in words.
    pub fn message(&self) -> (text: &'static str)
        ensures
            text@ == (match *self {
                OriginFillRejectReason::Disabled => "origin fill protection is not configured"@,
                OriginFillRejectReason::RateLimited => "origin fill rate limit reached"@,
                OriginFillRejectReason::ConcurrencyLimited => "origin fill concurrency limit reached"@,
            }),
    {
        match self {
            OriginFillRejectReason::Disabled => "origin fill protection is not configured",
            OriginFillRejectReason::RateLimited => "origin fill rate limit reached",
            OriginFillRejectReason::ConcurrencyLimited => "origin fill concurrency limit reached",
        }
    }
}

#[derive(Clone, Copy, Debug, PartialEq, Eq, Structural)]
pub struct OriginFillStats {
    pub attempts: u64,
    pub admitted: u64,
    pub rate_limited: u64,
    pub concurrency_limited: u64,
    pub in_flight: u64,
    pub in_flight_peak: u64,
}

impl Default for OriginFillStats {
    fn default() -> (stats: OriginFillStats)
        ensures
            stats == (OriginFillStats {
                attempts: 0,
                admitted: 0,
                rate_limited: 0,
                concurrency_limited: 0,
                in_flight: 0,
                in_flight_peak: 0,
            }),
    {
        OriginFillStats {
            attempts: 0,
            admitted: 0,
            rate_limited: 0,
            concurrency_limited: 0,
            in_flight: 0,
            in_flight_peak: 0,
        }
    }
}

/// Permit for one cache-miss fill against the authoritative data source.
///
/// Acquire this only after a cache miss, hold it until the fill completes, then
/// hand it back to the limiter, and shed or defer work when acquisition is
/// rejected. This keeps miss storms from becoming an unbounded upstream
/// fan-out.
#[derive(Debug)]
pub struct OriginFillPermit {
    acquired_ns: u64,
}

impl OriginFillPermit {
    /// When the fill was admitted.
    pub closed spec fn time(&self) -> u64 {
        self.acquired_ns
    }

    /// When the fill was admitted.
    pub fn acquired_ns(&self) -> (time: u64)
        ensures
            time == self.time(),
    {
        self.acquired_ns
    }
}

/// A counter that rolls over.
pub open spec fn bumped(counter: u64) -> u64 {
    if counter == u64::MAX {
        0
    } else {
        (counter + 1) as u64
    }
}

/// Limits fills by rate and by number in flight.
#[derive(Clone, Copy, Debug, PartialEq, Eq, Structural)]
pub struct OriginFillLimiter {
    pub config: OriginFillConfig,
    /// Token credit in token-nanoseconds.
    pub credit: u128,
    pub last_refill_ns: u64,
    pub attempts: u64,
    pub admitted: u64,
    pub rate_limited: u64,
    pub concurrency_limited: u64,
    pub in_flight: usize,
    pub in_flight_peak: u64,
}

/// What an attempt leads to.
pub open spec fn decision(limiter: OriginFillLimiter, now_ns: u64) -> Result<(), OriginFillRejectReason> {
    if limiter.in_flight >= limiter.config.max_in_flight {
        Err(OriginFillRejectReason::ConcurrencyLimited)
    } else if limiter.refilled(now_ns) < NANOS_PER_TOKEN {
        Err(OriginFillRejectReason::RateLimited)
    } else {
        Ok(())
    }
}

/// The limiter after an attempt.
pub open spec fn after_attempt(limiter: OriginFillLimiter, now_ns: u64) -> OriginFillLimiter {
    let attempted = OriginFillLimiter { attempts: bumped(limiter.attempts), ..limiter };
    let reached = limiter.in_flight + 1;
    let timed = OriginFillLimiter {
        last_refill_ns: now_ns,
        in_flight_peak: if reached > limiter.in_flight_peak {
            reached as u64
        } else {
            limiter.in_flight_peak
        },
        ..attempted
    };
    match decision(limiter, now_ns) {
        Err(OriginFillRejectReason::ConcurrencyLimited) => OriginFillLimiter {
            concurrency_limited: bumped(limiter.concurrency_limited),
            ..attempted
        },
        Err(_) => OriginFillLimiter {
            credit: limiter.refilled(now_ns) as u128,
            rate_limited: bumped(limiter.rate_limited),
            ..timed
        },
        Ok(_) => OriginFillLimiter {
            credit: (limiter.refilled(now_ns) - NANOS_PER_TOKEN) as u128,
            in_flight: reached as usize,
            admitted: bumped(limiter.admitted),
            ..timed
        },
    }
}

/// The limiter once a fill has ended.
pub open spec fn after_release(limiter: OriginFillLimiter) -> OriginFillLimiter {
    OriginFillLimiter { in_flight: (limiter.in_flight - 1) as usize, ..limiter }
}

impl OriginFillLimiter {
    /// The most credit that can be held: one second of tokens.
    pub open spec fn capacity(&self) -> int {
        self.config.fills_per_second * NANOS_PER_TOKEN
    }

    /// Credit after a refill at `now_ns`.
    pub open spec fn refilled(&self, now_ns: u64) -> int {
        let elapsed: int = if now_ns > self.last_refill_ns {
            now_ns - self.last_refill_ns
        } else {
            0
        };
        let credit = self.credit + elapsed * self.config.fills_per_second;
        if credit > self.capacity() {
            self.capacity()
        } else {
            credit
        }
    }

    /// Neither the burst nor the number of fills in flight goes beyond what is
    /// configured.
    pub open spec fn wf(&self) -> bool {
        &&& self.config.fills_per_second > 0
        &&& self.config.max_in_flight > 0
        &&& self.credit <= self.capacity()
        &&& self.in_flight <= self.config.max_in_flight
        &&& self.in_flight <= self.in_flight_peak <= self.config.max_in_flight
    }

    /// A limiter with a full burst.
    pub fn try_new(config: OriginFillConfig, now_ns: u64) -> (result: Result<OriginFillLimiter, &'static str>)
        ensures
            match result {
                Ok(limiter) => {
                    &&& config.fills_per_second > 0
                    &&& config.max_in_flight > 0
                    &&& limiter.wf()
                    &&& limiter == (OriginFillLimiter {
                        config,
                        credit: (config.fills_per_second * NANOS_PER_TOKEN) as u128,
                        last_refill_ns: now_ns,
                        attempts: 0,
                        admitted: 0,
                        rate_limited: 0,
                        concurrency_limited: 0,
                        in_flight: 0,
                        in_flight_peak: 0,
                    })
                },
                Err(message) => if config.fills_per_second == 0 {
                    message@ == "origin fills_per_second must be greater than zero"@
                } else {
                    config.max_in_flight == 0 && message@ == "origin max_in_flight must be greater than zero"@
                },
            },
    {
        if config.fills_per_second == 0 {
            return Err("origin fills_per_second must be greater than zero");
        }
        if config.max_in_flight == 0 {
            return Err("origin max_in_flight must be greater than zero");
        }
        let credit: u128 = config.fills_per_second as u128 * NANOS_PER_TOKEN;
        Ok(
            OriginFillLimiter {
                config,
                credit,
                last_refill_ns: now_ns,
                attempts: 0,
                admitted: 0,
                rate_limited: 0,
                concurrency_limited: 0,
                in_flight: 0,
                in_flight_peak: 0,
            },
        )
    }

    /// Tries to admit a fill.
    pub fn try_acquire(&mut self, now_ns: u64) -> (result: Result<OriginFillPermit, OriginFillRejectReason>)
        requires
            old(self).wf(),
        ensures
            final(self).wf(),
            *final(self) == after_attempt(*old(self), now_ns),
            match result {
                Ok(permit) => decision(*old(self), now_ns) is Ok && permit.time() == now_ns,
                Err(reason) => decision(*old(self), now_ns) == Err::<(), _>(reason),
            },
    {
        self.attempts = self.attempts.wrapping_add(1);
        if self.in_flight >= self.config.max_in_flight {
            self.concurrency_limited = self.concurrency_limited.wrapping_add(1);
            return Err(OriginFillRejectReason::ConcurrencyLimited);
        }
        let reached: u64 = self.in_flight as u64 + 1;
        if reached > self.in_flight_peak {
            self.in_flight_peak = reached;
        }
        let rate = self.config.fills_per_second;
        let elapsed: u64 = now_ns.saturating_sub(self.last_refill_ns);
        assert(0 <= elapsed * rate <= u128::MAX) by (nonlinear_arith)
            requires
                0 <= elapsed <= u64::MAX,
                0 <= rate <= u64::MAX,
        ;
        let refill: u128 = elapsed as u128 * rate as u128;
        let capacity: u128 = rate as u128 * NANOS_PER_TOKEN;
        let credit: u128 = if refill >= capacity - self.credit {
            capacity
        } else {
            self.credit + refill
        };
        self.last_refill_ns = now_ns;
        if credit < NANOS_PER_TOKEN {
            self.credit = credit;
            self.rate_limited = self.rate_limited.wrapping_add(1);
            return Err(OriginFillRejectReason::RateLimited);
        }
        self.credit = credit - NANOS_PER_TOKEN;
        self.in_flight = self.in_flight + 1;
        self.admitted = self.admitted.wrapping_add(1);
        Ok(OriginFillPermit { acquired_ns: now_ns })
    }

    /// Takes a permit back: its fill has ended.
    pub fn release(&mut self, permit: OriginFillPermit)
        requires
            old(self).wf(),
            old(self).in_flight > 0,
        ensures
            final(self).wf(),
            *final(self) == after_release(*old(self)),
    {
        self.in_flight = self.in_flight - 1;
    }

    /// The counters so far.
    pub fn snapshot(&self) -> (stats: OriginFillStats)
        ensures
            stats == (OriginFillStats {
                attempts: self.attempts,
                admitted: self.admitted,
                rate_limited: self.rate_limited,
                concurrency_limited: self.concurrency_limited,
                in_flight: self.in_flight as u64,
                in_flight_peak: self.in_flight_peak,
            }),
    {
        OriginFillStats {
            attempts: self.attempts,
            admitted: self.admitted,
            rate_limited: self.rate_limited,
            concurrency_limited: self.concurrency_limited,
            in_flight: self.in_flight as u64,
            in_flight_peak: self.in_flight_peak,
        }
    }
}

/// What happens to a limiter: an attempt at some time, or the end of a fill.
pub enum FillEvent {
    Attempt(u64),
    Release,
}

/// The limiter after a run of events.
pub open spec fn after_events(limiter: OriginFillLimiter, events: Seq<FillEvent>) -> OriginFillLimiter
    decreases events.len(),
{
    if events.len() == 0 {
        limiter
    } else {
        let before = after_events(limiter, events.drop_last());
        match events.last() {
            FillEvent::Attempt(now_ns) => after_attempt(before, now_ns),
            FillEvent::Release => after_release(before),
        }
    }
}

/// How many attempts of a run were admitted.
pub open spec fn admissions(limiter: OriginFillLimiter, events: Seq<FillEvent>) -> nat
    decreases events.len(),
{
    if events.len() == 0 {
        0
    } else {
        let before = after_events(limiter, events.drop_last());
        let admitted: nat = match events.last() {
            FillEvent::Attempt(now_ns) => if decision(before, now_ns) is Ok {
                1
            } else {
                0
            },
            FillEvent::Release => 0,
        };
        admissions(limiter, events.drop_last()) + admitted
    }
}

/// The clock does not run backwards in a run, and only fills in flight end.
pub open spec fn orderly(limiter: OriginFillLimiter, events: Seq<FillEvent>) -> bool
    decreases events.len(),
{
    events.len() == 0 || {
        let before = after_events(limiter, events.drop_last());
        &&& orderly(limiter, events.drop_last())
        &&& match events.last() {
            FillEvent::Attempt(now_ns) => now_ns >= before.last_refill_ns,
            FillEvent::Release => before.in_flight > 0,
        }
    }
}

/// Over any run, the fills admitted cost no more than the credit at its start
/// and the tokens that came in since; and never are more fills in flight than
/// configured.
pub proof fn law_admissions_follow_the_rate(limiter: OriginFillLimiter, events: Seq<FillEvent>)
    requires
        limiter.wf(),
        orderly(limiter, events),
    ensures
        ({
            let after = after_events(limiter, events);
            &&& after.wf()
            &&& after.config == limiter.config
            &&& after.last_refill_ns >= limiter.last_refill_ns
            &&& admissions(limiter, events) * NANOS_PER_TOKEN + after.credit <= limiter.credit + (after.last_refill_ns
                - limiter.last_refill_ns) * limiter.config.fills_per_second
            &&& after.in_flight <= limiter.config.max_in_flight
        }),
    decreases events.len(),
{
    if events.len() > 0 {
        law_admissions_follow_the_rate(limiter, events.drop_last());
        let before = after_events(limiter, events.drop_last());
        let rate = limiter.config.fills_per_second as int;
        match events.last() {
            FillEvent::Attempt(now_ns) => {
                let first = before.last_refill_ns - limiter.last_refill_ns;
                let second = now_ns - before.last_refill_ns;
                assert((first + second) * rate == first * rate + second * rate) by (nonlinear_arith);
                assert(second * rate >= 0) by (nonlinear_arith)
                    requires
                        second >= 0,
                        rate >= 0,
                ;
            },
            FillEvent::Release => {},
        }
    }
}

/// A refused attempt takes no permit, and an admitted one whose permit comes
/// back leaves as many fills in flight as before.
pub proof fn law_permits_do_not_leak(limiter: OriginFillLimiter, now_ns: u64)
    requires
        limiter.wf(),
    ensures
        decision(limiter, now_ns) is Err ==> after_attempt(limiter, now_ns).in_flight == limiter.in_flight,
        decision(limiter, now_ns) is Ok ==> after_release(after_attempt(limiter, now_ns)).in_flight == limiter.in_flight,
{
}

/// A fill is let through exactly if fewer than the most are under way and at
/// least one whole token has gathered; the first of the two that fails is the
/// reason given.
pub proof fn law_fills_are_let_through(limiter: OriginFillLimiter, now_ns: u64)
    requires
        limiter.wf(),
    ensures
        decision(limiter, now_ns) is Ok <==> limiter.in_flight < limiter.config.max_in_flight && limiter.refilled(now_ns)
            >= 1_000_000_000,
        decision(limiter, now_ns) == Err::<(), OriginFillRejectReason>(OriginFillRejectReason::ConcurrencyLimited) <==> limiter.in_flight
            == limiter.config.max_in_flight,
        decision(limiter, now_ns) == Err::<(), OriginFillRejectReason>(OriginFillRejectReason::RateLimited) <==> limiter.in_flight
            < limiter.config.max_in_flight && limiter.refilled(now_ns) < 1_000_000_000,
{
}

/// Credit gathers with time at the configured rate, up to one second's worth; a
/// clock that stands still or goes back gathers nothing.
pub proof fn law_credit_gathers_with_time(limiter: OriginFillLimiter, now_ns: u64)
    requires
        limiter.wf(),
    ensures
        now_ns <= limiter.last_refill_ns ==> limiter.refilled(now_ns) == limiter.credit,
        now_ns > limiter.last_refill_ns ==> limiter.refilled(now_ns) == limiter.credit + (now_ns - limiter.last_refill_ns)
            * limiter.config.fills_per_second || limiter.refilled(now_ns) == limiter.config.fills_per_second * 1_000_000_000,
        limiter.credit <= limiter.refilled(now_ns) <= limiter.config.fills_per_second * 1_000_000_000,
        now_ns > limiter.last_refill_ns && limiter.credit + (now_ns - limiter.last_refill_ns) * limiter.config.fills_per_second
            <= limiter.config.fills_per_second * 1_000_000_000 ==> limiter.refilled(now_ns) == limiter.credit + (now_ns
            - limiter.last_refill_ns) * limiter.config.fills_per_second,
        now_ns > limiter.last_refill_ns && limiter.credit + (now_ns - limiter.last_refill_ns) * limiter.config.fills_per_second
            >= limiter.config.fills_per_second * 1_000_000_000 ==> limiter.refilled(now_ns) == limiter.config.fills_per_second
            * 1_000_000_000,
{
    if now_ns > limiter.last_refill_ns {
        let elapsed = now_ns - limiter.last_refill_ns;
        let rate = limiter.config.fills_per_second as int;
        assert(elapsed * rate >= 0) by (nonlinear_arith)
            requires
                elapsed >= 0,
                rate >= 0,
        ;
    }
}

/// Every attempt is counted, and by what came of it. One that is let through
/// takes a token and is under way until it is released; one that is turned away
/// for its rate keeps what has gathered; one that is turned away for the fills
/// under way changes nothing else.
pub proof fn law_attempts_are_counted(limiter: OriginFillLimiter, now_ns: u64)
    requires
        limiter.wf(),
    ensures
        ({
            let after = after_attempt(limiter, now_ns);
            let wrap = 0x1_0000_0000_0000_0000int;
            let verdict = decision(limiter, now_ns);
            let crowded = limiter.in_flight == limiter.config.max_in_flight;
            &&& after.config == limiter.config
            &&& after.attempts as int == (limiter.attempts + 1) % wrap
            &&& after.admitted as int == (limiter.admitted + if verdict is Ok { 1int } else { 0int }) % wrap
            &&& after.concurrency_limited as int == (limiter.concurrency_limited + if crowded { 1int } else { 0int }) % wrap
            &&& after.rate_limited as int == (limiter.rate_limited + if verdict is Err && !crowded { 1int } else { 0int }) % wrap
            &&& after.in_flight == limiter.in_flight + if verdict is Ok { 1int } else { 0int }
            &&& verdict is Ok ==> after.credit == limiter.refilled(now_ns) - 1_000_000_000
            &&& verdict is Err && !crowded ==> after.credit == limiter.refilled(now_ns)
            &&& crowded ==> after.credit == limiter.credit && after.last_refill_ns == limiter.last_refill_ns && after.in_flight_peak
                == limiter.in_flight_peak
            &&& !crowded ==> after.last_refill_ns == now_ns
            &&& after.in_flight_peak >= limiter.in_flight_peak && after.in_flight_peak >= after.in_flight
            &&& after.in_flight_peak == limiter.in_flight_peak || after.in_flight_peak == limiter.in_flight + 1
        }),
        limiter.in_flight > 0 ==> ({
            let after = after_release(limiter);
            &&& after.in_flight == limiter.in_flight - 1
            &&& after.config == limiter.config && after.credit == limiter.credit && after.last_refill_ns == limiter.last_refill_ns
            &&& after.attempts == limiter.attempts && after.admitted == limiter.admitted
            &&& after.rate_limited == limiter.rate_limited && after.concurrency_limited == limiter.concurrency_limited
            &&& after.in_flight_peak == limiter.in_flight_peak
        }),
{
}

} // verus!
