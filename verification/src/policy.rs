//! Bounded admission, namespace quotas, and SSD write accounting.
//!
//! This module deliberately keeps policy independent from the record and index
//! formats. Callers supply stable key hashes, encoded live-byte counts and the
//! time. Capacity and write-budget reservations are explicit tokens: each is
//! either committed or released, so a failed append cannot leak quota. All
//! policy tables have fixed capacity and all proportional allocations use
//! fallible reservation.

use crate::containers::vec_try_reserve_exact;
use vstd::prelude::*;
use crate::device_health::{DeviceHealthPolicy, DeviceHealthTracker, NvmeHealthSample, NvmeHealthStats};
use crate::host_writes::HostWriteTracker;

verus! {

/// Number of one-byte counters in the approximate frequency table.
pub const ADMISSION_COUNTER_COUNT: usize = 65_536;

/// Values larger than this require one additional observation in `SecondHit` mode.
pub const LARGE_OBJECT_THRESHOLD_BYTES: usize = 1_048_576;

/// Hard bound for configured namespaces, including the implicit namespace zero.
pub const MAX_NAMESPACE_CONFIGS: usize = 1024;

/// Observations that admit an ordinary object.
pub const ORDINARY_ADMISSION_OBSERVATIONS: u8 = 2;

/// Observations that admit a large object.
pub const LARGE_ADMISSION_OBSERVATIONS: u8 = 3;

/// Nanoseconds in a second.
pub const NANOS_PER_SECOND: u128 = 1_000_000_000;

/// Seconds in a UTC day.
pub const SECONDS_PER_UTC_DAY: u64 = 86_400;

/// Identifies a namespace.
pub type NamespaceId = u32;

/// `amount` more on a counter that sticks at its maximum.
pub open spec fn saturating(counter: u64, amount: u64) -> u64 {
    if counter + amount > u64::MAX {
        u64::MAX
    } else {
        (counter + amount) as u64
    }
}

/// The larger of two numbers.
pub open spec fn larger(a: u64, b: u64) -> u64 {
    if a >= b {
        a
    } else {
        b
    }
}

// ---------------------------------------------------------------------------
// Admission
// ---------------------------------------------------------------------------

/// Admission behavior for new cache entries.
#[non_exhaustive]
#[derive(Clone, Copy, Debug, PartialEq, Eq, Structural)]
pub enum AdmissionMode {
    /// Every otherwise valid put is admitted.
    Always,
    /// Admit ordinary objects after two observations and large objects after three.
    SecondHit,
}

impl Default for AdmissionMode {
    fn default() -> (mode: AdmissionMode)
        ensures
            mode == AdmissionMode::Always,
    {
        AdmissionMode::Always
    }
}

/// Whether a put may enter the append path.
#[derive(Clone, Copy, Debug, PartialEq, Eq, Structural)]
pub enum AdmissionDecision {
    Admit,
    Reject,
}

impl AdmissionDecision {
    /// Whether the put may go on.
    pub fn is_admitted(self) -> (admitted: bool)
        ensures
            admitted == (self == AdmissionDecision::Admit),
    {
        match self {
            AdmissionDecision::Admit => true,
            AdmissionDecision::Reject => false,
        }
    }
}

/// Admission counters.
#[derive(Clone, Copy, Debug, PartialEq, Eq, Structural)]
pub struct AdmissionSnapshot {
    pub observations: u64,
    pub admitted: u64,
    pub rejected: u64,
    pub large_object_rejected: u64,
}

/// A hash with its bits spread.
pub open spec fn mixed_hash(hash: u64) -> u64 {
    let first = (hash ^ (hash >> 33)).wrapping_mul(0xff51_afd7_ed55_8ccd);
    let second = (first ^ (first >> 33)).wrapping_mul(0xc4ce_b9fe_1a85_ec53);
    second ^ (second >> 33)
}

/// The frequency counter of a hash.
pub open spec fn counter_of(hash: u64) -> int {
    mixed_hash(hash) as int % ADMISSION_COUNTER_COUNT as int
}

/// The frequency counter of a hash.
pub fn admission_index(hash: u64) -> (index: usize)
    ensures
        index == counter_of(hash),
        index < ADMISSION_COUNTER_COUNT,
{
    let mut mixed: u64 = hash;
    mixed = mixed ^ (mixed >> 33);
    mixed = mixed.wrapping_mul(0xff51_afd7_ed55_8ccd);
    mixed = mixed ^ (mixed >> 33);
    mixed = mixed.wrapping_mul(0xc4ce_b9fe_1a85_ec53);
    mixed = mixed ^ (mixed >> 33);
    (mixed % (ADMISSION_COUNTER_COUNT as u64)) as usize
}

/// Frequency counters with the position of the next one to decay.
#[verifier::ext_equal]
pub struct AdmissionModel {
    pub mode: AdmissionMode,
    pub counters: Seq<u8>,
    pub decay_cursor: int,
    pub totals: AdmissionSnapshot,
}

impl AdmissionModel {
    /// Nothing has been observed.
    pub open spec fn fresh(mode: AdmissionMode) -> AdmissionModel {
        AdmissionModel {
            mode,
            counters: Seq::new(ADMISSION_COUNTER_COUNT as nat, |k: int| 0u8),
            decay_cursor: 0,
            totals: AdmissionSnapshot { observations: 0, admitted: 0, rejected: 0, large_object_rejected: 0 },
        }
    }

    /// The counters once the one at the cursor has been halved.
    pub open spec fn decayed(self) -> Seq<u8> {
        self.counters.update(self.decay_cursor, (self.counters[self.decay_cursor] / 2) as u8)
    }

    /// What an observation of the hash counts up to.
    pub open spec fn observed_count(self, hash: u64) -> u8 {
        let before = self.decayed()[counter_of(hash)];
        if before == u8::MAX {
            u8::MAX
        } else {
            (before + 1) as u8
        }
    }

    /// The policy after one observation: one counter has aged, the hash's own
    /// has grown.
    pub open spec fn observed(self, hash: u64) -> AdmissionModel {
        AdmissionModel {
            counters: self.decayed().update(counter_of(hash), self.observed_count(hash)),
            decay_cursor: (self.decay_cursor + 1) % ADMISSION_COUNTER_COUNT as int,
            totals: AdmissionSnapshot { observations: saturating(self.totals.observations, 1), ..self.totals },
            ..self
        }
    }

    /// Whether a put of this size is admitted once it has been observed.
    pub open spec fn admits(self, hash: u64, object_bytes: usize, is_update: bool) -> bool {
        let required = if object_bytes > LARGE_OBJECT_THRESHOLD_BYTES {
            LARGE_ADMISSION_OBSERVATIONS
        } else {
            ORDINARY_ADMISSION_OBSERVATIONS
        };
        self.mode == AdmissionMode::Always || is_update || self.observed_count(hash) >= required
    }

    /// The policy after a put has been considered.
    pub open spec fn considered(self, hash: u64, object_bytes: usize, is_update: bool) -> AdmissionModel {
        let after = self.observed(hash);
        AdmissionModel {
            totals: if self.admits(hash, object_bytes, is_update) {
                AdmissionSnapshot { admitted: saturating(after.totals.admitted, 1), ..after.totals }
            } else {
                AdmissionSnapshot {
                    rejected: saturating(after.totals.rejected, 1),
                    large_object_rejected: if object_bytes > LARGE_OBJECT_THRESHOLD_BYTES {
                        saturating(after.totals.large_object_rejected, 1)
                    } else {
                        after.totals.large_object_rejected
                    },
                    ..after.totals
                }
            },
            ..after
        }
    }
}

/// Fixed-memory approximate frequency/admission policy.
///
/// One counter is decayed on every observation, so the complete table ages in
/// a bounded number of accesses without a maintenance scan or background
/// thread. Hash collisions may over-admit, but can never reject an established
/// update because `is_update` bypasses the frequency threshold.
pub struct AdmissionPolicy {
    mode: AdmissionMode,
    counters: Vec<u8>,
    decay_cursor: usize,
    totals: AdmissionSnapshot,
}

impl View for AdmissionPolicy {
    type V = AdmissionModel;

    closed spec fn view(&self) -> AdmissionModel {
        AdmissionModel {
            mode: self.mode,
            counters: self.counters@,
            decay_cursor: self.decay_cursor as int,
            totals: self.totals,
        }
    }
}

impl AdmissionPolicy {
    /// The policy's invariant.
    pub closed spec fn wf(&self) -> bool {
        &&& self.counters@.len() == ADMISSION_COUNTER_COUNT
        &&& self.decay_cursor < ADMISSION_COUNTER_COUNT
    }

    /// Bytes held by the counters.
    pub fn allocation_bytes() -> (bytes: usize)
        ensures
            bytes == ADMISSION_COUNTER_COUNT,
    {
        ADMISSION_COUNTER_COUNT
    }

    /// A policy that has observed nothing.
    pub fn try_new(mode: AdmissionMode) -> (result: Result<AdmissionPolicy, PolicyBuildError>)
        ensures
            match result {
                Ok(policy) => {
                    &&& policy.wf()
                    &&& policy@ == AdmissionModel::fresh(mode)
                },
                Err(error) => error is Allocation,
            },
    {
        let mut room: Vec<u8> = Vec::new();
        if !vec_try_reserve_exact(&mut room, AdmissionPolicy::allocation_bytes()) {
            return Err(PolicyBuildError::Allocation);
        }
        Ok(AdmissionPolicy::in_room(room, mode))
    }

    /// A policy that has observed nothing, with its counters in an empty list.
    pub fn in_room(room: Vec<u8>, mode: AdmissionMode) -> (policy: AdmissionPolicy)
        requires
            room@.len() == 0,
        ensures
            policy.wf(),
            policy@ == AdmissionModel::fresh(mode),
    {
        let mut counters = room;
        counters.resize(ADMISSION_COUNTER_COUNT, 0);
        assert(counters@ =~= Seq::new(ADMISSION_COUNTER_COUNT as nat, |k: int| 0u8));
        AdmissionPolicy {
            mode,
            counters,
            decay_cursor: 0,
            totals: AdmissionSnapshot { observations: 0, admitted: 0, rejected: 0, large_object_rejected: 0 },
        }
    }

    /// Records an access, including a cache miss, and returns its approximate count.
    pub fn observe(&mut self, hash: u64) -> (count: u8)
        requires
            old(self).wf(),
        ensures
            final(self).wf(),
            count == old(self)@.observed_count(hash),
            final(self)@ == old(self)@.observed(hash),
    {
        self.totals.observations = self.totals.observations.saturating_add(1);
        let aged = self.counters[self.decay_cursor];
        self.counters.set(self.decay_cursor, aged / 2);
        self.decay_cursor = if self.decay_cursor + 1 == ADMISSION_COUNTER_COUNT { 0 } else { self.decay_cursor + 1 };
        let index = admission_index(hash);
        let count = self.counters[index].saturating_add(1);
        self.counters.set(index, count);
        count
    }

    /// Observes a put and decides whether it may enter the append path.
    ///
    /// Existing-key updates are always admitted to protect hot objects and to
    /// preserve update semantics when admission is enabled at runtime.
    pub fn consider(&mut self, hash: u64, object_bytes: usize, is_update: bool) -> (decision: AdmissionDecision)
        requires
            old(self).wf(),
        ensures
            final(self).wf(),
            decision == (if old(self)@.admits(hash, object_bytes, is_update) {
                AdmissionDecision::Admit
            } else {
                AdmissionDecision::Reject
            }),
            final(self)@ == old(self)@.considered(hash, object_bytes, is_update),
    {
        let observed = self.observe(hash);
        let required = if object_bytes > LARGE_OBJECT_THRESHOLD_BYTES {
            LARGE_ADMISSION_OBSERVATIONS
        } else {
            ORDINARY_ADMISSION_OBSERVATIONS
        };
        let admitted = self.mode == AdmissionMode::Always || is_update || observed >= required;
        if admitted {
            self.totals.admitted = self.totals.admitted.saturating_add(1);
            AdmissionDecision::Admit
        } else {
            self.totals.rejected = self.totals.rejected.saturating_add(1);
            if object_bytes > LARGE_OBJECT_THRESHOLD_BYTES {
                self.totals.large_object_rejected = self.totals.large_object_rejected.saturating_add(1);
            }
            AdmissionDecision::Reject
        }
    }

    /// Admission counters.
    pub fn snapshot(&self) -> (snapshot: AdmissionSnapshot)
        ensures
            snapshot == self@.totals,
    {
        self.totals
    }
}

/// Why policy bookkeeping could not be set up.
#[derive(Clone, Copy, Debug, PartialEq, Eq)]
pub enum PolicyBuildError {
    Invalid(&'static str),
    Allocation,
}

impl PolicyBuildError {
    /// What went wrong, in words.
    pub fn message(&self) -> (message: &'static str)
        ensures
            match self {
                PolicyBuildError::Invalid(text) => message@ == text@,
                PolicyBuildError::Allocation => message@ == "policy bookkeeping cannot be allocated"@,
            },
    {
        match self {
            PolicyBuildError::Invalid(text) => text,
            PolicyBuildError::Allocation => "policy bookkeeping cannot be allocated",
        }
    }
}

// ---------------------------------------------------------------------------
// Token bucket
// ---------------------------------------------------------------------------

/// Bytes that regenerate at a fixed rate, up to one second's worth.
#[derive(Clone, Copy, Debug, PartialEq, Eq, Structural)]
pub struct TokenBucket {
    pub rate: u64,
    pub available: u64,
    pub last_refill_ns: u64,
    pub fractional_nano_bytes: u128,
}

impl TokenBucket {
    /// No more than one second's worth is available.
    pub open spec fn wf(self) -> bool {
        self.available <= self.rate && self.fractional_nano_bytes < NANOS_PER_SECOND
    }

    /// What has regenerated by `now_ns`, in billionths of a byte.
    pub open spec fn generated(self, now_ns: u64) -> int {
        let elapsed = if now_ns > self.last_refill_ns { now_ns - self.last_refill_ns } else { 0 };
        elapsed * self.rate + self.fractional_nano_bytes
    }

    /// The bucket at `now_ns`.
    pub open spec fn refilled(self, now_ns: u64) -> TokenBucket {
        let total = self.available + self.generated(now_ns) / NANOS_PER_SECOND as int;
        TokenBucket {
            rate: self.rate,
            available: if total >= self.rate { self.rate } else { total as u64 },
            last_refill_ns: now_ns,
            fractional_nano_bytes: if total >= self.rate {
                0
            } else {
                (self.generated(now_ns) % NANOS_PER_SECOND as int) as u128
            },
        }
    }

    /// A full bucket.
    pub fn new_at(rate: u64, now_ns: u64) -> (bucket: TokenBucket)
        ensures
            bucket.wf(),
            bucket == (TokenBucket { rate, available: rate, last_refill_ns: now_ns, fractional_nano_bytes: 0 }),
    {
        TokenBucket { rate, available: rate, last_refill_ns: now_ns, fractional_nano_bytes: 0 }
    }

    /// Adds what has regenerated since the last refill.
    pub fn refill(&mut self, now_ns: u64)
        requires
            old(self).wf(),
        ensures
            final(self).wf(),
            *final(self) == old(self).refilled(now_ns),
    {
        let elapsed_ns: u128 = if now_ns > self.last_refill_ns { (now_ns - self.last_refill_ns) as u128 } else { 0 };
        proof {
            let elapsed = elapsed_ns as int;
            let rate = self.rate as int;
            assert(0 <= elapsed * rate <= 0xffff_ffff_ffff_ffff * 0xffff_ffff_ffff_ffff) by (nonlinear_arith)
                requires
                    0 <= elapsed <= 0xffff_ffff_ffff_ffff,
                    0 <= rate <= 0xffff_ffff_ffff_ffff,
            ;
        }
        self.last_refill_ns = now_ns;
        let generated: u128 = elapsed_ns * (self.rate as u128) + self.fractional_nano_bytes;
        let whole: u128 = generated / NANOS_PER_SECOND;
        let total: u128 = self.available as u128 + whole;
        if total >= self.rate as u128 {
            self.available = self.rate;
            self.fractional_nano_bytes = 0;
        } else {
            self.available = total as u64;
            self.fractional_nano_bytes = generated % NANOS_PER_SECOND;
        }
    }

    /// Whether bytes are taken out, and the bucket then.
    pub open spec fn charged(self, bytes: u64, now_ns: u64) -> (bool, TokenBucket) {
        let bucket = self.refilled(now_ns);
        if bytes <= bucket.available {
            (true, TokenBucket { available: (bucket.available - bytes) as u64, ..bucket })
        } else {
            (false, bucket)
        }
    }

    /// The bucket once bytes have been put back.
    pub open spec fn refunded(self, bytes: u64, now_ns: u64) -> TokenBucket {
        let bucket = self.refilled(now_ns);
        TokenBucket {
            available: if bucket.available + bytes >= bucket.rate {
                bucket.rate
            } else {
                (bucket.available + bytes) as u64
            },
            ..bucket
        }
    }

    /// Takes bytes out if they are available.
    pub fn try_charge_at(&mut self, bytes: u64, now_ns: u64) -> (charged: bool)
        requires
            old(self).wf(),
        ensures
            final(self).wf(),
            (charged, *final(self)) == old(self).charged(bytes, now_ns),
    {
        self.refill(now_ns);
        if bytes > self.available {
            return false;
        }
        self.available = self.available - bytes;
        true
    }

    /// Puts bytes back, up to one second's worth.
    pub fn refund_at(&mut self, bytes: u64, now_ns: u64)
        requires
            old(self).wf(),
        ensures
            final(self).wf(),
            *final(self) == old(self).refunded(bytes, now_ns),
    {
        self.refill(now_ns);
        let total = self.available.saturating_add(bytes);
        self.available = if total < self.rate { total } else { self.rate };
    }
}

// ---------------------------------------------------------------------------
// Namespaces
// ---------------------------------------------------------------------------

/// Per-namespace runtime limits. Omitted limits are unlimited.
#[derive(Clone, Copy, Debug, PartialEq, Eq, Structural)]
pub struct NamespaceConfig {
    namespace: NamespaceId,
    capacity_bytes: Option<u64>,
    write_budget_bytes_per_second: Option<u64>,
}

impl NamespaceConfig {
    /// The configured namespace.
    pub closed spec fn id(self) -> NamespaceId {
        self.namespace
    }

    /// The capacity limit.
    pub closed spec fn capacity(self) -> Option<u64> {
        self.capacity_bytes
    }

    /// The write budget.
    pub closed spec fn write_budget(self) -> Option<u64> {
        self.write_budget_bytes_per_second
    }

    /// A namespace without limits.
    pub closed spec fn unlimited(namespace: NamespaceId) -> NamespaceConfig {
        NamespaceConfig { namespace, capacity_bytes: None, write_budget_bytes_per_second: None }
    }

    /// The same with a capacity limit.
    pub closed spec fn capped(self, bytes: u64) -> NamespaceConfig {
        NamespaceConfig { capacity_bytes: Some(bytes), ..self }
    }

    /// The same with a write budget.
    pub closed spec fn budgeted(self, bytes_per_second: u64) -> NamespaceConfig {
        NamespaceConfig { write_budget_bytes_per_second: Some(bytes_per_second), ..self }
    }

    /// Configurations of one namespace with equal limits are equal.
    pub proof fn law_limits_make_the_configuration(self, other: NamespaceConfig)
        requires
            self.id() == other.id(),
            self.capacity() == other.capacity(),
            self.write_budget() == other.write_budget(),
        ensures
            self == other,
    {
    }

    /// Setting a limit sets that limit and no other, the last setting counts, and
    /// the order in which different limits are set does not.
    pub proof fn law_limits_are_independent(self, first: u64, bytes: u64, earlier: u64, rate: u64)
        ensures
            self.capped(bytes).id() == self.id(),
            self.capped(bytes).capacity() == Some(bytes),
            self.capped(bytes).write_budget() == self.write_budget(),
            self.capped(first).capped(bytes) == self.capped(bytes),
            self.budgeted(rate).id() == self.id(),
            self.budgeted(rate).capacity() == self.capacity(),
            self.budgeted(rate).write_budget() == Some(rate),
            self.budgeted(earlier).budgeted(rate) == self.budgeted(rate),
            self.capped(bytes).budgeted(rate) == self.budgeted(rate).capped(bytes),
    {
    }

    /// An unlimited namespace.
    pub fn new(namespace: NamespaceId) -> (config: NamespaceConfig)
        ensures
            config == NamespaceConfig::unlimited(namespace),
            config.id() == namespace,
            config.capacity() is None,
            config.write_budget() is None,
    {
        NamespaceConfig { namespace, capacity_bytes: None, write_budget_bytes_per_second: None }
    }

    /// The same with a capacity limit.
    pub fn with_capacity_bytes(self, bytes: u64) -> (config: NamespaceConfig)
        ensures
            config == self.capped(bytes),
            config.id() == self.id(),
            config.capacity() == Some(bytes),
            config.write_budget() == self.write_budget(),
    {
        NamespaceConfig { capacity_bytes: Some(bytes), ..self }
    }

    /// The same with a write budget.
    pub fn with_write_budget(self, bytes_per_second: u64) -> (config: NamespaceConfig)
        ensures
            config == self.budgeted(bytes_per_second),
            config.id() == self.id(),
            config.capacity() == self.capacity(),
            config.write_budget() == Some(bytes_per_second),
    {
        NamespaceConfig { write_budget_bytes_per_second: Some(bytes_per_second), ..self }
    }

    /// The configured namespace.
    pub fn namespace(&self) -> (namespace: NamespaceId)
        ensures
            namespace == self.id(),
    {
        self.namespace
    }

    /// The capacity limit.
    pub fn capacity_bytes(&self) -> (bytes: Option<u64>)
        ensures
            bytes == self.capacity(),
    {
        self.capacity_bytes
    }

    /// The write budget.
    pub fn write_budget_bytes_per_second(&self) -> (bytes: Option<u64>)
        ensures
            bytes == self.write_budget(),
    {
        self.write_budget_bytes_per_second
    }
}

/// Live bytes of one namespace.
#[derive(Clone, Copy, Debug, PartialEq, Eq, Structural)]
pub struct NamespaceUsage {
    pub namespace: NamespaceId,
    pub live_bytes: u64,
}

/// Why a namespace turned a request away.
#[non_exhaustive]
#[derive(Clone, Copy, Debug, PartialEq, Eq, Structural)]
pub enum NamespaceRejectReason {
    UnknownNamespace,
    CapacityExceeded,
    WriteBudgetExceeded,
}

impl NamespaceRejectReason {
    /// The reason in words.
    pub fn message(&self) -> (message: &'static str)
        ensures
            message@ == (match *self {
                NamespaceRejectReason::UnknownNamespace => "namespace is not configured"@,
                NamespaceRejectReason::CapacityExceeded => "namespace capacity is exhausted"@,
                NamespaceRejectReason::WriteBudgetExceeded => "namespace write budget is exhausted"@,
            }),
    {
        match self {
            NamespaceRejectReason::UnknownNamespace => "namespace is not configured",
            NamespaceRejectReason::CapacityExceeded => "namespace capacity is exhausted",
            NamespaceRejectReason::WriteBudgetExceeded => "namespace write budget is exhausted",
        }
    }
}

/// Limits and usage of one namespace at one time.
#[derive(Clone, Copy, Debug, PartialEq, Eq, Structural)]
pub struct NamespaceSnapshot {
    pub namespace: NamespaceId,
    pub capacity_bytes: Option<u64>,
    pub live_bytes: u64,
    pub reserved_bytes: u64,
    pub capacity_rejections: u64,
    pub write_budget_bytes_per_second: Option<u64>,
    pub write_budget_available_bytes: Option<u64>,
    pub write_budget_rejections: u64,
}

/// Limits and accounting of one namespace.
#[derive(Clone, Copy, Debug, PartialEq, Eq, Structural)]
pub struct NamespaceRuntime {
    pub namespace: NamespaceId,
    pub capacity_bytes: Option<u64>,
    pub live_bytes: u64,
    pub reserved_bytes: u64,
    pub capacity_rejections: u64,
    pub write_budget_rejections: u64,
    pub write_budget: Option<TokenBucket>,
}

impl NamespaceRuntime {
    /// The accounting of a freshly configured namespace.
    pub open spec fn fresh(config: NamespaceConfig, now_ns: u64) -> NamespaceRuntime {
        NamespaceRuntime {
            namespace: config.id(),
            capacity_bytes: config.capacity(),
            live_bytes: 0,
            reserved_bytes: 0,
            capacity_rejections: 0,
            write_budget_rejections: 0,
            write_budget: match config.write_budget() {
                Some(rate) => Some(
                    TokenBucket { rate, available: rate, last_refill_ns: now_ns, fractional_nano_bytes: 0 },
                ),
                None => None,
            },
        }
    }

    /// What the accounting looks like from outside at `now_ns`.
    pub open spec fn snapshot_at(self, now_ns: u64) -> NamespaceSnapshot {
        NamespaceSnapshot {
            namespace: self.namespace,
            capacity_bytes: self.capacity_bytes,
            live_bytes: self.live_bytes,
            reserved_bytes: self.reserved_bytes,
            capacity_rejections: self.capacity_rejections,
            write_budget_bytes_per_second: match self.write_budget {
                Some(bucket) => Some(bucket.rate),
                None => None,
            },
            write_budget_available_bytes: match self.write_budget {
                Some(bucket) => Some(bucket.refilled(now_ns).available),
                None => None,
            },
            write_budget_rejections: self.write_budget_rejections,
        }
    }

    /// The same with its write budget brought up to `now_ns`.
    pub open spec fn refilled(self, now_ns: u64) -> NamespaceRuntime {
        NamespaceRuntime {
            write_budget: match self.write_budget {
                Some(bucket) => Some(bucket.refilled(now_ns)),
                None => None,
            },
            ..self
        }
    }

    fn new(config: &NamespaceConfig, now_ns: u64) -> (result: Result<NamespaceRuntime, PolicyBuildError>)
        ensures
            match result {
                Ok(runtime) => config_error(*config) is None && runtime == NamespaceRuntime::fresh(*config, now_ns),
                Err(PolicyBuildError::Invalid(message)) => config_error(*config) == Some(message@),
                Err(PolicyBuildError::Allocation) => false,
            },
    {
        if config.capacity_bytes == Some(0) {
            return Err(PolicyBuildError::Invalid("namespace capacity must be greater than zero when enabled"));
        }
        if config.write_budget_bytes_per_second == Some(0) {
            return Err(PolicyBuildError::Invalid("namespace write budget must be greater than zero when enabled"));
        }
        Ok(
            NamespaceRuntime {
                namespace: config.namespace,
                capacity_bytes: config.capacity_bytes,
                live_bytes: 0,
                reserved_bytes: 0,
                capacity_rejections: 0,
                write_budget_rejections: 0,
                write_budget: match config.write_budget_bytes_per_second {
                    Some(rate) => Some(TokenBucket::new_at(rate, now_ns)),
                    None => None,
                },
            },
        )
    }
}

/// What is wrong with a configuration, if anything is.
pub open spec fn config_error(config: NamespaceConfig) -> Option<Seq<char>> {
    if config.capacity() == Some(0u64) {
        Some("namespace capacity must be greater than zero when enabled"@)
    } else if config.write_budget() == Some(0u64) {
        Some("namespace write budget must be greater than zero when enabled"@)
    } else {
        None
    }
}

/// Some configuration names namespace zero.
pub open spec fn has_default(configs: Seq<NamespaceConfig>) -> bool {
    exists|k: int| 0 <= k < configs.len() && (#[trigger] configs[k]).id() == 0
}

/// The configurations in effect: namespace zero is there even if nobody names
/// it.
pub open spec fn effective(configs: Seq<NamespaceConfig>) -> Seq<NamespaceConfig> {
    if has_default(configs) {
        configs
    } else {
        seq![NamespaceConfig::unlimited(0)] + configs
    }
}

/// Two configurations name the same namespace.
pub open spec fn has_duplicates(configs: Seq<NamespaceConfig>) -> bool {
    exists|j: int, k: int| 0 <= j < k < configs.len() && (#[trigger] configs[j]).id() == (#[trigger] configs[k]).id()
}

/// The configured namespaces can be set up.
pub open spec fn configs_valid(configs: Seq<NamespaceConfig>) -> bool {
    &&& effective(configs).len() <= MAX_NAMESPACE_CONFIGS
    &&& !has_duplicates(configs)
    &&& forall|k: int| 0 <= k < configs.len() ==> config_error(#[trigger] configs[k]) is None
}

/// The configured namespaces are turned away with this message: too many come
/// before the first invalid one, which comes before a repeated one.
pub open spec fn refuses_configs(configs: Seq<NamespaceConfig>, message: Seq<char>) -> bool {
    if effective(configs).len() > MAX_NAMESPACE_CONFIGS {
        message == "namespace count exceeds its hard limit"@
    } else {
        ||| exists|k: int|
            {
                &&& 0 <= k < configs.len()
                &&& #[trigger] config_error(configs[k]) == Some(message)
                &&& forall|j: int| 0 <= j < k ==> config_error(#[trigger] configs[j]) is None
            }
        ||| {
            &&& message == "namespace identifiers must be unique"@
            &&& has_duplicates(configs)
            &&& forall|k: int| 0 <= k < configs.len() ==> config_error(#[trigger] configs[k]) is None
        }
    }
}

/// The table is sorted by namespace, without repetition.
pub open spec fn sorted_strictly(runtimes: Seq<NamespaceRuntime>) -> bool {
    forall|j: int, k: int| 0 <= j < k < runtimes.len() ==> (#[trigger] runtimes[j]).namespace < (#[trigger] runtimes[k]).namespace
}

/// The table holds exactly one fresh runtime for each configuration.
pub open spec fn covers(runtimes: Seq<NamespaceRuntime>, configs: Seq<NamespaceConfig>, now_ns: u64) -> bool {
    &&& runtimes.len() == configs.len()
    &&& forall|k: int|
        0 <= k < configs.len() ==> runtimes.contains(#[trigger] NamespaceRuntime::fresh(configs[k], now_ns))
}

/// A reservation of live bytes that is neither committed nor released yet.
#[derive(Debug, PartialEq, Eq, Structural)]
pub struct NamespaceCapacityReservation {
    pub index: usize,
    pub new_live_bytes: u64,
    pub reserved_bytes: u64,
}

impl NamespaceCapacityReservation {
    /// Live bytes of the prospective value.
    pub fn live_bytes(&self) -> (bytes: u64)
        ensures
            bytes == self.new_live_bytes,
    {
        self.new_live_bytes
    }

    /// Bytes that the reservation holds.
    pub fn reserved_bytes(&self) -> (bytes: u64)
        ensures
            bytes == self.reserved_bytes,
    {
        self.reserved_bytes
    }
}

/// A charge of write tokens that may still be refunded.
#[derive(Debug, PartialEq, Eq, Structural)]
pub struct NamespaceWriteReservation {
    pub index: usize,
    pub encoded_bytes: u64,
}

/// Namespace accounting with a fixed configuration table.
pub struct NamespaceController {
    namespaces: Vec<NamespaceRuntime>,
}

impl View for NamespaceController {
    type V = Seq<NamespaceRuntime>;

    closed spec fn view(&self) -> Seq<NamespaceRuntime> {
        self.namespaces@
    }
}

/// Where a namespace stands in the table.
pub open spec fn position_of(runtimes: Seq<NamespaceRuntime>, namespace: NamespaceId) -> Option<int> {
    if exists|k: int| 0 <= k < runtimes.len() && (#[trigger] runtimes[k]).namespace == namespace {
        Some(choose|k: int| 0 <= k < runtimes.len() && (#[trigger] runtimes[k]).namespace == namespace)
    } else {
        None
    }
}

proof fn lemma_position(runtimes: Seq<NamespaceRuntime>, namespace: NamespaceId, index: int)
    requires
        sorted_strictly(runtimes),
        0 <= index < runtimes.len(),
        runtimes[index].namespace == namespace,
    ensures
        position_of(runtimes, namespace) == Some(index),
{
    let k = choose|k: int| 0 <= k < runtimes.len() && (#[trigger] runtimes[k]).namespace == namespace;
    if k < index {
        assert(runtimes[k].namespace < runtimes[index].namespace);
    }
    if index < k {
        assert(runtimes[index].namespace < runtimes[k].namespace);
    }
}

/// Bytes that a reservation holds: the full size, less the credit for a
/// replaced value that is still counted as live.
pub open spec fn reservation_bytes(runtime: NamespaceRuntime, new_live_bytes: u64, previous_live_bytes: u64) -> u64 {
    let credited = if previous_live_bytes <= runtime.live_bytes { previous_live_bytes } else { runtime.live_bytes };
    if new_live_bytes >= credited {
        (new_live_bytes - credited) as u64
    } else {
        0
    }
}

/// Live, reserved and newly reserved bytes stay within the namespace's limit.
pub open spec fn fits_capacity(runtime: NamespaceRuntime, reserved: u64) -> bool {
    let next = runtime.live_bytes + runtime.reserved_bytes + reserved;
    next <= u64::MAX && match runtime.capacity_bytes {
        Some(capacity) => next <= capacity,
        None => true,
    }
}

/// `a - b`, but not below zero.
pub open spec fn less(a: u64, b: u64) -> u64 {
    if a >= b {
        (a - b) as u64
    } else {
        0
    }
}

/// The table after a reservation has been turned into live bytes and the
/// replaced bytes have been taken off.
pub open spec fn committed(
    runtimes: Seq<NamespaceRuntime>,
    index: int,
    new_live_bytes: u64,
    reserved_bytes: u64,
    previous: Option<NamespaceUsage>,
) -> Seq<NamespaceRuntime> {
    let old_index = match previous {
        Some(usage) => position_of(runtimes, usage.namespace),
        None => None,
    };
    let credited = match old_index {
        Some(k) => runtimes.update(
            k,
            NamespaceRuntime { live_bytes: less(runtimes[k].live_bytes, previous->0.live_bytes), ..runtimes[k] },
        ),
        None => runtimes,
    };
    credited.update(
        index,
        NamespaceRuntime {
            reserved_bytes: less(credited[index].reserved_bytes, reserved_bytes),
            live_bytes: saturating(credited[index].live_bytes, new_live_bytes),
            ..credited[index]
        },
    )
}

/// The exact commit neither borrows nor overflows.
pub open spec fn commits_exactly(
    runtimes: Seq<NamespaceRuntime>,
    index: int,
    new_live_bytes: u64,
    reserved_bytes: u64,
    previous: Option<NamespaceUsage>,
) -> bool {
    let old_index = match previous {
        Some(usage) => position_of(runtimes, usage.namespace),
        None => None,
    };
    let removed = match old_index {
        Some(k) => previous->0.live_bytes,
        None => 0,
    };
    &&& reserved_bytes <= runtimes[index].reserved_bytes
    &&& match old_index {
        Some(k) => {
            &&& removed <= runtimes[k].live_bytes
            &&& runtimes[index].live_bytes - (if k == index { removed as int } else { 0int }) + new_live_bytes <= u64::MAX
        },
        None => runtimes[index].live_bytes + new_live_bytes <= u64::MAX,
    }
}

impl NamespaceController {
    /// The controller's invariant.
    pub closed spec fn wf(&self) -> bool {
        &&& sorted_strictly(self@)
        &&& 0 < self@.len() <= MAX_NAMESPACE_CONFIGS
        &&& forall|k: int| 0 <= k < self@.len() ==> ((#[trigger] self@[k]).write_budget matches Some(bucket) ==> bucket.wf())
    }

    /// Namespaces are kept in order, each once, and never more than can be
    /// configured.
    pub proof fn law_namespaces_are_distinct_and_bounded(&self)
        requires
            self.wf(),
        ensures
            sorted_strictly(self@),
            0 < self@.len() <= MAX_NAMESPACE_CONFIGS,
    {
    }

    /// Inserts a runtime into a sorted table; `false` if its namespace is
    /// already there.
    fn insert_sorted(table: &mut Vec<NamespaceRuntime>, runtime: NamespaceRuntime) -> (inserted: bool)
        requires
            sorted_strictly(old(table)@),
        ensures
            inserted == (forall|k: int| 0 <= k < old(table)@.len() ==> (#[trigger] old(table)@[k]).namespace != runtime.namespace),
            inserted ==> sorted_strictly(final(table)@) && final(table)@.len() == old(table)@.len() + 1 && final(table)@.contains(runtime)
                && (forall|other: NamespaceRuntime| #[trigger] old(table)@.contains(other) ==> final(table)@.contains(other))
                && (forall|k: int| 0 <= k < final(table)@.len() ==> final(table)@[k] == runtime || old(table)@.contains(
                #[trigger] final(table)@[k],
            )),
            !inserted ==> final(table)@ == old(table)@,
    {
        let ghost before = table@;
        let mut at: usize = 0;
        while at < table.len() && table[at].namespace < runtime.namespace
            invariant
                table@ == before,
                at <= table@.len(),
                forall|k: int| 0 <= k < at ==> (#[trigger] table@[k]).namespace < runtime.namespace,
            decreases table@.len() - at,
        {
            at = at + 1;
        }
        if at < table.len() && table[at].namespace == runtime.namespace {
            assert(before[at as int].namespace == runtime.namespace);
            return false;
        }
        table.insert(at, runtime);
        proof {
            let after = table@;
            assert(after[at as int] == runtime);
            assert forall|j: int, k: int| 0 <= j < k < after.len() implies (#[trigger] after[j]).namespace < (#[trigger] after[k]).namespace by {
                if j < at {
                    assert(after[j] == before[j]);
                } else if j > at {
                    assert(after[j] == before[j - 1]);
                }
                if k < at {
                    assert(after[k] == before[k]);
                } else if k > at {
                    assert(after[k] == before[k - 1]);
                    if at < before.len() {
                        assert(before[at as int].namespace > runtime.namespace);
                        if at < k - 1 {
                            assert(before[at as int].namespace < before[k - 1].namespace);
                        }
                    }
                }
            }
            assert forall|other: NamespaceRuntime| #[trigger] before.contains(other) implies after.contains(other) by {
                let k = before.index_of(other);
                assert(after[if k < at { k } else { k + 1 }] == other);
            }
            assert forall|k: int| 0 <= k < after.len() implies after[k] == runtime || before.contains(#[trigger] after[k]) by {
                if k < at {
                    assert(after[k] == before[k]);
                } else if k > at {
                    assert(after[k] == before[k - 1]);
                }
            }
            assert forall|k: int| 0 <= k < before.len() implies (#[trigger] before[k]).namespace != runtime.namespace by {
                if k > at {
                    assert(before[at as int].namespace < before[k].namespace);
                }
            }
        }
        true
    }

    /// How many namespaces the configurations make; `None` if too many.
    fn effective_count(configs: &[NamespaceConfig]) -> (count: Option<usize>)
        ensures
            count == (if effective(configs@).len() <= MAX_NAMESPACE_CONFIGS {
                Some(effective(configs@).len() as usize)
            } else {
                None
            }),
    {
        let mut default_named = false;
        let mut index: usize = 0;
        while index < configs.len()
            invariant
                index <= configs@.len(),
                default_named == (exists|k: int| 0 <= k < index && (#[trigger] configs@[k]).id() == 0),
            decreases configs@.len() - index,
        {
            if configs[index].namespace == 0 {
                assert(configs@[index as int].id() == 0);
                default_named = true;
            }
            index = index + 1;
        }
        assert(default_named == has_default(configs@));
        if configs.len() > MAX_NAMESPACE_CONFIGS || (configs.len() == MAX_NAMESPACE_CONFIGS && !default_named) {
            return None;
        }
        Some(configs.len() + (if default_named { 0 } else { 1 }))
    }

    /// Sets up the accounting of the configured namespaces.
    pub fn try_new(configs: &[NamespaceConfig], now_ns: u64) -> (result: Result<NamespaceController, PolicyBuildError>)
        ensures
            match result {
                Ok(controller) => {
                    &&& controller.wf()
                    &&& covers(controller@, effective(configs@), now_ns)
                    &&& configs_valid(configs@)
                },
                Err(PolicyBuildError::Allocation) => effective(configs@).len() <= MAX_NAMESPACE_CONFIGS,
                Err(PolicyBuildError::Invalid(message)) => !configs_valid(configs@) && refuses_configs(configs@, message@),
            },
    {
        let total: usize = match NamespaceController::effective_count(configs) {
            Some(total) => total,
            None => {
                return Err(PolicyBuildError::Invalid("namespace count exceeds its hard limit"));
            },
        };
        let mut room: Vec<NamespaceRuntime> = Vec::new();
        if !vec_try_reserve_exact(&mut room, total) {
            return Err(PolicyBuildError::Allocation);
        }
        NamespaceController::in_room(room, configs, now_ns)
    }

    /// Sets up the accounting of the configured namespaces in an empty list.
    #[verifier::rlimit(60)]
    pub fn in_room(room: Vec<NamespaceRuntime>, configs: &[NamespaceConfig], now_ns: u64) -> (result: Result<
        NamespaceController,
        PolicyBuildError,
    >)
        requires
            room@.len() == 0,
        ensures
            match result {
                Ok(controller) => {
                    &&& controller.wf()
                    &&& covers(controller@, effective(configs@), now_ns)
                    &&& configs_valid(configs@)
                },
                Err(PolicyBuildError::Allocation) => false,
                Err(PolicyBuildError::Invalid(message)) => !configs_valid(configs@) && refuses_configs(configs@, message@),
            },
    {
        let total: usize = match NamespaceController::effective_count(configs) {
            Some(total) => total,
            None => {
                return Err(PolicyBuildError::Invalid("namespace count exceeds its hard limit"));
            },
        };
        let default_named = total == configs.len();
        let mut namespaces = room;
        assert(namespaces@ =~= Seq::<NamespaceRuntime>::empty());
        let default = NamespaceConfig::new(0);
        let ghost all = effective(configs@);
        let ghost shift: int = if default_named { 0 } else { 1 };
        if !default_named {
            match NamespaceRuntime::new(&default, now_ns) {
                Ok(runtime) => {
                    let _first = NamespaceController::insert_sorted(&mut namespaces, runtime);
                    assert(all[0] == default);
                },
                Err(error) => {
                    return Err(error);
                },
            }
        }
        let mut duplicates = false;
        let mut next: usize = 0;
        while next < configs.len()
            invariant
                next <= configs@.len(),
                configs@.len() <= MAX_NAMESPACE_CONFIGS,
                configs@.len() + shift <= MAX_NAMESPACE_CONFIGS,
                default_named == has_default(configs@),
                shift == (if default_named { 0int } else { 1int }),
                all == effective(configs@),
                default == NamespaceConfig::unlimited(0),
                sorted_strictly(namespaces@),
                forall|k: int| 0 <= k < next ==> config_error(#[trigger] configs@[k]) is None,
                !duplicates ==> namespaces@.len() == next + shift,
                !duplicates ==> forall|k: int|
                    0 <= k < next + shift ==> namespaces@.contains(#[trigger] NamespaceRuntime::fresh(all[k], now_ns)),
                forall|k: int| 0 <= k < namespaces@.len() ==> exists|c: int|
                    0 <= c < next + shift && #[trigger] namespaces@[k] == NamespaceRuntime::fresh(#[trigger] all[c], now_ns),
                !duplicates ==> forall|a: int, b: int| 0 <= a < b < next + shift ==> (#[trigger] all[a]).id() != (#[trigger] all[b]).id(),
                duplicates ==> has_duplicates(configs@),
            decreases configs@.len() - next,
        {
            assert(all[next + shift] == configs@[next as int]);
            match NamespaceRuntime::new(&configs[next], now_ns) {
                Ok(runtime) => {
                    let ghost before = namespaces@;
                    let inserted = NamespaceController::insert_sorted(&mut namespaces, runtime);
                    proof {
                        if inserted {
                            assert forall|k: int| 0 <= k < namespaces@.len() implies exists|c: int|
                                0 <= c < next + 1 + shift && #[trigger] namespaces@[k] == NamespaceRuntime::fresh(
                                    #[trigger] all[c],
                                    now_ns,
                                ) by {
                                if namespaces@[k] == runtime {
                                    assert(namespaces@[k] == NamespaceRuntime::fresh(all[next + shift], now_ns));
                                } else {
                                    let j = before.index_of(namespaces@[k]);
                                    assert(before[j] == namespaces@[k]);
                                    let c = choose|c: int|
                                        0 <= c < next + shift && before[j] == NamespaceRuntime::fresh(#[trigger] all[c], now_ns);
                                    assert(namespaces@[k] == NamespaceRuntime::fresh(all[c], now_ns));
                                }
                            }
                            if !duplicates {
                                assert forall|a: int, b: int| 0 <= a < b < next + 1 + shift implies (#[trigger] all[a]).id()
                                    != (#[trigger] all[b]).id() by {
                                    if b == next + shift {
                                        assert(before.contains(NamespaceRuntime::fresh(all[a], now_ns)));
                                        let k = before.index_of(NamespaceRuntime::fresh(all[a], now_ns));
                                        assert(before[k].namespace != runtime.namespace);
                                    }
                                }
                            }
                        } else {
                            let k = choose|k: int| 0 <= k < before.len() && (#[trigger] before[k]).namespace == runtime.namespace;
                            let c = choose|c: int|
                                0 <= c < next + shift && before[k] == NamespaceRuntime::fresh(#[trigger] all[c], now_ns);
                            assert(all[c].id() == configs@[next as int].id());
                            if shift == 1 && c == 0 {
                                assert(configs@[next as int].id() == 0);
                                assert(has_default(configs@));
                            } else {
                                assert(all[c] == configs@[c - shift]);
                                assert(has_duplicates(configs@));
                            }
                        }
                    }
                    if !inserted {
                        duplicates = true;
                    }
                },
                Err(error) => {
                    proof {
                        match error {
                            PolicyBuildError::Invalid(message) => {
                                assert(config_error(configs@[next as int]) == Some(message@));
                            },
                            PolicyBuildError::Allocation => {},
                        }
                    }
                    return Err(error);
                },
            }
            next = next + 1;
        }
        if duplicates {
            return Err(PolicyBuildError::Invalid("namespace identifiers must be unique"));
        }
        let controller = NamespaceController { namespaces };
        proof {
            assert(all.len() == configs@.len() + shift);
            assert(covers(controller@, all, now_ns));
            assert forall|k: int| 0 <= k < controller@.len() implies ((#[trigger] controller@[k]).write_budget matches Some(bucket)
                ==> bucket.wf()) by {
                let c = choose|c: int|
                    0 <= c < configs@.len() + shift && controller@[k] == NamespaceRuntime::fresh(#[trigger] all[c], now_ns);
            }
            if controller@.len() == 0 {
                assert(has_default(configs@));
            }
            assert forall|j: int, k: int| 0 <= j < k < configs@.len() implies (#[trigger] configs@[j]).id() != (#[trigger] configs@[k]).id() by {
                assert(all[j + shift] == configs@[j] && all[k + shift] == configs@[k]);
            }
        }
        Ok(controller)
    }

    /// Where a namespace stands in the table.
    fn find(&self, namespace: NamespaceId) -> (found: Option<usize>)
        requires
            self.wf(),
        ensures
            match found {
                Some(index) => {
                    &&& index < self@.len()
                    &&& self@[index as int].namespace == namespace
                    &&& position_of(self@, namespace) == Some(index as int)
                },
                None => position_of(self@, namespace) is None,
            },
    {
        let mut low: usize = 0;
        let mut high: usize = self.namespaces.len();
        while low < high
            invariant
                sorted_strictly(self@),
                self@ == self.namespaces@,
                low <= high <= self.namespaces@.len(),
                forall|k: int| 0 <= k < low ==> (#[trigger] self@[k]).namespace < namespace,
                forall|k: int| high <= k < self@.len() ==> (#[trigger] self@[k]).namespace > namespace,
            decreases high - low,
        {
            let middle = low + (high - low) / 2;
            let current = self.namespaces[middle].namespace;
            if current == namespace {
                proof {
                    lemma_position(self@, namespace, middle as int);
                }
                return Some(middle);
            }
            if current < namespace {
                assert forall|k: int| 0 <= k < middle + 1 implies (#[trigger] self@[k]).namespace < namespace by {
                    if k < middle {
                        assert(self@[k].namespace < self@[middle as int].namespace);
                    }
                }
                low = middle + 1;
            } else {
                assert forall|k: int| middle <= k < self@.len() implies (#[trigger] self@[k]).namespace > namespace by {
                    if middle < k {
                        assert(self@[middle as int].namespace < self@[k].namespace);
                    }
                }
                high = middle;
            }
        }
        None
    }

    /// Whether a namespace is configured.
    pub fn contains(&self, namespace: NamespaceId) -> (found: bool)
        requires
            self.wf(),
        ensures
            found == (position_of(self@, namespace) is Some),
    {
        self.find(namespace).is_some()
    }

    /// The sole configured namespace, when aggregate retirement can be
    /// attributed without inspecting individual cache records.
    pub fn single_namespace(&self) -> (namespace: Option<NamespaceId>)
        requires
            self.wf(),
        ensures
            namespace == (if self@.len() == 1 { Some(self@[0].namespace) } else { None }),
    {
        if self.namespaces.len() == 1 {
            Some(self.namespaces[0].namespace)
        } else {
            None
        }
    }

    /// Replaces one runtime by another of the same namespace.
    fn store(&mut self, index: usize, runtime: NamespaceRuntime)
        requires
            old(self).wf(),
            index < old(self)@.len(),
            runtime.namespace == old(self)@[index as int].namespace,
            runtime.write_budget matches Some(bucket) ==> bucket.wf(),
        ensures
            final(self).wf(),
            final(self)@ == old(self)@.update(index as int, runtime),
    {
        self.namespaces.set(index, runtime);
        proof {
            assert forall|j: int, k: int| 0 <= j < k < self@.len() implies (#[trigger] self@[j]).namespace < (#[trigger] self@[k]).namespace by {
                assert(old(self)@[j].namespace < old(self)@[k].namespace);
            }
        }
    }

    /// Reserves the complete encoded size of a prospective live value.
    ///
    /// Reserving the full new size, rather than relying on replacement credit,
    /// keeps capacity strict even when a compact-index collision replaces an
    /// entry from another namespace. Tombstones reserve zero bytes.
    pub fn try_reserve_capacity(&mut self, namespace: NamespaceId, new_live_bytes: u64) -> (result: Result<
        NamespaceCapacityReservation,
        NamespaceRejectReason,
    >)
        requires
            old(self).wf(),
        ensures
            final(self).wf(),
            reserve_outcome(old(self)@, namespace, new_live_bytes, 0, final(self)@, result),
    {
        self.try_reserve_capacity_replacing(namespace, new_live_bytes, 0)
    }

    /// Reserves only the positive live-byte delta for an exact same-key
    /// replacement. The caller must hold that key's ordering lock and must
    /// arrange for the credited old value to be retired before committing.
    pub fn try_reserve_capacity_replacing(
        &mut self,
        namespace: NamespaceId,
        new_live_bytes: u64,
        previous_live_bytes: u64,
    ) -> (result: Result<NamespaceCapacityReservation, NamespaceRejectReason>)
        requires
            old(self).wf(),
        ensures
            final(self).wf(),
            reserve_outcome(old(self)@, namespace, new_live_bytes, previous_live_bytes, final(self)@, result),
    {
        let index: usize = match self.find(namespace) {
            Some(index) => index,
            None => {
                return Err(NamespaceRejectReason::UnknownNamespace);
            },
        };
        let mut runtime = self.namespaces[index];
        let credited_bytes = if previous_live_bytes < runtime.live_bytes { previous_live_bytes } else { runtime.live_bytes };
        let reserved_bytes = new_live_bytes.saturating_sub(credited_bytes);
        let next: Option<u64> = match runtime.live_bytes.checked_add(runtime.reserved_bytes) {
            Some(bytes) => bytes.checked_add(reserved_bytes),
            None => None,
        };
        let within_capacity = match next {
            None => false,
            Some(bytes) => match runtime.capacity_bytes {
                Some(capacity) => bytes <= capacity,
                None => true,
            },
        };
        if !within_capacity {
            runtime.capacity_rejections = runtime.capacity_rejections.saturating_add(1);
            self.store(index, runtime);
            return Err(NamespaceRejectReason::CapacityExceeded);
        }
        runtime.reserved_bytes = runtime.reserved_bytes + reserved_bytes;
        self.store(index, runtime);
        Ok(NamespaceCapacityReservation { index, new_live_bytes, reserved_bytes })
    }

    /// Publishes the new usage and removes the replaced live entry, if any.
    pub fn commit_capacity(&mut self, reservation: NamespaceCapacityReservation, previous: Option<NamespaceUsage>)
        requires
            old(self).wf(),
            reservation.index < old(self)@.len(),
        ensures
            final(self).wf(),
            final(self)@ == committed(
                old(self)@,
                reservation.index as int,
                reservation.new_live_bytes,
                reservation.reserved_bytes,
                previous,
            ),
    {
        if let Some(usage) = previous {
            if let Some(old_index) = self.find(usage.namespace) {
                let mut replaced = self.namespaces[old_index];
                replaced.live_bytes = replaced.live_bytes.saturating_sub(usage.live_bytes);
                self.store(old_index, replaced);
            }
        }
        let mut runtime = self.namespaces[reservation.index];
        runtime.reserved_bytes = runtime.reserved_bytes.saturating_sub(reservation.reserved_bytes);
        runtime.live_bytes = runtime.live_bytes.saturating_add(reservation.new_live_bytes);
        self.store(reservation.index, runtime);
    }

    fn commit_capacity_exact(
        &mut self,
        new_index: usize,
        new_live_bytes: u64,
        reserved_bytes: u64,
        previous: Option<NamespaceUsage>,
    ) -> (done: bool)
        requires
            old(self).wf(),
            new_index < old(self)@.len(),
        ensures
            final(self).wf(),
            done == commits_exactly(old(self)@, new_index as int, new_live_bytes, reserved_bytes, previous),
            final(self)@ == if done {
                committed(old(self)@, new_index as int, new_live_bytes, reserved_bytes, previous)
            } else {
                old(self)@
            },
    {
        let ghost before = self@;
        // A namespace can be removed from configuration across reopen. Recovery
        // deliberately omits its physical entries, so replacing one later must
        // treat that previous charge as unaccounted.
        let previous_index: Option<(usize, u64)> = match previous {
            Some(usage) => match self.find(usage.namespace) {
                Some(index) => Some((index, usage.live_bytes)),
                None => None,
            },
            None => None,
        };
        let current = self.namespaces[new_index];
        let next_reserved: u64 = match current.reserved_bytes.checked_sub(reserved_bytes) {
            Some(bytes) => bytes,
            None => {
                return false;
            },
        };
        match previous_index {
            Some((old_index, old_live_bytes)) => {
                let replaced = self.namespaces[old_index];
                let old_live: u64 = match replaced.live_bytes.checked_sub(old_live_bytes) {
                    Some(bytes) => bytes,
                    None => {
                        return false;
                    },
                };
                let base = if old_index == new_index { old_live } else { current.live_bytes };
                let next_live: u64 = match base.checked_add(new_live_bytes) {
                    Some(bytes) => bytes,
                    None => {
                        return false;
                    },
                };
                if old_index != new_index {
                    self.store(old_index, NamespaceRuntime { live_bytes: old_live, ..replaced });
                }
                self.store(new_index, NamespaceRuntime { reserved_bytes: next_reserved, live_bytes: next_live, ..current });
            },
            None => {
                let next_live: u64 = match current.live_bytes.checked_add(new_live_bytes) {
                    Some(bytes) => bytes,
                    None => {
                        return false;
                    },
                };
                self.store(new_index, NamespaceRuntime { reserved_bytes: next_reserved, live_bytes: next_live, ..current });
            },
        }
        proof {
            assert(self@ =~= committed(before, new_index as int, new_live_bytes, reserved_bytes, previous));
        }
        true
    }

    /// Publishes the bytes actually used, or releases the reservation if they
    /// exceed it or the books would not balance.
    pub fn commit_actual_exact(
        &mut self,
        reservation: NamespaceCapacityReservation,
        actual_live_bytes: u64,
        previous: Option<NamespaceUsage>,
    ) -> (done: bool)
        requires
            old(self).wf(),
            reservation.index < old(self)@.len(),
        ensures
            final(self).wf(),
            done == (actual_live_bytes <= reservation.new_live_bytes && commits_exactly(
                old(self)@,
                reservation.index as int,
                actual_live_bytes,
                reservation.reserved_bytes,
                previous,
            )),
            final(self)@ == if done {
                committed(
                    old(self)@,
                    reservation.index as int,
                    actual_live_bytes,
                    reservation.reserved_bytes,
                    previous,
                )
            } else {
                released(old(self)@, reservation)
            },
    {
        if actual_live_bytes <= reservation.new_live_bytes && self.commit_capacity_exact(
            reservation.index,
            actual_live_bytes,
            reservation.reserved_bytes,
            previous,
        ) {
            return true;
        }
        self.release_capacity(reservation);
        false
    }

    /// Gives a reservation back.
    pub fn release_capacity(&mut self, reservation: NamespaceCapacityReservation)
        requires
            old(self).wf(),
            reservation.index < old(self)@.len(),
        ensures
            final(self).wf(),
            final(self)@ == released(old(self)@, reservation),
    {
        let mut runtime = self.namespaces[reservation.index];
        runtime.reserved_bytes = runtime.reserved_bytes.saturating_sub(reservation.reserved_bytes);
        self.store(reservation.index, runtime);
    }

    /// Reserves namespace write tokens.
    pub fn try_reserve_write_at(&mut self, namespace: NamespaceId, encoded_bytes: u64, now_ns: u64) -> (result: Result<
        NamespaceWriteReservation,
        NamespaceRejectReason,
    >)
        requires
            old(self).wf(),
        ensures
            final(self).wf(),
            write_outcome(old(self)@, namespace, encoded_bytes, now_ns, final(self)@, result),
    {
        let ghost before = self@;
        let index: usize = match self.find(namespace) {
            Some(index) => index,
            None => {
                return Err(NamespaceRejectReason::UnknownNamespace);
            },
        };
        let mut runtime = self.namespaces[index];
        match runtime.write_budget {
            Some(stored) => {
                let mut bucket = stored;
                assert(before[index as int].write_budget matches Some(b) ==> b.wf());
                let charged = bucket.try_charge_at(encoded_bytes, now_ns);
                runtime.write_budget = Some(bucket);
                if !charged {
                    runtime.write_budget_rejections = runtime.write_budget_rejections.saturating_add(1);
                    self.store(index, runtime);
                    return Err(NamespaceRejectReason::WriteBudgetExceeded);
                }
                self.store(index, runtime);
            },
            None => {
                assert(before.update(index as int, before[index as int]) =~= before);
            },
        }
        Ok(NamespaceWriteReservation { index, encoded_bytes })
    }

    /// Refunds write tokens that were not used.
    pub fn refund_write_at(&mut self, reservation: NamespaceWriteReservation, now_ns: u64)
        requires
            old(self).wf(),
            reservation.index < old(self)@.len(),
        ensures
            final(self).wf(),
            final(self)@ == write_refunded(old(self)@, reservation, now_ns),
    {
        let ghost before = self@;
        let mut runtime = self.namespaces[reservation.index];
        match runtime.write_budget {
            Some(stored) => {
                let mut bucket = stored;
                assert(before[reservation.index as int].write_budget matches Some(b) ==> b.wf());
                bucket.refund_at(reservation.encoded_bytes, now_ns);
                runtime.write_budget = Some(bucket);
                self.store(reservation.index, runtime);
            },
            None => {
                assert(before.update(reservation.index as int, before[reservation.index as int]) =~= before);
            },
        }
    }

    /// Restores live usage during recovery without enforcing a newly lowered quota.
    ///
    /// An over-quota recovered namespace remains readable, while subsequent
    /// writes are rejected until eviction brings it below the configured cap.
    pub fn restore_live_bytes(&mut self, namespace: NamespaceId, live_bytes: u64) -> (result: Result<(), NamespaceRejectReason>)
        requires
            old(self).wf(),
        ensures
            final(self).wf(),
            match position_of(old(self)@, namespace) {
                None => result == Err::<(), NamespaceRejectReason>(NamespaceRejectReason::UnknownNamespace) && final(self)@ == old(self)@,
                Some(index) => if old(self)@[index].live_bytes + live_bytes > u64::MAX {
                    result == Err::<(), NamespaceRejectReason>(NamespaceRejectReason::CapacityExceeded) && final(self)@ == old(self)@
                } else {
                    &&& result == Ok::<(), NamespaceRejectReason>(())
                    &&& final(self)@ == old(self)@.update(
                        index,
                        NamespaceRuntime { live_bytes: (old(self)@[index].live_bytes + live_bytes) as u64, ..old(self)@[index] },
                    )
                },
            },
    {
        let index: usize = match self.find(namespace) {
            Some(index) => index,
            None => {
                return Err(NamespaceRejectReason::UnknownNamespace);
            },
        };
        let mut runtime = self.namespaces[index];
        match runtime.live_bytes.checked_add(live_bytes) {
            Some(bytes) => {
                runtime.live_bytes = bytes;
                self.store(index, runtime);
                Ok(())
            },
            None => Err(NamespaceRejectReason::CapacityExceeded),
        }
    }

    /// Removes one exact physical charge, rejecting stale or duplicate receipts
    /// instead of silently borrowing bytes from unrelated live entries.
    pub fn record_removal_exact(&mut self, previous: NamespaceUsage) -> (done: bool)
        requires
            old(self).wf(),
        ensures
            final(self).wf(),
            match position_of(old(self)@, previous.namespace) {
                Some(index) => {
                    &&& done == (previous.live_bytes <= old(self)@[index].live_bytes)
                    &&& final(self)@ == if done {
                        old(self)@.update(
                            index,
                            NamespaceRuntime {
                                live_bytes: (old(self)@[index].live_bytes - previous.live_bytes) as u64,
                                ..old(self)@[index]
                            },
                        )
                    } else {
                        old(self)@
                    }
                },
                None => !done && final(self)@ == old(self)@,
            },
    {
        let index: usize = match self.find(previous.namespace) {
            Some(index) => index,
            None => {
                return false;
            },
        };
        let mut runtime = self.namespaces[index];
        match runtime.live_bytes.checked_sub(previous.live_bytes) {
            Some(bytes) => {
                runtime.live_bytes = bytes;
                self.store(index, runtime);
                true
            },
            None => false,
        }
    }

    /// Moves one exact physical charge, rejecting receipts that do not balance.
    pub fn record_replacement_exact(&mut self, current: NamespaceUsage, previous: Option<NamespaceUsage>) -> (done: bool)
        requires
            old(self).wf(),
        ensures
            final(self).wf(),
            match position_of(old(self)@, current.namespace) {
                Some(index) => {
                    &&& done == commits_exactly(old(self)@, index, current.live_bytes, 0, previous)
                    &&& final(self)@ == if done {
                        committed(old(self)@, index, current.live_bytes, 0, previous)
                    } else {
                        old(self)@
                    }
                },
                None => !done && final(self)@ == old(self)@,
            },
    {
        match self.find(current.namespace) {
            Some(index) => self.commit_capacity_exact(index, current.live_bytes, 0, previous),
            None => false,
        }
    }

    /// Forgets all live and reserved bytes.
    pub fn reset_live_bytes(&mut self)
        requires
            old(self).wf(),
        ensures
            final(self).wf(),
            final(self)@.len() == old(self)@.len(),
            forall|k: int| 0 <= k < old(self)@.len() ==> #[trigger] final(self)@[k] == (NamespaceRuntime {
                live_bytes: 0,
                reserved_bytes: 0,
                ..old(self)@[k]
            }),
    {
        let ghost before = self@;
        let mut index: usize = 0;
        while index < self.namespaces.len()
            invariant
                before == old(self)@,
                self.wf(),
                self@ == self.namespaces@,
                self@.len() == before.len(),
                index <= self.namespaces@.len(),
                forall|k: int| 0 <= k < index ==> #[trigger] self@[k] == (NamespaceRuntime {
                    live_bytes: 0,
                    reserved_bytes: 0,
                    ..before[k]
                }),
                forall|k: int| index <= k < before.len() ==> #[trigger] self@[k] == before[k],
            decreases self.namespaces@.len() - index,
        {
            let mut runtime = self.namespaces[index];
            runtime.live_bytes = 0;
            runtime.reserved_bytes = 0;
            self.store(index, runtime);
            index = index + 1;
        }
    }

    /// The fixed namespace-id template used by streaming recovery accounting;
    /// `None` if it cannot be allocated.
    pub fn try_zero_usage(&self) -> (usage: Option<Vec<NamespaceUsage>>)
        requires
            self.wf(),
        ensures
            match usage {
                Some(list) => list@ == self@.map_values(
                    |runtime: NamespaceRuntime| NamespaceUsage { namespace: runtime.namespace, live_bytes: 0 },
                ),
                None => self@.len() > 0,
            },
    {
        let mut room: Vec<NamespaceUsage> = Vec::new();
        if !vec_try_reserve_exact(&mut room, self.namespaces.len()) {
            return None;
        }
        Some(self.zero_usage_in(room))
    }

    /// The fixed namespace-id template, written into an empty list.
    pub fn zero_usage_in(&self, room: Vec<NamespaceUsage>) -> (usage: Vec<NamespaceUsage>)
        requires
            self.wf(),
            room@.len() == 0,
        ensures
            usage@ == self@.map_values(
                |runtime: NamespaceRuntime| NamespaceUsage { namespace: runtime.namespace, live_bytes: 0 },
            ),
    {
        let mut usage = room;
        let mut index: usize = 0;
        while index < self.namespaces.len()
            invariant
                index <= self.namespaces@.len(),
                usage@.len() == index,
                forall|k: int| 0 <= k < index ==> #[trigger] usage@[k] == (NamespaceUsage {
                    namespace: self.namespaces@[k].namespace,
                    live_bytes: 0,
                }),
            decreases self.namespaces@.len() - index,
        {
            usage.push(NamespaceUsage { namespace: self.namespaces[index].namespace, live_bytes: 0 });
            index = index + 1;
        }
        assert(usage@ =~= self@.map_values(
            |runtime: NamespaceRuntime| NamespaceUsage { namespace: runtime.namespace, live_bytes: 0 },
        ));
        usage
    }

    /// Brings a namespace's write budget up to date and shows its accounting.
    fn snapshot_index(&mut self, index: usize, now_ns: u64) -> (snapshot: NamespaceSnapshot)
        requires
            old(self).wf(),
            index < old(self)@.len(),
        ensures
            final(self).wf(),
            final(self)@ == old(self)@.update(index as int, old(self)@[index as int].refilled(now_ns)),
            snapshot == old(self)@[index as int].snapshot_at(now_ns),
    {
        let ghost before = self@;
        let mut runtime = self.namespaces[index];
        let mut rate: Option<u64> = None;
        let mut available: Option<u64> = None;
        if let Some(stored) = runtime.write_budget {
            let mut bucket = stored;
            assert(before[index as int].write_budget matches Some(b) ==> b.wf());
            bucket.refill(now_ns);
            rate = Some(bucket.rate);
            available = Some(bucket.available);
            runtime.write_budget = Some(bucket);
        }
        self.store(index, runtime);
        NamespaceSnapshot {
            namespace: runtime.namespace,
            capacity_bytes: runtime.capacity_bytes,
            live_bytes: runtime.live_bytes,
            reserved_bytes: runtime.reserved_bytes,
            capacity_rejections: runtime.capacity_rejections,
            write_budget_bytes_per_second: rate,
            write_budget_available_bytes: available,
            write_budget_rejections: runtime.write_budget_rejections,
        }
    }

    /// The accounting of every namespace, sorted by namespace; `None` if it
    /// cannot be allocated.
    pub fn try_snapshots_at(&mut self, now_ns: u64) -> (snapshots: Option<Vec<NamespaceSnapshot>>)
        requires
            old(self).wf(),
        ensures
            final(self).wf(),
            match snapshots {
                Some(list) => {
                    &&& list@.len() == old(self)@.len()
                    &&& forall|k: int| 0 <= k < list@.len() ==> #[trigger] list@[k] == old(self)@[k].snapshot_at(now_ns)
                    &&& final(self)@.len() == old(self)@.len()
                    &&& forall|k: int| 0 <= k < list@.len() ==> #[trigger] final(self)@[k] == old(self)@[k].refilled(now_ns)
                },
                None => final(self)@ == old(self)@ && old(self)@.len() > 0,
            },
    {
        let mut room: Vec<NamespaceSnapshot> = Vec::new();
        if !vec_try_reserve_exact(&mut room, self.namespaces.len()) {
            return None;
        }
        Some(self.snapshots_in(room, now_ns))
    }

    /// The accounting of every namespace, sorted by namespace, written into an
    /// empty list.
    pub fn snapshots_in(&mut self, room: Vec<NamespaceSnapshot>, now_ns: u64) -> (list: Vec<NamespaceSnapshot>)
        requires
            old(self).wf(),
            room@.len() == 0,
        ensures
            final(self).wf(),
            list@.len() == old(self)@.len(),
            forall|k: int| 0 <= k < list@.len() ==> #[trigger] list@[k] == old(self)@[k].snapshot_at(now_ns),
            final(self)@.len() == old(self)@.len(),
            forall|k: int| 0 <= k < list@.len() ==> #[trigger] final(self)@[k] == old(self)@[k].refilled(now_ns),
    {
        let ghost before = self@;
        let mut snapshots = room;
        let mut index: usize = 0;
        while index < self.namespaces.len()
            invariant
                before == old(self)@,
                self.wf(),
                self@ == self.namespaces@,
                self@.len() == before.len(),
                index <= self.namespaces@.len(),
                snapshots@.len() == index,
                forall|k: int| 0 <= k < index ==> #[trigger] snapshots@[k] == before[k].snapshot_at(now_ns),
                forall|k: int| 0 <= k < index ==> #[trigger] self@[k] == before[k].refilled(now_ns),
                forall|k: int| index <= k < before.len() ==> #[trigger] self@[k] == before[k],
            decreases self.namespaces@.len() - index,
        {
            let snapshot = self.snapshot_index(index, now_ns);
            snapshots.push(snapshot);
            index = index + 1;
        }
        snapshots
    }

    /// The accounting of one namespace.
    pub fn snapshot_at(&mut self, namespace: NamespaceId, now_ns: u64) -> (snapshot: Option<NamespaceSnapshot>)
        requires
            old(self).wf(),
        ensures
            final(self).wf(),
            match position_of(old(self)@, namespace) {
                Some(index) => {
                    &&& snapshot == Some(old(self)@[index].snapshot_at(now_ns))
                    &&& final(self)@ == old(self)@.update(index, old(self)@[index].refilled(now_ns))
                },
                None => snapshot is None && final(self)@ == old(self)@,
            },
    {
        match self.find(namespace) {
            Some(index) => Some(self.snapshot_index(index, now_ns)),
            None => None,
        }
    }

    /// Capacity and write-budget rejections of all namespaces.
    pub fn rejection_totals(&self) -> (totals: (u64, u64))
        requires
            self.wf(),
        ensures
            totals == rejections(self@),
    {
        let mut capacity: u64 = 0;
        let mut write_budget: u64 = 0;
        let mut index: usize = 0;
        while index < self.namespaces.len()
            invariant
                self@ == self.namespaces@,
                index <= self.namespaces@.len(),
                (capacity, write_budget) == rejections(self@.take(index as int)),
            decreases self.namespaces@.len() - index,
        {
            assert(self@.take(index + 1).drop_last() =~= self@.take(index as int));
            capacity = capacity.saturating_add(self.namespaces[index].capacity_rejections);
            write_budget = write_budget.saturating_add(self.namespaces[index].write_budget_rejections);
            index = index + 1;
        }
        assert(self@.take(self@.len() as int) =~= self@);
        (capacity, write_budget)
    }
}

/// Rejections summed over the table; sums stick at the maximum.
pub open spec fn rejections(runtimes: Seq<NamespaceRuntime>) -> (u64, u64)
    decreases runtimes.len(),
{
    if runtimes.len() == 0 {
        (0, 0)
    } else {
        let rest = rejections(runtimes.drop_last());
        (
            saturating(rest.0, runtimes.last().capacity_rejections),
            saturating(rest.1, runtimes.last().write_budget_rejections),
        )
    }
}

/// The table after a reservation has been given back.
pub open spec fn released(runtimes: Seq<NamespaceRuntime>, reservation: NamespaceCapacityReservation) -> Seq<NamespaceRuntime> {
    let runtime = runtimes[reservation.index as int];
    runtimes.update(
        reservation.index as int,
        NamespaceRuntime { reserved_bytes: less(runtime.reserved_bytes, reservation.reserved_bytes), ..runtime },
    )
}

/// A write reservation takes the bytes out of the namespace's budget if it has
/// one, and is turned away if they are not there.
pub open spec fn write_outcome(
    before: Seq<NamespaceRuntime>,
    namespace: NamespaceId,
    encoded_bytes: u64,
    now_ns: u64,
    after: Seq<NamespaceRuntime>,
    result: Result<NamespaceWriteReservation, NamespaceRejectReason>,
) -> bool {
    match position_of(before, namespace) {
        None => result == Err::<NamespaceWriteReservation, NamespaceRejectReason>(NamespaceRejectReason::UnknownNamespace) && after
            == before,
        Some(index) => {
            let runtime = before[index].refilled(now_ns);
            if runtime.write_budget matches Some(bucket) && encoded_bytes > bucket.available {
                &&& result == Err::<NamespaceWriteReservation, NamespaceRejectReason>(NamespaceRejectReason::WriteBudgetExceeded)
                &&& after == before.update(
                    index,
                    NamespaceRuntime { write_budget_rejections: saturating(runtime.write_budget_rejections, 1), ..runtime },
                )
            } else {
                &&& result == Ok::<NamespaceWriteReservation, NamespaceRejectReason>(
                    NamespaceWriteReservation { index: index as usize, encoded_bytes },
                )
                &&& after == before.update(
                    index,
                    NamespaceRuntime {
                        write_budget: match runtime.write_budget {
                            Some(bucket) => Some(TokenBucket { available: (bucket.available - encoded_bytes) as u64, ..bucket }),
                            None => None,
                        },
                        ..runtime
                    },
                )
            }
        },
    }
}

/// The namespaces once a write reservation's bytes have been put back.
pub open spec fn write_refunded(before: Seq<NamespaceRuntime>, reservation: NamespaceWriteReservation, now_ns: u64) -> Seq<
    NamespaceRuntime,
> {
    let runtime = before[reservation.index as int];
    before.update(
        reservation.index as int,
        NamespaceRuntime {
            write_budget: match runtime.write_budget {
                Some(bucket) => Some(bucket.refunded(reservation.encoded_bytes, now_ns)),
                None => None,
            },
            ..runtime
        },
    )
}

/// What a request for live bytes does.
pub open spec fn reserve_outcome(
    before: Seq<NamespaceRuntime>,
    namespace: NamespaceId,
    new_live_bytes: u64,
    previous_live_bytes: u64,
    after: Seq<NamespaceRuntime>,
    result: Result<NamespaceCapacityReservation, NamespaceRejectReason>,
) -> bool {
    match position_of(before, namespace) {
        None => result == Err::<NamespaceCapacityReservation, NamespaceRejectReason>(NamespaceRejectReason::UnknownNamespace) && after
            == before,
        Some(index) => {
            let runtime = before[index];
            let reserved = reservation_bytes(runtime, new_live_bytes, previous_live_bytes);
            if fits_capacity(runtime, reserved) {
                &&& result == Ok::<NamespaceCapacityReservation, NamespaceRejectReason>(
                    NamespaceCapacityReservation { index: index as usize, new_live_bytes, reserved_bytes: reserved },
                )
                &&& after == before.update(
                    index,
                    NamespaceRuntime { reserved_bytes: (runtime.reserved_bytes + reserved) as u64, ..runtime },
                )
            } else {
                &&& result == Err::<NamespaceCapacityReservation, NamespaceRejectReason>(NamespaceRejectReason::CapacityExceeded)
                &&& after == before.update(
                    index,
                    NamespaceRuntime { capacity_rejections: saturating(runtime.capacity_rejections, 1), ..runtime },
                )
            }
        },
    }
}

// ---------------------------------------------------------------------------
// The whole policy
// ---------------------------------------------------------------------------

/// Complete policy state owned by one cache instance.
pub struct PolicyController {
    pub admission: AdmissionPolicy,
    pub namespaces: NamespaceController,
    pub host_writes: HostWriteTracker,
    pub device_health: DeviceHealthTracker,
}

/// A health tracker that has seen no sample.
pub open spec fn unobserved(policy: DeviceHealthPolicy) -> DeviceHealthTracker {
    DeviceHealthTracker { policy, latest: None, media_error_growth_observed: false, observations: 0 }
}

/// Bytes that an earlier run has already written on the day.
pub open spec fn baseline_on(baseline: Option<(u64, u64)>, utc_day: u64) -> u64 {
    match baseline {
        Some((day, bytes)) => if day == utc_day {
            bytes
        } else {
            0
        },
        None => 0,
    }
}

impl PolicyController {
    /// The invariants of the parts.
    pub open spec fn wf(&self) -> bool {
        &&& self.admission.wf()
        &&& self.namespaces.wf()
    }

    /// The controller has observed, reserved and admitted nothing.
    pub open spec fn is_fresh(
        &self,
        mode: AdmissionMode,
        configs: Seq<NamespaceConfig>,
        health: DeviceHealthPolicy,
        now_ns: u64,
    ) -> bool {
        &&& self.wf()
        &&& configs_valid(configs)
        &&& self.admission@ == AdmissionModel::fresh(mode)
        &&& covers(self.namespaces@, effective(configs), now_ns)
        &&& self.device_health == unobserved(health)
    }

    /// Policy state of a cache that only observes device health.
    pub fn try_new(
        admission_mode: AdmissionMode,
        namespace_configs: &[NamespaceConfig],
        daily_host_write_budget_bytes: Option<u64>,
        now_ns: u64,
        utc_day: u64,
    ) -> (result: Result<PolicyController, PolicyBuildError>)
        ensures
            match result {
                Ok(controller) => {
                    &&& controller.is_fresh(admission_mode, namespace_configs@, DeviceHealthPolicy::ObserveOnly, now_ns)
                    &&& daily_host_write_budget_bytes != Some(0u64)
                    &&& controller.host_writes == HostWriteTracker::fresh(daily_host_write_budget_bytes, utc_day, 0)
                },
                Err(PolicyBuildError::Allocation) => true,
                Err(PolicyBuildError::Invalid(message)) => {
                    ||| !configs_valid(namespace_configs@) && refuses_configs(namespace_configs@, message@)
                    ||| {
                        &&& configs_valid(namespace_configs@)
                        &&& daily_host_write_budget_bytes == Some(0u64)
                        &&& message@ == "daily host-write budget must be greater than zero when enabled"@
                    }
                },
            },
    {
        PolicyController::try_new_with_health(
            admission_mode,
            namespace_configs,
            daily_host_write_budget_bytes,
            None,
            DeviceHealthPolicy::ObserveOnly,
            now_ns,
            utc_day,
        )
    }

    /// Policy state with a health policy and what an earlier run has already
    /// written on some day.
    pub fn try_new_with_health(
        admission_mode: AdmissionMode,
        namespace_configs: &[NamespaceConfig],
        daily_host_write_budget_bytes: Option<u64>,
        daily_host_write_baseline: Option<(u64, u64)>,
        device_health_policy: DeviceHealthPolicy,
        now_ns: u64,
        utc_day: u64,
    ) -> (result: Result<PolicyController, PolicyBuildError>)
        ensures
            match result {
                Ok(controller) => {
                    &&& controller.is_fresh(admission_mode, namespace_configs@, device_health_policy, now_ns)
                    &&& daily_host_write_budget_bytes != Some(0u64)
                    &&& controller.host_writes == HostWriteTracker::fresh(
                        daily_host_write_budget_bytes,
                        utc_day,
                        baseline_on(daily_host_write_baseline, utc_day),
                    )
                },
                Err(PolicyBuildError::Allocation) => true,
                Err(PolicyBuildError::Invalid(message)) => {
                    ||| !configs_valid(namespace_configs@) && refuses_configs(namespace_configs@, message@)
                    ||| {
                        &&& configs_valid(namespace_configs@)
                        &&& daily_host_write_budget_bytes == Some(0u64)
                        &&& message@ == "daily host-write budget must be greater than zero when enabled"@
                    }
                },
            },
    {
        let admission = match AdmissionPolicy::try_new(admission_mode) {
            Ok(admission) => admission,
            Err(error) => {
                return Err(error);
            },
        };
        let namespaces = match NamespaceController::try_new(namespace_configs, now_ns) {
            Ok(namespaces) => namespaces,
            Err(error) => {
                return Err(error);
            },
        };
        PolicyController::from_parts(
            admission,
            namespaces,
            daily_host_write_budget_bytes,
            daily_host_write_baseline,
            device_health_policy,
            utc_day,
        )
    }

    /// Policy state around what has been allocated for it.
    pub fn from_parts(
        admission: AdmissionPolicy,
        namespaces: NamespaceController,
        daily_host_write_budget_bytes: Option<u64>,
        daily_host_write_baseline: Option<(u64, u64)>,
        device_health_policy: DeviceHealthPolicy,
        utc_day: u64,
    ) -> (result: Result<PolicyController, PolicyBuildError>)
        ensures
            match result {
                Ok(controller) => {
                    &&& daily_host_write_budget_bytes != Some(0u64)
                    &&& controller == (PolicyController {
                        admission,
                        namespaces,
                        host_writes: HostWriteTracker::fresh(
                            daily_host_write_budget_bytes,
                            utc_day,
                            baseline_on(daily_host_write_baseline, utc_day),
                        ),
                        device_health: unobserved(device_health_policy),
                    })
                },
                Err(PolicyBuildError::Invalid(message)) => {
                    &&& daily_host_write_budget_bytes == Some(0u64)
                    &&& message@ == "daily host-write budget must be greater than zero when enabled"@
                },
                Err(PolicyBuildError::Allocation) => false,
            },
    {
        let host_writes = match HostWriteTracker::try_new(
            daily_host_write_budget_bytes,
            daily_host_write_baseline,
            utc_day,
        ) {
            Ok(host_writes) => host_writes,
            Err(error) => {
                return Err(error);
            },
        };
        let device_health = DeviceHealthTracker::new(device_health_policy);
        Ok(PolicyController { admission, namespaces, host_writes, device_health })
    }

    /// Policy state around a host-write tracker owned by a higher level driver.
    /// The caller decides whether this controller's admission and namespace
    /// policies are active; every physical write recorded through this
    /// controller is accumulated in the supplied tracker.
    pub fn try_new_with_external_host_writes(
        admission_mode: AdmissionMode,
        namespace_configs: &[NamespaceConfig],
        host_writes: HostWriteTracker,
        device_health_policy: DeviceHealthPolicy,
        now_ns: u64,
    ) -> (result: Result<PolicyController, PolicyBuildError>)
        ensures
            match result {
                Ok(controller) => {
                    &&& controller.is_fresh(admission_mode, namespace_configs@, device_health_policy, now_ns)
                    &&& controller.host_writes == host_writes
                },
                Err(PolicyBuildError::Allocation) => true,
                Err(PolicyBuildError::Invalid(message)) => !configs_valid(namespace_configs@) && refuses_configs(
                    namespace_configs@,
                    message@,
                ),
            },
    {
        let admission = match AdmissionPolicy::try_new(admission_mode) {
            Ok(admission) => admission,
            Err(error) => {
                return Err(error);
            },
        };
        let namespaces = match NamespaceController::try_new(namespace_configs, now_ns) {
            Ok(namespaces) => namespaces,
            Err(error) => {
                return Err(error);
            },
        };
        let device_health = DeviceHealthTracker::new(device_health_policy);
        Ok(PolicyController { admission, namespaces, host_writes, device_health })
    }

    /// The admission policy.
    pub fn admission(&self) -> (admission: &AdmissionPolicy)
        ensures
            *admission == self.admission,
    {
        &self.admission
    }

    /// The namespace accounting.
    pub fn namespaces(&self) -> (namespaces: &NamespaceController)
        ensures
            *namespaces == self.namespaces,
    {
        &self.namespaces
    }

    /// The host-write accounting.
    pub fn host_writes(&self) -> (host_writes: &HostWriteTracker)
        ensures
            *host_writes == self.host_writes,
    {
        &self.host_writes
    }

    /// Takes in a health sample.
    pub fn observe_nvme_health(&mut self, sample: NvmeHealthSample) -> (stats: NvmeHealthStats)
        ensures
            stats == old(self).device_health.judged(sample),
            final(self).device_health == old(self).device_health.after(sample),
            final(self).admission == old(self).admission,
            final(self).namespaces == old(self).namespaces,
            final(self).host_writes == old(self).host_writes,
    {
        self.device_health.observe(sample)
    }

    /// The latest health sample and what it means.
    pub fn nvme_health(&self) -> (stats: Option<NvmeHealthStats>)
        ensures
            stats == self.device_health.latest,
    {
        self.device_health.latest()
    }

    /// Whether puts are turned away for the device's health.
    pub fn should_reject_put(&self) -> (reject: bool)
        ensures
            reject == self.device_health.rejects_puts(),
    {
        self.device_health.should_reject_put()
    }
}

// ---------------------------------------------------------------------------
// Laws
// ---------------------------------------------------------------------------

/// A namespace that is only named has no limits.
pub proof fn law_named_namespace_is_unlimited(namespace: NamespaceId)
    ensures
        NamespaceConfig::unlimited(namespace).id() == namespace,
        NamespaceConfig::unlimited(namespace).capacity() is None,
        NamespaceConfig::unlimited(namespace).write_budget() is None,
{
}

/// A released reservation leaves the accounting as if it had never been made.
pub proof fn law_release_undoes_reservation(
    before: Seq<NamespaceRuntime>,
    namespace: NamespaceId,
    new_live_bytes: u64,
    previous_live_bytes: u64,
    after: Seq<NamespaceRuntime>,
    reservation: NamespaceCapacityReservation,
)
    requires
        before.len() <= MAX_NAMESPACE_CONFIGS,
        reserve_outcome(before, namespace, new_live_bytes, previous_live_bytes, after, Ok(reservation)),
    ensures
        released(after, reservation) == before,
{
    let index = position_of(before, namespace)->0;
    assert(released(after, reservation) =~= before);
}

/// No granted reservation takes a namespace's live and reserved bytes over its
/// configured capacity.
pub proof fn law_capacity_is_never_exceeded(
    before: Seq<NamespaceRuntime>,
    namespace: NamespaceId,
    new_live_bytes: u64,
    previous_live_bytes: u64,
    after: Seq<NamespaceRuntime>,
    reservation: NamespaceCapacityReservation,
)
    requires
        before.len() <= MAX_NAMESPACE_CONFIGS,
        reserve_outcome(before, namespace, new_live_bytes, previous_live_bytes, after, Ok(reservation)),
    ensures
        after[reservation.index as int].namespace == namespace,
        after[reservation.index as int].capacity_bytes matches Some(capacity) ==> after[reservation.index as int].live_bytes
            + after[reservation.index as int].reserved_bytes <= capacity,
{
}

/// Publishing a reserved value that replaces nothing turns its reserved bytes
/// into live bytes: the namespace's total is what it was when reserved.
pub proof fn law_publication_moves_reserved_to_live(
    before: Seq<NamespaceRuntime>,
    namespace: NamespaceId,
    new_live_bytes: u64,
    after: Seq<NamespaceRuntime>,
    reservation: NamespaceCapacityReservation,
)
    requires
        before.len() <= MAX_NAMESPACE_CONFIGS,
        reserve_outcome(before, namespace, new_live_bytes, 0, after, Ok(reservation)),
    ensures
        commits_exactly(after, reservation.index as int, new_live_bytes, reservation.reserved_bytes, None),
        committed(after, reservation.index as int, new_live_bytes, reservation.reserved_bytes, None) == before.update(
            reservation.index as int,
            NamespaceRuntime {
                live_bytes: (before[reservation.index as int].live_bytes + new_live_bytes) as u64,
                ..before[reservation.index as int]
            },
        ),
{
    assert(committed(after, reservation.index as int, new_live_bytes, reservation.reserved_bytes, None) =~= before.update(
        reservation.index as int,
        NamespaceRuntime {
            live_bytes: (before[reservation.index as int].live_bytes + new_live_bytes) as u64,
            ..before[reservation.index as int]
        },
    ));
}

/// A token bucket never offers more than one second's rate, whenever it is
/// looked at.
pub proof fn law_bucket_never_exceeds_rate(bucket: TokenBucket, now_ns: u64)
    requires
        bucket.wf(),
    ensures
        bucket.refilled(now_ns).available <= bucket.rate,
        bucket.refilled(now_ns).rate == bucket.rate,
{
}

/// An update of an established key is always admitted.
pub proof fn law_updates_are_always_admitted(model: AdmissionModel, hash: u64, object_bytes: usize)
    ensures
        model.admits(hash, object_bytes, true),
{
}

/// Second-hit admission: a put that is no update comes in exactly if the counter
/// of its hash, this put included, has reached two, or three for an object of
/// more than 1 MiB. The counter that decays next is halved first. Without that
/// mode, and for an update, the count makes no difference.
pub proof fn law_second_hit_admission(model: AdmissionModel, hash: u64, object_bytes: usize, is_update: bool)
    requires
        model.counters.len() == 65_536,
        0 <= model.decay_cursor < 65_536,
    ensures
        ({
            let place = counter_of(hash);
            let after = model.considered(hash, object_bytes, is_update);
            let stored = model.counters[place] as int;
            let before = if place == model.decay_cursor { stored / 2 } else { stored };
            let needed = if object_bytes > 1_048_576 { 3int } else { 2int };
            &&& 0 <= place < 65_536
            &&& after.counters[place] == if before == 255 { 255 } else { before + 1 }
            &&& model.mode == AdmissionMode::SecondHit && !is_update ==> (model.admits(hash, object_bytes, is_update) <==> after.counters[place]
                >= needed)
            &&& model.mode == AdmissionMode::Always || is_update ==> model.admits(hash, object_bytes, is_update)
            &&& model.observed(hash).counters == after.counters
            &&& model.observed_count(hash) == after.counters[place]
        }),
{
}

/// The first put of a hash whose counter stands at zero is turned away whatever
/// its size; the next one of an ordinary object comes in, unless the counter
/// decayed in between, and for a larger one the third.
pub proof fn law_repeated_puts_come_in(model: AdmissionModel, hash: u64, small: usize, large: usize)
    requires
        model.mode == AdmissionMode::SecondHit,
        model.counters.len() == 65_536,
        0 <= model.decay_cursor < 65_536,
        model.counters[counter_of(hash)] == 0,
        small <= 1_048_576 < large,
        model.decay_cursor + 2 < 65_536,
        counter_of(hash) != model.decay_cursor + 1,
        counter_of(hash) != model.decay_cursor + 2,
    ensures
        !model.admits(hash, small, false),
        !model.admits(hash, large, false),
        model.observed(hash).admits(hash, small, false),
        !model.observed(hash).admits(hash, large, false),
        model.observed(hash).observed(hash).admits(hash, large, false),
{
    let once = model.observed(hash);
    assert(once.decay_cursor == model.decay_cursor + 1);
    assert(once.counters[counter_of(hash)] == 1);
    let twice = once.observed(hash);
    assert(twice.decay_cursor == model.decay_cursor + 2);
    assert(twice.counters[counter_of(hash)] == 2);
}

/// A put or an observation changes the counter of its hash and the one that
/// decays, and no other; the decay goes round the counters one by one.
pub proof fn law_observation_touches_two_counters(model: AdmissionModel, hash: u64, object_bytes: usize, is_update: bool, other: int)
    requires
        model.counters.len() == 65_536,
        0 <= model.decay_cursor < 65_536,
        0 <= other < 65_536,
        other != counter_of(hash),
    ensures
        ({
            let after = model.considered(hash, object_bytes, is_update);
            &&& other != model.decay_cursor ==> after.counters[other] == model.counters[other]
            &&& other == model.decay_cursor ==> after.counters[other] == model.counters[other] as int / 2
            &&& after.counters.len() == 65_536
            &&& after.decay_cursor == if model.decay_cursor == 65_535 { 0 } else { model.decay_cursor + 1 }
            &&& after.mode == model.mode
        }),
{
}

/// Every put is counted as observed and as either admitted or rejected; a
/// rejected one of more than 1 MiB is also counted as large.
pub proof fn law_admission_totals(model: AdmissionModel, hash: u64, object_bytes: usize, is_update: bool)
    requires
        model.totals.observations < u64::MAX,
        model.totals.admitted < u64::MAX,
        model.totals.rejected < u64::MAX,
        model.totals.large_object_rejected < u64::MAX,
    ensures
        ({
            let after = model.considered(hash, object_bytes, is_update).totals;
            let admitted = model.admits(hash, object_bytes, is_update);
            &&& after.observations == model.totals.observations + 1
            &&& after.admitted == model.totals.admitted + if admitted { 1int } else { 0int }
            &&& after.admitted + after.rejected == model.totals.admitted + model.totals.rejected + 1
            &&& after.large_object_rejected == model.totals.large_object_rejected + if !admitted && object_bytes > 1_048_576 {
                1int
            } else {
                0int
            }
        }),
{
}

/// A new policy has counted nothing.
pub proof fn law_new_policy_has_seen_nothing(mode: AdmissionMode, hash: u64, object_bytes: usize)
    ensures
        AdmissionModel::fresh(mode).mode == mode,
        AdmissionModel::fresh(mode).counters.len() == 65_536,
        AdmissionModel::fresh(mode).admits(hash, object_bytes, false) <==> mode == AdmissionMode::Always,
{
}

/// Different hashes are mixed into different values: mixing can be undone.
pub proof fn law_mixing_keeps_hashes_apart(first: u64, second: u64)
    requires
        mixed_hash(first) == mixed_hash(second),
    ensures
        first == second,
{
    lemma_unmixed(first);
    lemma_unmixed(second);
}

/// Undoes the mixing of a hash.
spec fn unmixed(mixed: u64) -> u64 {
    let first = (mixed ^ (mixed >> 33)).wrapping_mul(0x9cb4_b2f8_1293_37db);
    let second = (first ^ (first >> 33)).wrapping_mul(0x4f74_430c_22a5_4005);
    second ^ (second >> 33)
}

proof fn lemma_folded(value: u64)
    ensures
        (value ^ (value >> 33)) ^ ((value ^ (value >> 33)) >> 33) == value,
{
    assert((value ^ (value >> 33)) ^ ((value ^ (value >> 33)) >> 33) == value) by (bit_vector);
}

proof fn lemma_scaled_back(value: u64, factor: u64, inverse: u64)
    requires
        (factor * inverse) % 0x1_0000_0000_0000_0000 == 1,
    ensures
        value.wrapping_mul(factor).wrapping_mul(inverse) == value,
{
    let modulus = 0x1_0000_0000_0000_0000int;
    let product = value * factor;
    assert(value.wrapping_mul(factor) as int == product % modulus);
    vstd::arithmetic::div_mod::lemma_mul_mod_noop_left(product, inverse as int, modulus);
    assert(product * inverse == value * (factor * inverse)) by (nonlinear_arith)
        requires
            product == value * factor,
    ;
    vstd::arithmetic::div_mod::lemma_mul_mod_noop_right(value as int, factor * inverse, modulus);
    vstd::arithmetic::div_mod::lemma_small_mod(value as nat, modulus as nat);
    assert(value * 1 == value);
}

proof fn lemma_unmixed(hash: u64)
    ensures
        unmixed(mixed_hash(hash)) == hash,
{
    let first = (hash ^ (hash >> 33)).wrapping_mul(0xff51_afd7_ed55_8ccd);
    let second = (first ^ (first >> 33)).wrapping_mul(0xc4ce_b9fe_1a85_ec53);
    lemma_folded(second);
    assert((0xc4ce_b9fe_1a85_ec53int * 0x9cb4_b2f8_1293_37dbint) % 0x1_0000_0000_0000_0000int == 1);
    assert((0xff51_afd7_ed55_8ccdint * 0x4f74_430c_22a5_4005int) % 0x1_0000_0000_0000_0000int == 1);
    lemma_scaled_back(first ^ (first >> 33), 0xc4ce_b9fe_1a85_ec53, 0x9cb4_b2f8_1293_37db);
    lemma_folded(first);
    lemma_scaled_back(hash ^ (hash >> 33), 0xff51_afd7_ed55_8ccd, 0x4f74_430c_22a5_4005);
    lemma_folded(hash);
}

/// A budget fills up at its rate: never beyond what a second brings, to the full
/// after a second, by nothing without time, and a clock that goes back brings
/// nothing either.
pub proof fn law_budget_fills_at_its_rate(bucket: TokenBucket, now_ns: u64)
    requires
        bucket.wf(),
    ensures
        ({
            let filled = bucket.refilled(now_ns);
            &&& filled.wf()
            &&& filled.last_refill_ns == now_ns
            &&& bucket.available <= filled.available <= bucket.rate
            &&& now_ns <= bucket.last_refill_ns ==> filled.available == bucket.available
            &&& now_ns >= bucket.last_refill_ns + 1_000_000_000 ==> filled.available == bucket.rate
            &&& now_ns >= bucket.last_refill_ns && filled.available < bucket.rate ==> (filled.available - bucket.available)
                * 1_000_000_000 + filled.fractional_nano_bytes == (now_ns - bucket.last_refill_ns) * bucket.rate
                + bucket.fractional_nano_bytes
        }),
{
    let elapsed = if now_ns > bucket.last_refill_ns { now_ns - bucket.last_refill_ns } else { 0 };
    let generated = bucket.generated(now_ns);
    assert(elapsed * bucket.rate >= 0) by (nonlinear_arith)
        requires
            elapsed >= 0,
            bucket.rate >= 0,
    ;
    if elapsed == 0 {
        assert(elapsed * bucket.rate == 0) by (nonlinear_arith)
            requires
                elapsed == 0,
        ;
    }
    if elapsed >= 1_000_000_000 {
        assert(elapsed * bucket.rate >= 1_000_000_000 * bucket.rate) by (nonlinear_arith)
            requires
                elapsed >= 1_000_000_000,
                bucket.rate >= 0,
        ;
    }
}

/// Looking at a budget in between makes no difference to what it has later,
/// unless it was full in between.
pub proof fn law_budget_does_not_mind_being_looked_at(bucket: TokenBucket, between_ns: u64, now_ns: u64)
    requires
        bucket.wf(),
        bucket.last_refill_ns <= between_ns <= now_ns,
        bucket.refilled(between_ns).available < bucket.rate,
    ensures
        bucket.refilled(between_ns).refilled(now_ns) == bucket.refilled(now_ns),
{
    let middle = bucket.refilled(between_ns);
    law_budget_fills_at_its_rate(bucket, between_ns);
    let first = (between_ns - bucket.last_refill_ns) * bucket.rate;
    let second = (now_ns - between_ns) * bucket.rate;
    assert((now_ns - bucket.last_refill_ns) * bucket.rate == first + second) by (nonlinear_arith)
        requires
            first == (between_ns - bucket.last_refill_ns) * bucket.rate,
            second == (now_ns - between_ns) * bucket.rate,
    ;
    if now_ns == between_ns {
        assert(second == 0) by (nonlinear_arith)
            requires
                second == (now_ns - between_ns) * bucket.rate,
                now_ns == between_ns,
        ;
    }
    if between_ns == bucket.last_refill_ns {
        assert(first == 0) by (nonlinear_arith)
            requires
                first == (between_ns - bucket.last_refill_ns) * bucket.rate,
                between_ns == bucket.last_refill_ns,
        ;
    }
    assert(second >= 0) by (nonlinear_arith)
        requires
            second == (now_ns - between_ns) * bucket.rate,
            between_ns <= now_ns,
    ;
    assert(middle.generated(now_ns) == second + middle.fractional_nano_bytes);
    assert(bucket.generated(now_ns) == first + second + bucket.fractional_nano_bytes);
}

/// A namespace is known exactly if the table has it, a reservation is granted
/// exactly if live, reserved and newly reserved bytes fit its capacity together,
/// and a replaced value of the same key counts toward the new one as far as it
/// is live.
pub proof fn law_reservation_is_granted_if_it_fits(
    before: Seq<NamespaceRuntime>,
    index: int,
    new_live_bytes: u64,
    previous_live_bytes: u64,
    after: Seq<NamespaceRuntime>,
    result: Result<NamespaceCapacityReservation, NamespaceRejectReason>,
)
    requires
        sorted_strictly(before),
        before.len() <= usize::MAX,
        0 <= index < before.len(),
        reserve_outcome(before, before[index].namespace, new_live_bytes, previous_live_bytes, after, result),
    ensures
        ({
            let runtime = before[index];
            let credit = if previous_live_bytes < runtime.live_bytes { previous_live_bytes } else { runtime.live_bytes };
            let wanted = if new_live_bytes > credit { new_live_bytes - credit } else { 0 };
            let total = runtime.live_bytes + runtime.reserved_bytes + wanted;
            let fits = total <= u64::MAX && (runtime.capacity_bytes is None || total <= runtime.capacity_bytes->0);
            &&& result is Ok <==> fits
            &&& result matches Ok(reservation) ==> {
                &&& reservation.index == index
                &&& reservation.new_live_bytes == new_live_bytes
                &&& reservation.reserved_bytes == wanted
                &&& after[index].reserved_bytes == runtime.reserved_bytes + wanted
            }
            &&& result matches Err(reason) ==> {
                &&& reason == NamespaceRejectReason::CapacityExceeded
                &&& after[index].reserved_bytes == runtime.reserved_bytes
                &&& runtime.capacity_rejections < u64::MAX ==> after[index].capacity_rejections == runtime.capacity_rejections + 1
            }
            &&& after.len() == before.len()
            &&& after[index].live_bytes == runtime.live_bytes
            &&& forall|k: int| 0 <= k < before.len() && k != index ==> after[k] == before[k]
        }),
{
    lemma_position(before, before[index].namespace, index);
}

/// A namespace that no entry of the table has is unknown.
pub proof fn law_unlisted_namespace_is_unknown(
    before: Seq<NamespaceRuntime>,
    namespace: NamespaceId,
    new_live_bytes: u64,
    previous_live_bytes: u64,
    after: Seq<NamespaceRuntime>,
    result: Result<NamespaceCapacityReservation, NamespaceRejectReason>,
)
    requires
        forall|k: int| 0 <= k < before.len() ==> (#[trigger] before[k]).namespace != namespace,
        reserve_outcome(before, namespace, new_live_bytes, previous_live_bytes, after, result),
    ensures
        result == Err::<NamespaceCapacityReservation, NamespaceRejectReason>(NamespaceRejectReason::UnknownNamespace),
        after == before,
{
}

/// A commit that the books cover moves bytes and makes none: what was reserved
/// is given up, the new value is live in its namespace, the previous one no
/// longer in its own, and nothing else has changed.
pub proof fn law_commit_moves_bytes_between_namespaces(
    before: Seq<NamespaceRuntime>,
    index: int,
    new_live_bytes: u64,
    reserved_bytes: u64,
    old_index: int,
    previous_bytes: u64,
    k: int,
)
    requires
        sorted_strictly(before),
        0 <= index < before.len(),
        0 <= old_index < before.len(),
        0 <= k < before.len(),
        reserved_bytes <= before[index].reserved_bytes,
        previous_bytes <= before[old_index].live_bytes,
        before[index].live_bytes - (if old_index == index { previous_bytes as int } else { 0int }) + new_live_bytes <= u64::MAX,
    ensures
        ({
            let previous = Some(NamespaceUsage { namespace: before[old_index].namespace, live_bytes: previous_bytes });
            let after = committed(before, index, new_live_bytes, reserved_bytes, previous);
            &&& commits_exactly(before, index, new_live_bytes, reserved_bytes, previous)
            &&& after.len() == before.len()
            &&& after[k].live_bytes == before[k].live_bytes + (if k == index { new_live_bytes as int } else { 0int })
                - (if k == old_index { previous_bytes as int } else { 0int })
            &&& after[k].reserved_bytes == before[k].reserved_bytes - (if k == index { reserved_bytes as int } else { 0int })
            &&& after[k] == (NamespaceRuntime {
                live_bytes: after[k].live_bytes,
                reserved_bytes: after[k].reserved_bytes,
                ..before[k]
            })
        }),
{
    lemma_position(before, before[old_index].namespace, old_index);
}

/// The same without a previous value.
pub proof fn law_commit_of_a_new_value(before: Seq<NamespaceRuntime>, index: int, new_live_bytes: u64, reserved_bytes: u64, k: int)
    requires
        0 <= index < before.len(),
        0 <= k < before.len(),
        reserved_bytes <= before[index].reserved_bytes,
        before[index].live_bytes + new_live_bytes <= u64::MAX,
    ensures
        ({
            let after = committed(before, index, new_live_bytes, reserved_bytes, None);
            &&& commits_exactly(before, index, new_live_bytes, reserved_bytes, None)
            &&& after.len() == before.len()
            &&& after[k] == if k == index {
                NamespaceRuntime {
                    live_bytes: (before[k].live_bytes + new_live_bytes) as u64,
                    reserved_bytes: (before[k].reserved_bytes - reserved_bytes) as u64,
                    ..before[k]
                }
            } else {
                before[k]
            }
        }),
{
}

/// A commit is exact only if the books cover it: neither the reservation nor the
/// previous value exceeds what is there, and the sum fits.
pub proof fn law_exact_commit_is_covered(
    before: Seq<NamespaceRuntime>,
    index: int,
    new_live_bytes: u64,
    reserved_bytes: u64,
    old_index: int,
    previous_bytes: u64,
)
    requires
        sorted_strictly(before),
        0 <= index < before.len(),
        0 <= old_index < before.len(),
        commits_exactly(
            before,
            index,
            new_live_bytes,
            reserved_bytes,
            Some(NamespaceUsage { namespace: before[old_index].namespace, live_bytes: previous_bytes }),
        ),
    ensures
        reserved_bytes <= before[index].reserved_bytes,
        previous_bytes <= before[old_index].live_bytes,
        before[index].live_bytes - (if old_index == index { previous_bytes as int } else { 0int }) + new_live_bytes <= u64::MAX,
{
    lemma_position(before, before[old_index].namespace, old_index);
}

/// A list of namespaces is accepted exactly if it has at most 1024 of them, the
/// default one included, each identifier once, and no limit of zero.
pub proof fn law_accepted_configurations(configs: Seq<NamespaceConfig>)
    ensures
        ({
            let named = exists|k: int| 0 <= k < configs.len() && (#[trigger] configs[k]).id() == 0;
            let total = configs.len() + if named { 0int } else { 1int };
            let apart = forall|j: int, k: int|
                0 <= j < configs.len() && 0 <= k < configs.len() && j != k ==> (#[trigger] configs[j]).id() != (#[trigger] configs[k]).id();
            let positive = forall|k: int|
                0 <= k < configs.len() ==> (#[trigger] configs[k]).capacity() != Some(0u64) && configs[k].write_budget() != Some(0u64);
            configs_valid(configs) <==> total <= 1024 && apart && positive
        }),
{
    if has_duplicates(configs) {
        let (j, k) = choose|j: int, k: int| 0 <= j < k < configs.len() && (#[trigger] configs[j]).id() == (#[trigger] configs[k]).id();
        assert(configs[j].id() == configs[k].id());
    }
    if configs_valid(configs) {
        assert forall|k: int| 0 <= k < configs.len() implies (#[trigger] configs[k]).capacity() != Some(0u64) && configs[k].write_budget()
            != Some(0u64) by {
            assert(config_error(configs[k]) is None);
        }
        assert forall|j: int, k: int| 0 <= j < configs.len() && 0 <= k < configs.len() && j != k implies (#[trigger] configs[j]).id()
            != (#[trigger] configs[k]).id() by {
            if configs[j].id() == configs[k].id() {
                if j < k {
                    assert(configs[j].id() == configs[k].id());
                } else {
                    assert(configs[k].id() == configs[j].id());
                }
                assert(has_duplicates(configs));
            }
        }
    }
}

/// Every configured namespace, and the default one, starts with its limits,
/// without live or reserved bytes, and with a full write budget.
pub proof fn law_new_namespaces_start_empty(runtimes: Seq<NamespaceRuntime>, configs: Seq<NamespaceConfig>, now_ns: u64, k: int)
    requires
        covers(runtimes, effective(configs), now_ns),
        0 <= k < configs.len(),
    ensures
        exists|r: int|
            {
                &&& 0 <= r < runtimes.len()
                &&& (#[trigger] runtimes[r]).namespace == configs[k].id()
                &&& runtimes[r].capacity_bytes == configs[k].capacity()
                &&& runtimes[r].live_bytes == 0
                &&& runtimes[r].reserved_bytes == 0
                &&& (runtimes[r].write_budget is Some <==> configs[k].write_budget() is Some)
                &&& runtimes[r].write_budget matches Some(bucket) ==> {
                    &&& Some(bucket.rate) == configs[k].write_budget()
                    &&& bucket.available == bucket.rate
                    &&& bucket.last_refill_ns == now_ns
                }
            },
        exists|r: int| 0 <= r < runtimes.len() && (#[trigger] runtimes[r]).namespace == 0,
{
    let all = effective(configs);
    let at = if has_default(configs) { k } else { k + 1 };
    assert(all[at] == configs[k]);
    let fresh = NamespaceRuntime::fresh(all[at], now_ns);
    assert(runtimes.contains(fresh));
    let r = runtimes.index_of(fresh);
    assert(runtimes[r] == fresh);
    if has_default(configs) {
        let d = choose|d: int| 0 <= d < configs.len() && (#[trigger] configs[d]).id() == 0;
        let default = NamespaceRuntime::fresh(all[d], now_ns);
        assert(runtimes.contains(default));
        assert(runtimes[runtimes.index_of(default)].namespace == 0);
    } else {
        let default = NamespaceRuntime::fresh(all[0], now_ns);
        law_named_namespace_is_unlimited(0);
        assert(runtimes.contains(default));
        assert(runtimes[runtimes.index_of(default)].namespace == 0);
    }
}

/// A snapshot shows the accounting as it stands, with the write budget as filled
/// by then.
pub proof fn law_snapshot_shows_the_accounting(runtime: NamespaceRuntime, now_ns: u64)
    ensures
        ({
            let shown = runtime.snapshot_at(now_ns);
            &&& shown.namespace == runtime.namespace
            &&& shown.capacity_bytes == runtime.capacity_bytes
            &&& shown.live_bytes == runtime.live_bytes
            &&& shown.reserved_bytes == runtime.reserved_bytes
            &&& shown.capacity_rejections == runtime.capacity_rejections
            &&& shown.write_budget_rejections == runtime.write_budget_rejections
            &&& (shown.write_budget_bytes_per_second is Some <==> runtime.write_budget is Some)
            &&& (shown.write_budget_available_bytes is Some <==> runtime.write_budget is Some)
            &&& runtime.write_budget matches Some(bucket) ==> {
                &&& shown.write_budget_bytes_per_second == Some(bucket.rate)
                &&& shown.write_budget_available_bytes == Some(bucket.refilled(now_ns).available)
            }
            &&& runtime.refilled(now_ns) == (NamespaceRuntime { write_budget: runtime.refilled(now_ns).write_budget, ..runtime })
        }),
{
}

/// What was written before counts only on its own day; a device is unobserved
/// until its first sample.
pub proof fn law_baselines(day: u64, bytes: u64, utc_day: u64, policy: DeviceHealthPolicy)
    ensures
        baseline_on(None, utc_day) == 0,
        day == utc_day ==> baseline_on(Some((day, bytes)), utc_day) == bytes,
        day != utc_day ==> baseline_on(Some((day, bytes)), utc_day) == 0,
        unobserved(policy).policy == policy && unobserved(policy).latest is None && unobserved(policy).observations == 0
            && !unobserved(policy).media_error_growth_observed,
{
}

/// Bytes are taken out exactly if as many have gathered; then as many fewer are
/// left. Putting them back at once leaves the budget as if nothing had been
/// taken, and putting back never goes over one second's worth.
pub proof fn law_charges_can_be_refunded(bucket: TokenBucket, bytes: u64, now_ns: u64)
    requires
        bucket.wf(),
    ensures
        ({
            let gathered = bucket.refilled(now_ns);
            let (granted, after) = bucket.charged(bytes, now_ns);
            &&& granted <==> gathered.available >= bytes
            &&& granted ==> after.available + bytes == gathered.available
            &&& !granted ==> after == gathered
            &&& after.rate == bucket.rate && after.last_refill_ns == now_ns
            &&& after.fractional_nano_bytes == gathered.fractional_nano_bytes
            &&& granted && bytes > 0 ==> after.refunded(bytes, now_ns).available == gathered.available
            &&& bucket.refunded(bytes, now_ns).available <= bucket.rate
            &&& gathered.available + bytes <= bucket.rate ==> bucket.refunded(bytes, now_ns).available == gathered.available + bytes
            &&& gathered.available + bytes > bucket.rate ==> bucket.refunded(bytes, now_ns).available == bucket.rate
            &&& bucket.refunded(bytes, now_ns).rate == bucket.rate
        }),
{
    law_budget_fills_at_its_rate(bucket, now_ns);
    let (granted, after) = bucket.charged(bytes, now_ns);
    law_budget_fills_at_its_rate(after, now_ns);
}

/// A namespace's write is turned away exactly if it has a budget that does not
/// cover it; one without a budget is always granted. Only its own namespace
/// changes, and of that only the budget, or the count of rejections beside it.
pub proof fn law_write_reservations(
    before: Seq<NamespaceRuntime>,
    index: int,
    encoded_bytes: u64,
    now_ns: u64,
    after: Seq<NamespaceRuntime>,
    result: Result<NamespaceWriteReservation, NamespaceRejectReason>,
)
    requires
        sorted_strictly(before),
        before.len() <= usize::MAX,
        0 <= index < before.len(),
        write_outcome(before, before[index].namespace, encoded_bytes, now_ns, after, result),
    ensures
        ({
            let covered = before[index].write_budget matches Some(bucket) ==> bucket.refilled(now_ns).available >= encoded_bytes;
            &&& result is Ok <==> covered
            &&& result matches Ok(reservation) ==> reservation.index == index && reservation.encoded_bytes == encoded_bytes
            &&& result matches Err(reason) ==> reason == NamespaceRejectReason::WriteBudgetExceeded
            &&& after.len() == before.len()
            &&& forall|k: int| 0 <= k < before.len() && k != index ==> after[k] == before[k]
            &&& after[index].live_bytes == before[index].live_bytes && after[index].reserved_bytes == before[index].reserved_bytes
            &&& after[index].namespace == before[index].namespace && after[index].capacity_bytes == before[index].capacity_bytes
            &&& after[index].capacity_rejections == before[index].capacity_rejections
            &&& result is Ok ==> after[index].write_budget_rejections == before[index].write_budget_rejections
            &&& result is Err && before[index].write_budget_rejections < u64::MAX ==> after[index].write_budget_rejections
                == before[index].write_budget_rejections + 1
            &&& before[index].write_budget matches Some(bucket) ==> (after[index].write_budget matches Some(left)
                && left.available == bucket.refilled(now_ns).available - (if covered { encoded_bytes as int } else { 0int }))
            &&& before[index].write_budget is None ==> after[index].write_budget is None
        }),
{
    lemma_position(before, before[index].namespace, index);
}

/// Refunding a write puts its bytes back into the budget of its own namespace.
pub proof fn law_write_refunds(before: Seq<NamespaceRuntime>, reservation: NamespaceWriteReservation, now_ns: u64)
    requires
        reservation.index < before.len(),
    ensures
        ({
            let after = write_refunded(before, reservation, now_ns);
            let index = reservation.index as int;
            &&& after.len() == before.len()
            &&& forall|k: int| 0 <= k < before.len() && k != index ==> after[k] == before[k]
            &&& after[index].live_bytes == before[index].live_bytes && after[index].reserved_bytes == before[index].reserved_bytes
            &&& after[index].write_budget_rejections == before[index].write_budget_rejections
            &&& before[index].write_budget is None ==> after[index] == before[index]
            &&& before[index].write_budget matches Some(bucket) ==> (after[index].write_budget matches Some(left) && left.rate
                == bucket.rate && left.available == (if bucket.refilled(now_ns).available + reservation.encoded_bytes < bucket.rate {
                bucket.refilled(now_ns).available + reservation.encoded_bytes
            } else {
                bucket.rate as int
            }))
        }),
{
}

/// Rejections are added up over the namespaces.
pub proof fn law_rejections_add_up(runtimes: Seq<NamespaceRuntime>, runtime: NamespaceRuntime)
    ensures
        rejections(Seq::empty()) == (0u64, 0u64),
        ({
            let before = rejections(runtimes);
            let after = rejections(runtimes.push(runtime));
            &&& before.0 + runtime.capacity_rejections <= u64::MAX ==> after.0 == before.0 + runtime.capacity_rejections
            &&& before.1 + runtime.write_budget_rejections <= u64::MAX ==> after.1 == before.1 + runtime.write_budget_rejections
        }),
{
    assert(runtimes.push(runtime).drop_last() =~= runtimes);
}

} // verus!
