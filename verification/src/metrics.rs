//! Dependency-free production metrics for the cache.
//!
//! The engine keeps fixed-size request latency histograms and exposes an
//! OpenMetrics text snapshot. OpenTelemetry deployments can scrape the same
//! endpoint with the Collector's Prometheus receiver, avoiding an SDK and a
//! telemetry worker inside the cache process.

use vstd::prelude::*;

use crate::miss_guard::{bumped, OriginFillStats};

verus! {

/// Upper bounds of the latency buckets, in microseconds; one more bucket takes
/// what is slower.
pub const LATENCY_BUCKET_UPPER_US: [u64; 24] = [
    1, 2, 4, 8, 16, 32, 64, 128, 256, 512, 1_024, 2_048, 4_096, 8_192, 16_384, 32_768, 65_536,
    131_072, 262_144, 524_288, 1_048_576, 2_097_152, 4_194_304, 8_388_608,
];

pub const LATENCY_BUCKET_COUNT: usize = 25;

pub const OPERATION_COUNT: usize = 6;

pub const RESULT_CLASS_COUNT: usize = 12;

pub const ERROR_CLASS_COUNT: usize = 12;

/// Lifecycle transitions that are kept.
pub const STATE_HISTORY_CAPACITY: usize = 32;

#[non_exhaustive]
#[derive(Clone, Copy, Debug, PartialEq, Eq, Structural)]
pub enum CacheOperation {
    Get,
    Put,
    Remove,
    Flush,
    Clear,
    Close,
}

impl CacheOperation {
    /// Every one, in the order of their numbers.
    pub open spec fn every() -> Seq<CacheOperation> {
        seq![
            CacheOperation::Get,
            CacheOperation::Put,
            CacheOperation::Remove,
            CacheOperation::Flush,
            CacheOperation::Clear,
            CacheOperation::Close,
        ]
    }

    /// Every one, in the order of their numbers.
    pub fn all() -> (all: [CacheOperation; 6])
        ensures
            all@ == CacheOperation::every(),
    {
        let all = [
            CacheOperation::Get,
            CacheOperation::Put,
            CacheOperation::Remove,
            CacheOperation::Flush,
            CacheOperation::Clear,
            CacheOperation::Close,
        ];
        assert(all@ =~= CacheOperation::every());
        all
    }

    /// Its number.
    pub open spec fn number(self) -> int {
        match self {
            CacheOperation::Get => 0,
            CacheOperation::Put => 1,
            CacheOperation::Remove => 2,
            CacheOperation::Flush => 3,
            CacheOperation::Clear => 4,
            CacheOperation::Close => 5,
        }
    }

    /// Its number.
    pub fn index(self) -> (index: usize)
        ensures
            index == self.number(),
            index < 6,
    {
        match self {
            CacheOperation::Get => 0,
            CacheOperation::Put => 1,
            CacheOperation::Remove => 2,
            CacheOperation::Flush => 3,
            CacheOperation::Clear => 4,
            CacheOperation::Close => 5,
        }
    }

    /// Its name.
    pub open spec fn text(self) -> Seq<char> {
        match self {
            CacheOperation::Get => "get"@,
            CacheOperation::Put => "put"@,
            CacheOperation::Remove => "remove"@,
            CacheOperation::Flush => "flush"@,
            CacheOperation::Clear => "clear"@,
            CacheOperation::Close => "close"@,
        }
    }

    /// Its name.
    pub fn as_str(self) -> (name: &'static str)
        ensures
            name@ == self.text(),
    {
        match self {
            CacheOperation::Get => "get",
            CacheOperation::Put => "put",
            CacheOperation::Remove => "remove",
            CacheOperation::Flush => "flush",
            CacheOperation::Clear => "clear",
            CacheOperation::Close => "close",
        }
    }
}

/// Stable, low-cardinality classification for public API errors.
#[non_exhaustive]
#[derive(Clone, Copy, Debug, PartialEq, Eq, Structural)]
pub enum CacheErrorClass {
    InvalidConfig,
    Locked,
    CorruptMetadata,
    NoSpace,
    Permission,
    DeviceIo,
    Overloaded,
    ReclaimBacklog,
    TimedOut,
    Cancelled,
    Poisoned,
    Closed,
}

impl CacheErrorClass {
    /// Every one, in the order of their numbers.
    pub open spec fn every() -> Seq<CacheErrorClass> {
        seq![
            CacheErrorClass::InvalidConfig,
            CacheErrorClass::Locked,
            CacheErrorClass::CorruptMetadata,
            CacheErrorClass::NoSpace,
            CacheErrorClass::Permission,
            CacheErrorClass::DeviceIo,
            CacheErrorClass::Overloaded,
            CacheErrorClass::ReclaimBacklog,
            CacheErrorClass::TimedOut,
            CacheErrorClass::Cancelled,
            CacheErrorClass::Poisoned,
            CacheErrorClass::Closed,
        ]
    }

    /// Every one, in the order of their numbers.
    pub fn all() -> (all: [CacheErrorClass; 12])
        ensures
            all@ == CacheErrorClass::every(),
    {
        let all = [
            CacheErrorClass::InvalidConfig,
            CacheErrorClass::Locked,
            CacheErrorClass::CorruptMetadata,
            CacheErrorClass::NoSpace,
            CacheErrorClass::Permission,
            CacheErrorClass::DeviceIo,
            CacheErrorClass::Overloaded,
            CacheErrorClass::ReclaimBacklog,
            CacheErrorClass::TimedOut,
            CacheErrorClass::Cancelled,
            CacheErrorClass::Poisoned,
            CacheErrorClass::Closed,
        ];
        assert(all@ =~= CacheErrorClass::every());
        all
    }

    /// Its number.
    pub open spec fn number(self) -> int {
        match self {
            CacheErrorClass::InvalidConfig => 0,
            CacheErrorClass::Locked => 1,
            CacheErrorClass::CorruptMetadata => 2,
            CacheErrorClass::NoSpace => 3,
            CacheErrorClass::Permission => 4,
            CacheErrorClass::DeviceIo => 5,
            CacheErrorClass::Overloaded => 6,
            CacheErrorClass::ReclaimBacklog => 7,
            CacheErrorClass::TimedOut => 8,
            CacheErrorClass::Cancelled => 9,
            CacheErrorClass::Poisoned => 10,
            CacheErrorClass::Closed => 11,
        }
    }

    /// Its number.
    pub fn index(self) -> (index: usize)
        ensures
            index == self.number(),
            index < 12,
    {
        match self {
            CacheErrorClass::InvalidConfig => 0,
            CacheErrorClass::Locked => 1,
            CacheErrorClass::CorruptMetadata => 2,
            CacheErrorClass::NoSpace => 3,
            CacheErrorClass::Permission => 4,
            CacheErrorClass::DeviceIo => 5,
            CacheErrorClass::Overloaded => 6,
            CacheErrorClass::ReclaimBacklog => 7,
            CacheErrorClass::TimedOut => 8,
            CacheErrorClass::Cancelled => 9,
            CacheErrorClass::Poisoned => 10,
            CacheErrorClass::Closed => 11,
        }
    }

    /// Its name.
    pub open spec fn text(self) -> Seq<char> {
        match self {
            CacheErrorClass::InvalidConfig => "invalid_config"@,
            CacheErrorClass::Locked => "locked"@,
            CacheErrorClass::CorruptMetadata => "corrupt_metadata"@,
            CacheErrorClass::NoSpace => "no_space"@,
            CacheErrorClass::Permission => "permission"@,
            CacheErrorClass::DeviceIo => "device_io"@,
            CacheErrorClass::Overloaded => "overloaded"@,
            CacheErrorClass::ReclaimBacklog => "reclaim_backlog"@,
            CacheErrorClass::TimedOut => "timed_out"@,
            CacheErrorClass::Cancelled => "cancelled"@,
            CacheErrorClass::Poisoned => "poisoned"@,
            CacheErrorClass::Closed => "closed"@,
        }
    }

    /// Its name.
    pub fn as_str(self) -> (name: &'static str)
        ensures
            name@ == self.text(),
    {
        match self {
            CacheErrorClass::InvalidConfig => "invalid_config",
            CacheErrorClass::Locked => "locked",
            CacheErrorClass::CorruptMetadata => "corrupt_metadata",
            CacheErrorClass::NoSpace => "no_space",
            CacheErrorClass::Permission => "permission",
            CacheErrorClass::DeviceIo => "device_io",
            CacheErrorClass::Overloaded => "overloaded",
            CacheErrorClass::ReclaimBacklog => "reclaim_backlog",
            CacheErrorClass::TimedOut => "timed_out",
            CacheErrorClass::Cancelled => "cancelled",
            CacheErrorClass::Poisoned => "poisoned",
            CacheErrorClass::Closed => "closed",
        }
    }
}

#[non_exhaustive]
#[derive(Clone, Copy, Debug, PartialEq, Eq, Structural)]
pub enum RequestResultClass {
    Success,
    Hit,
    Miss,
    Stored,
    Removed,
    NotFound,
    Rejected,
    IoError,
    Corrupt,
    Overloaded,
    Unavailable,
    Cancelled,
}

impl RequestResultClass {
    /// Every one, in the order of their numbers.
    pub open spec fn every() -> Seq<RequestResultClass> {
        seq![
            RequestResultClass::Success,
            RequestResultClass::Hit,
            RequestResultClass::Miss,
            RequestResultClass::Stored,
            RequestResultClass::Removed,
            RequestResultClass::NotFound,
            RequestResultClass::Rejected,
            RequestResultClass::IoError,
            RequestResultClass::Corrupt,
            RequestResultClass::Overloaded,
            RequestResultClass::Unavailable,
            RequestResultClass::Cancelled,
        ]
    }

    /// Every one, in the order of their numbers.
    pub fn all() -> (all: [RequestResultClass; 12])
        ensures
            all@ == RequestResultClass::every(),
    {
        let all = [
            RequestResultClass::Success,
            RequestResultClass::Hit,
            RequestResultClass::Miss,
            RequestResultClass::Stored,
            RequestResultClass::Removed,
            RequestResultClass::NotFound,
            RequestResultClass::Rejected,
            RequestResultClass::IoError,
            RequestResultClass::Corrupt,
            RequestResultClass::Overloaded,
            RequestResultClass::Unavailable,
            RequestResultClass::Cancelled,
        ];
        assert(all@ =~= RequestResultClass::every());
        all
    }

    /// Its number.
    pub open spec fn number(self) -> int {
        match self {
            RequestResultClass::Success => 0,
            RequestResultClass::Hit => 1,
            RequestResultClass::Miss => 2,
            RequestResultClass::Stored => 3,
            RequestResultClass::Removed => 4,
            RequestResultClass::NotFound => 5,
            RequestResultClass::Rejected => 6,
            RequestResultClass::IoError => 7,
            RequestResultClass::Corrupt => 8,
            RequestResultClass::Overloaded => 9,
            RequestResultClass::Unavailable => 10,
            RequestResultClass::Cancelled => 11,
        }
    }

    /// Its number.
    pub fn index(self) -> (index: usize)
        ensures
            index == self.number(),
            index < 12,
    {
        match self {
            RequestResultClass::Success => 0,
            RequestResultClass::Hit => 1,
            RequestResultClass::Miss => 2,
            RequestResultClass::Stored => 3,
            RequestResultClass::Removed => 4,
            RequestResultClass::NotFound => 5,
            RequestResultClass::Rejected => 6,
            RequestResultClass::IoError => 7,
            RequestResultClass::Corrupt => 8,
            RequestResultClass::Overloaded => 9,
            RequestResultClass::Unavailable => 10,
            RequestResultClass::Cancelled => 11,
        }
    }

    /// Its name.
    pub open spec fn text(self) -> Seq<char> {
        match self {
            RequestResultClass::Success => "success"@,
            RequestResultClass::Hit => "hit"@,
            RequestResultClass::Miss => "miss"@,
            RequestResultClass::Stored => "stored"@,
            RequestResultClass::Removed => "removed"@,
            RequestResultClass::NotFound => "not_found"@,
            RequestResultClass::Rejected => "rejected"@,
            RequestResultClass::IoError => "io_error"@,
            RequestResultClass::Corrupt => "corrupt"@,
            RequestResultClass::Overloaded => "overloaded"@,
            RequestResultClass::Unavailable => "unavailable"@,
            RequestResultClass::Cancelled => "cancelled"@,
        }
    }

    /// Its name.
    pub fn as_str(self) -> (name: &'static str)
        ensures
            name@ == self.text(),
    {
        match self {
            RequestResultClass::Success => "success",
            RequestResultClass::Hit => "hit",
            RequestResultClass::Miss => "miss",
            RequestResultClass::Stored => "stored",
            RequestResultClass::Removed => "removed",
            RequestResultClass::NotFound => "not_found",
            RequestResultClass::Rejected => "rejected",
            RequestResultClass::IoError => "io_error",
            RequestResultClass::Corrupt => "corrupt",
            RequestResultClass::Overloaded => "overloaded",
            RequestResultClass::Unavailable => "unavailable",
            RequestResultClass::Cancelled => "cancelled",
        }
    }
}

#[non_exhaustive]
#[derive(Clone, Copy, Debug, PartialEq, Eq, Structural)]
pub enum StateChangeReason {
    Opened,
    RecoveryCompleted,
    IoFailure,
    MetadataFailure,
    WorkerFailure,
    Closing,
}

impl StateChangeReason {
    /// Its name.
    pub open spec fn text(self) -> Seq<char> {
        match self {
            StateChangeReason::Opened => "opened"@,
            StateChangeReason::RecoveryCompleted => "recovery_completed"@,
            StateChangeReason::IoFailure => "io_failure"@,
            StateChangeReason::MetadataFailure => "metadata_failure"@,
            StateChangeReason::WorkerFailure => "worker_failure"@,
            StateChangeReason::Closing => "closing"@,
        }
    }

    /// Its name.
    pub fn as_str(self) -> (name: &'static str)
        ensures
            name@ == self.text(),
    {
        match self {
            StateChangeReason::Opened => "opened",
            StateChangeReason::RecoveryCompleted => "recovery_completed",
            StateChangeReason::IoFailure => "io_failure",
            StateChangeReason::MetadataFailure => "metadata_failure",
            StateChangeReason::WorkerFailure => "worker_failure",
            StateChangeReason::Closing => "closing",
        }
    }
}

/// Lifecycle state of a cache.
#[derive(Clone, Copy, Debug, PartialEq, Eq, Structural)]
pub enum CacheStatus {
    Healthy,
    MissOnly,
    Poisoned,
    Closed,
}

impl CacheStatus {
    /// Its name.
    pub open spec fn text(self) -> Seq<char> {
        match self {
            CacheStatus::Healthy => "healthy"@,
            CacheStatus::MissOnly => "miss_only"@,
            CacheStatus::Poisoned => "poisoned"@,
            CacheStatus::Closed => "closed"@,
        }
    }

    /// Its name.
    pub fn as_str(self) -> (name: &'static str)
        ensures
            name@ == self.text(),
    {
        match self {
            CacheStatus::Healthy => "healthy",
            CacheStatus::MissOnly => "miss_only",
            CacheStatus::Poisoned => "poisoned",
            CacheStatus::Closed => "closed",
        }
    }
}

#[derive(Clone, Copy, Debug, PartialEq, Eq, Structural)]
pub struct StateTransition {
    pub sequence: u64,
    pub unix_ms: u64,
    pub from: CacheStatus,
    pub to: CacheStatus,
    pub reason: StateChangeReason,
}

#[derive(Clone, Copy, Debug, PartialEq, Eq)]
pub struct LatencyHistogramSnapshot {
    /// Non-cumulative counts. The last element is the `+Inf` bucket.
    pub bucket_counts: [u64; 25],
    pub count: u64,
    pub sum_us: u64,
    pub max_us: u64,
}

#[derive(Clone, Copy, Debug, PartialEq, Eq)]
pub struct OperationMetricsSnapshot {
    pub operation: CacheOperation,
    pub results: [u64; 12],
    pub errors: [u64; 12],
    pub latency: LatencyHistogramSnapshot,
}

impl OperationMetricsSnapshot {
    pub fn result_count(&self, class: RequestResultClass) -> (count: u64)
        ensures
            count == self.results@[class.number()],
    {
        self.results[class.index()]
    }

    pub fn error_count(&self, class: CacheErrorClass) -> (count: u64)
        ensures
            count == self.errors@[class.number()],
    {
        self.errors[class.index()]
    }
}

/// Counters and levels of a cache.
#[derive(Clone, Copy, Debug, PartialEq, Eq, Structural)]
pub struct CacheStats {
    pub hits: u64,
    pub misses: u64,
    pub puts: u64,
    pub removes: u64,
    pub rejected: u64,
    pub io_errors: u64,
    pub corrupt_records: u64,
    pub checkpoint_errors: u64,
    pub host_write_bytes: u64,
    pub bytes_read: u64,
    pub foreground_record_bytes: u64,
    pub reinsertion_bytes: u64,
    pub checkpoint_write_bytes: u64,
    pub queue_rejections: u64,
    pub buffer_rejections: u64,
    pub read_queue_wait_ns: u64,
    pub write_queue_wait_ns: u64,
    pub control_queue_wait_ns: u64,
    pub read_buffer_wait_ns: u64,
    pub write_buffer_wait_ns: u64,
    pub control_buffer_wait_ns: u64,
    pub metadata_buffer_wait_ns: u64,
    pub reclaim_backlog_rejections: u64,
    pub background_regions_reclaimed: u64,
    pub reclaim_records_scanned: u64,
    pub reclaim_index_fallbacks: u64,
    pub entries: u64,
    pub memory_used_bytes: u64,
    pub memory_budget_bytes: u64,
    pub read_queue_depth: u64,
    pub write_queue_depth: u64,
    pub io_in_flight: u64,
    pub io_in_flight_peak: u64,
    pub recovery_in_progress: bool,
    pub recovery_regions_completed: u64,
    pub recovery_regions_total: u64,
    pub minimum_region_valid_ratio_bps: u64,
    pub write_amplification_milli: u64,
    pub nvme_health_critical: bool,
}

impl CacheStats {
    /// Nothing has happened.
    pub open spec fn zero() -> CacheStats {
        CacheStats {
            hits: 0,
            misses: 0,
            puts: 0,
            removes: 0,
            rejected: 0,
            io_errors: 0,
            corrupt_records: 0,
            checkpoint_errors: 0,
            host_write_bytes: 0,
            bytes_read: 0,
            foreground_record_bytes: 0,
            reinsertion_bytes: 0,
            checkpoint_write_bytes: 0,
            queue_rejections: 0,
            buffer_rejections: 0,
            read_queue_wait_ns: 0,
            write_queue_wait_ns: 0,
            control_queue_wait_ns: 0,
            read_buffer_wait_ns: 0,
            write_buffer_wait_ns: 0,
            control_buffer_wait_ns: 0,
            metadata_buffer_wait_ns: 0,
            reclaim_backlog_rejections: 0,
            background_regions_reclaimed: 0,
            reclaim_records_scanned: 0,
            reclaim_index_fallbacks: 0,
            entries: 0,
            memory_used_bytes: 0,
            memory_budget_bytes: 0,
            read_queue_depth: 0,
            write_queue_depth: 0,
            io_in_flight: 0,
            io_in_flight_peak: 0,
            recovery_in_progress: false,
            recovery_regions_completed: 0,
            recovery_regions_total: 0,
            minimum_region_valid_ratio_bps: 0,
            write_amplification_milli: 0,
            nvme_health_critical: false,
        }
    }
}

impl Default for CacheStats {
    fn default() -> (stats: CacheStats)
        ensures
            stats == CacheStats::zero(),
    {
        CacheStats {
            hits: 0,
            misses: 0,
            puts: 0,
            removes: 0,
            rejected: 0,
            io_errors: 0,
            corrupt_records: 0,
            checkpoint_errors: 0,
            host_write_bytes: 0,
            bytes_read: 0,
            foreground_record_bytes: 0,
            reinsertion_bytes: 0,
            checkpoint_write_bytes: 0,
            queue_rejections: 0,
            buffer_rejections: 0,
            read_queue_wait_ns: 0,
            write_queue_wait_ns: 0,
            control_queue_wait_ns: 0,
            read_buffer_wait_ns: 0,
            write_buffer_wait_ns: 0,
            control_buffer_wait_ns: 0,
            metadata_buffer_wait_ns: 0,
            reclaim_backlog_rejections: 0,
            background_regions_reclaimed: 0,
            reclaim_records_scanned: 0,
            reclaim_index_fallbacks: 0,
            entries: 0,
            memory_used_bytes: 0,
            memory_budget_bytes: 0,
            read_queue_depth: 0,
            write_queue_depth: 0,
            io_in_flight: 0,
            io_in_flight_peak: 0,
            recovery_in_progress: false,
            recovery_regions_completed: 0,
            recovery_regions_total: 0,
            minimum_region_valid_ratio_bps: 0,
            write_amplification_milli: 0,
            nvme_health_critical: false,
        }
    }
}

#[derive(Clone, Debug, PartialEq, Eq)]
pub struct MetricsSnapshot {
    pub status: CacheStatus,
    pub stats: CacheStats,
    pub origin_fills: OriginFillStats,
    pub operations: [OperationMetricsSnapshot; 6],
    /// Oldest-to-newest bounded lifecycle history.
    pub state_transitions: Vec<StateTransition>,
}

// ---------------------------------------------------------------------------
// Telemetry
// ---------------------------------------------------------------------------

/// The first bucket from `index` on that takes a latency.
pub open spec fn bucket_from(elapsed_us: u64, index: int) -> int
    decreases 24 - index,
{
    if index >= 24 {
        24
    } else if elapsed_us <= LATENCY_BUCKET_UPPER_US@[index] {
        index
    } else {
        bucket_from(elapsed_us, index + 1)
    }
}

/// The bucket of a latency: the first whose upper bound it does not exceed.
pub fn latency_bucket(elapsed_us: u64) -> (bucket: usize)
    ensures
        bucket == bucket_from(elapsed_us, 0),
        bucket < LATENCY_BUCKET_COUNT,
{
    let bounds = LATENCY_BUCKET_UPPER_US;
    let mut index: usize = 0;
    while index < 24
        invariant
            index <= 24,
            bounds == LATENCY_BUCKET_UPPER_US,
            bucket_from(elapsed_us, 0) == bucket_from(elapsed_us, index as int),
        decreases 24 - index,
    {
        if elapsed_us <= bounds[index] {
            return index;
        }
        index = index + 1;
    }
    24
}

/// Sum of counters.
pub open spec fn sum_of(counters: Seq<u64>) -> int
    decreases counters.len(),
{
    if counters.len() == 0 {
        0
    } else {
        sum_of(counters.drop_last()) + counters.last()
    }
}

proof fn lemma_sum_of_update(counters: Seq<u64>, index: int, value: u64)
    requires
        0 <= index < counters.len(),
    ensures
        sum_of(counters.update(index, value)) == sum_of(counters) - counters[index] + value,
    decreases counters.len(),
{
    let after = counters.update(index, value);
    if index == counters.len() - 1 {
        assert(after.drop_last() =~= counters.drop_last());
    } else {
        lemma_sum_of_update(counters.drop_last(), index, value);
        assert(after.drop_last() =~= counters.drop_last().update(index, value));
    }
}

proof fn lemma_sum_of_zeros(counters: Seq<u64>)
    requires
        forall|k: int| 0 <= k < counters.len() ==> counters[k] == 0,
    ensures
        sum_of(counters) == 0,
    decreases counters.len(),
{
    if counters.len() > 0 {
        lemma_sum_of_zeros(counters.drop_last());
    }
}

/// A sum as a counter holds it.
pub open spec fn rolled_sum(left: u64, right: u64) -> u64 {
    if left + right > u64::MAX {
        (left + right - 0x1_0000_0000_0000_0000) as u64
    } else {
        (left + right) as u64
    }
}

/// A number of microseconds as far as a counter holds it.
pub open spec fn clamped(elapsed_us: u128) -> u64 {
    if elapsed_us > u64::MAX {
        u64::MAX
    } else {
        elapsed_us as u64
    }
}

/// Results, errors and latencies of one operation.
#[derive(Clone, Copy, Debug, PartialEq, Eq)]
pub struct OperationTelemetry {
    pub results: [u64; 12],
    pub errors: [u64; 12],
    pub buckets: [u64; 25],
    pub count: u64,
    pub sum_us: u64,
    pub max_us: u64,
}

impl OperationTelemetry {
    /// Every request is counted once as a result and once as a latency.
    pub open spec fn wf(&self) -> bool {
        &&& sum_of(self.buckets@) % 0x1_0000_0000_0000_0000 == self.count
        &&& sum_of(self.results@) % 0x1_0000_0000_0000_0000 == self.count
    }

    /// No request so far.
    pub open spec fn idle(&self) -> bool {
        &&& forall|k: int| 0 <= k < 12 ==> self.results@[k] == 0
        &&& forall|k: int| 0 <= k < 12 ==> self.errors@[k] == 0
        &&& forall|k: int| 0 <= k < 25 ==> self.buckets@[k] == 0
        &&& self.count == 0
        &&& self.sum_us == 0
        &&& self.max_us == 0
    }

    /// The telemetry once a request has been counted.
    pub open spec fn is_after(
        &self,
        before: &OperationTelemetry,
        class: RequestResultClass,
        error: Option<CacheErrorClass>,
        elapsed_us: u64,
    ) -> bool {
        let bucket = bucket_from(elapsed_us, 0);
        &&& self.results@ == before.results@.update(class.number(), bumped(before.results@[class.number()]))
        &&& self.errors@ == (match error {
            Some(error) => before.errors@.update(error.number(), bumped(before.errors@[error.number()])),
            None => before.errors@,
        })
        &&& self.buckets@ == before.buckets@.update(bucket, bumped(before.buckets@[bucket]))
        &&& self.count == bumped(before.count)
        &&& self.sum_us == rolled_sum(before.sum_us, elapsed_us)
        &&& self.max_us == (if elapsed_us > before.max_us {
            elapsed_us
        } else {
            before.max_us
        })
    }

    pub fn new() -> (telemetry: OperationTelemetry)
        ensures
            telemetry.wf(),
            telemetry.idle(),
    {
        let telemetry = OperationTelemetry {
            results: [0u64; 12],
            errors: [0u64; 12],
            buckets: [0u64; 25],
            count: 0,
            sum_us: 0,
            max_us: 0,
        };
        proof {
            lemma_sum_of_zeros(telemetry.buckets@);
            lemma_sum_of_zeros(telemetry.results@);
        }
        telemetry
    }

    /// Counts a request. A latency that does not fit into a counter counts as
    /// the largest.
    pub fn observe(&mut self, class: RequestResultClass, error: Option<CacheErrorClass>, elapsed_us: u128)
        requires
            old(self).wf(),
        ensures
            final(self).wf(),
            final(self).is_after(old(self), class, error, clamped(elapsed_us)),
    {
        let elapsed: u64 = if elapsed_us > u64::MAX as u128 {
            u64::MAX
        } else {
            elapsed_us as u64
        };
        let bucket = latency_bucket(elapsed);
        let result = class.index();
        proof {
            lemma_sum_of_update(self.buckets@, bucket as int, bumped(self.buckets@[bucket as int]));
            lemma_sum_of_update(self.results@, result as int, bumped(self.results@[result as int]));
        }
        self.results[result] = self.results[result].wrapping_add(1);
        match error {
            Some(error) => {
                let index = error.index();
                self.errors[index] = self.errors[index].wrapping_add(1);
            },
            None => {},
        }
        self.buckets[bucket] = self.buckets[bucket].wrapping_add(1);
        self.count = self.count.wrapping_add(1);
        self.sum_us = self.sum_us.wrapping_add(elapsed);
        if elapsed > self.max_us {
            self.max_us = elapsed;
        }
    }

    /// The counts so far, as a report.
    pub open spec fn report(&self, operation: CacheOperation) -> OperationMetricsSnapshot {
        OperationMetricsSnapshot {
            operation,
            results: self.results,
            errors: self.errors,
            latency: LatencyHistogramSnapshot {
                bucket_counts: self.buckets,
                count: self.count,
                sum_us: self.sum_us,
                max_us: self.max_us,
            },
        }
    }

    pub fn snapshot(&self, operation: CacheOperation) -> (snapshot: OperationMetricsSnapshot)
        ensures
            snapshot == self.report(operation),
    {
        OperationMetricsSnapshot {
            operation,
            results: self.results,
            errors: self.errors,
            latency: LatencyHistogramSnapshot {
                bucket_counts: self.buckets,
                count: self.count,
                sum_us: self.sum_us,
                max_us: self.max_us,
            },
        }
    }
}

/// A bounded history of lifecycle transitions.
#[derive(Clone, Copy, Debug, PartialEq, Eq)]
pub struct StateHistory {
    pub sequence: u64,
    pub next: usize,
    pub len: usize,
    pub entries: [Option<StateTransition>; 32],
}

impl StateHistory {
    /// Where the oldest transition is.
    pub open spec fn start(&self) -> int {
        (self.next + 32 - self.len) % 32
    }

    /// The transitions that are kept, oldest first.
    pub open spec fn log(&self) -> Seq<StateTransition> {
        Seq::new(self.len as nat, |k: int| self.entries@[(self.start() + k) % 32]->0)
    }

    /// The kept transitions are the last ones, in order.
    pub open spec fn wf(&self) -> bool {
        &&& self.next < 32
        &&& self.len <= 32
        &&& forall|k: int| 0 <= k < self.len ==> self.entries@[#[trigger] ((self.start() + k) % 32)] is Some
        &&& forall|k: int| 0 <= k < self.len ==> (#[trigger] self.log()[k]).sequence <= self.sequence
        &&& forall|i: int, j: int|
            0 <= i < j < self.len ==> (#[trigger] self.log()[i]).sequence <= (#[trigger] self.log()[j]).sequence
        &&& self.sequence < u64::MAX ==> forall|i: int, j: int|
            0 <= i < j < self.len ==> (#[trigger] self.log()[i]).sequence < (#[trigger] self.log()[j]).sequence
        &&& self.len > 0 ==> self.log()[self.len - 1].sequence == self.sequence
    }

    pub fn new() -> (history: StateHistory)
        ensures
            history.wf(),
            history.log() == Seq::<StateTransition>::empty(),
            history.sequence == 0,
    {
        let history = StateHistory { sequence: 0, next: 0, len: 0, entries: [None; 32] };
        assert(history.log() =~= Seq::<StateTransition>::empty());
        history
    }

    /// Appends a transition; once the history is full, the oldest one leaves.
    #[verifier::rlimit(40)]
    #[verifier::spinoff_prover]
    pub fn push(&mut self, from: CacheStatus, to: CacheStatus, reason: StateChangeReason, unix_ms: u64)
        requires
            old(self).wf(),
        ensures
            final(self).wf(),
            final(self).sequence == (if old(self).sequence == u64::MAX {
                u64::MAX
            } else {
                (old(self).sequence + 1) as u64
            }),
            final(self).log() == (if old(self).log().len() == STATE_HISTORY_CAPACITY {
                old(self).log().skip(1)
            } else {
                old(self).log()
            }).push(StateTransition { sequence: final(self).sequence, unix_ms, from, to, reason }),
    {
        let ghost before = *self;
        self.sequence = self.sequence.saturating_add(1);
        let event = StateTransition { sequence: self.sequence, unix_ms, from, to, reason };
        let slot: usize = self.next;
        self.entries[slot] = Some(event);
        self.next = (self.next + 1) % 32;
        if self.len < 32 {
            self.len = self.len + 1;
        }
        proof {
            let kept = if before.len == 32 {
                before.log().skip(1)
            } else {
                before.log()
            };
            let dropped: int = if before.len == 32 {
                1
            } else {
                0
            };
            assert(self.len == kept.len() + 1);
            assert(self.start() == (before.start() + dropped) % 32);
            assert forall|k: int| 0 <= k < self.len implies self.entries@[#[trigger] ((self.start() + k) % 32)] is Some
                && self.entries@[(self.start() + k) % 32]->0 == (if k < kept.len() {
                kept[k]
            } else {
                event
            }) by {
                if k < kept.len() {
                    assert((self.start() + k) % 32 == (before.start() + (k + dropped)) % 32);
                    assert((before.start() + (k + dropped)) % 32 != slot);
                    assert(before.entries@[(before.start() + (k + dropped)) % 32] is Some);
                    assert(kept[k] == before.log()[k + dropped]);
                } else {
                    assert((self.start() + k) % 32 == slot);
                }
            }
            assert(self.log() =~= kept.push(event));
            assert forall|i: int, j: int| 0 <= i < j < self.len implies (#[trigger] self.log()[i]).sequence <= (
            #[trigger] self.log()[j]).sequence && (self.sequence < u64::MAX ==> self.log()[i].sequence < self.log()[j].sequence) by {
                assert(self.log()[i] == before.log()[i + dropped]);
                assert(before.log()[i + dropped].sequence <= before.sequence);
                if j < kept.len() {
                    assert(self.log()[j] == before.log()[j + dropped]);
                }
            }
        }
    }

    /// The transitions that are kept, oldest first.
    pub fn snapshot(&self) -> (log: Vec<StateTransition>)
        requires
            self.wf(),
        ensures
            log@ == self.log(),
    {
        let mut output: Vec<StateTransition> = Vec::new();
        let start: usize = (self.next + 32 - self.len) % 32;
        let mut offset: usize = 0;
        while offset < self.len
            invariant
                self.wf(),
                offset <= self.len,
                start == self.start(),
                output@ == self.log().take(offset as int),
            decreases self.len - offset,
        {
            let index: usize = (start + offset) % 32;
            assert(self.entries@[(self.start() + offset) % 32] is Some);
            match self.entries[index] {
                Some(event) => {
                    output.push(event);
                },
                None => {},
            }
            assert(output@ =~= self.log().take(offset + 1));
            offset = offset + 1;
        }
        assert(self.log().take(self.len as int) =~= self.log());
        output
    }
}

/// What a cache records of its requests and its lifecycle.
#[derive(Clone, Copy, Debug, PartialEq, Eq)]
pub struct RequestTelemetry {
    pub operations: [OperationTelemetry; 6],
    pub history: StateHistory,
}

impl RequestTelemetry {
    pub open spec fn wf(&self) -> bool {
        &&& forall|k: int| 0 <= k < 6 ==> (#[trigger] self.operations@[k]).wf()
        &&& self.history.wf()
    }

    /// The transition that a new cache starts its history with.
    pub open spec fn opening(status: CacheStatus, unix_ms: u64) -> StateTransition {
        StateTransition { sequence: 1, unix_ms, from: status, to: status, reason: StateChangeReason::Opened }
    }

    pub fn new(initial_status: CacheStatus, unix_ms: u64) -> (telemetry: RequestTelemetry)
        ensures
            telemetry.wf(),
            forall|k: int| 0 <= k < 6 ==> (#[trigger] telemetry.operations@[k]).idle(),
            telemetry.history.log() == seq![RequestTelemetry::opening(initial_status, unix_ms)],
            telemetry.history.sequence == 1,
    {
        let idle = OperationTelemetry::new();
        let mut history = StateHistory::new();
        history.push(initial_status, initial_status, StateChangeReason::Opened, unix_ms);
        let telemetry = RequestTelemetry { operations: [idle, idle, idle, idle, idle, idle], history };
        assert(history.log() =~= seq![RequestTelemetry::opening(initial_status, unix_ms)]);
        telemetry
    }

    /// Counts a request.
    pub fn observe(
        &mut self,
        operation: CacheOperation,
        class: RequestResultClass,
        error: Option<CacheErrorClass>,
        elapsed_us: u128,
    )
        requires
            old(self).wf(),
        ensures
            final(self).wf(),
            final(self).history == old(self).history,
            final(self).operations@[operation.number()].is_after(
                &old(self).operations@[operation.number()],
                class,
                error,
                clamped(elapsed_us),
            ),
            forall|k: int| 0 <= k < 6 && k != operation.number() ==> final(self).operations@[k] == old(self).operations@[k],
    {
        let index = operation.index();
        let mut observed = self.operations[index];
        observed.observe(class, error, elapsed_us);
        self.operations[index] = observed;
    }

    /// Records a lifecycle transition.
    pub fn record_transition(&mut self, from: CacheStatus, to: CacheStatus, reason: StateChangeReason, unix_ms: u64)
        requires
            old(self).wf(),
        ensures
            final(self).wf(),
            final(self).operations == old(self).operations,
            final(self).history.sequence == (if old(self).history.sequence == u64::MAX {
                u64::MAX
            } else {
                (old(self).history.sequence + 1) as u64
            }),
            final(self).history.log() == (if old(self).history.log().len() == STATE_HISTORY_CAPACITY {
                old(self).history.log().skip(1)
            } else {
                old(self).history.log()
            }).push(StateTransition { sequence: final(self).history.sequence, unix_ms, from, to, reason }),
    {
        self.history.push(from, to, reason, unix_ms);
    }

    /// The counts of every operation.
    pub fn operation_snapshots(&self) -> (snapshots: [OperationMetricsSnapshot; 6])
        ensures
            forall|k: int| 0 <= k < 6 ==> #[trigger] snapshots@[k] == self.operations@[k].report(CacheOperation::every()[k]),
    {
        [
            self.operations[0].snapshot(CacheOperation::Get),
            self.operations[1].snapshot(CacheOperation::Put),
            self.operations[2].snapshot(CacheOperation::Remove),
            self.operations[3].snapshot(CacheOperation::Flush),
            self.operations[4].snapshot(CacheOperation::Clear),
            self.operations[5].snapshot(CacheOperation::Close),
        ]
    }

    /// The lifecycle history, oldest first.
    pub fn state_transitions(&self) -> (log: Vec<StateTransition>)
        requires
            self.wf(),
        ensures
            log@ == self.history.log(),
    {
        self.history.snapshot()
    }

    /// A report on a cache.
    pub fn snapshot(&self, status: CacheStatus, stats: CacheStats, origin_fills: OriginFillStats) -> (snapshot: MetricsSnapshot)
        requires
            self.wf(),
        ensures
            snapshot.status == status,
            snapshot.stats == stats,
            snapshot.origin_fills == origin_fills,
            forall|k: int|
                0 <= k < 6 ==> #[trigger] snapshot.operations@[k] == self.operations@[k].report(CacheOperation::every()[k]),
            snapshot.state_transitions@ == self.history.log(),
    {
        MetricsSnapshot {
            status,
            stats,
            origin_fills,
            operations: self.operation_snapshots(),
            state_transitions: self.state_transitions(),
        }
    }
}

/// The kept history is bounded and chronological; every transition has a number
/// of its own until the numbers run out.
pub proof fn law_history_is_bounded_and_chronological(history: StateHistory)
    requires
        history.wf(),
    ensures
        history.log().len() <= STATE_HISTORY_CAPACITY,
        history.sequence < u64::MAX ==> forall|i: int, j: int|
            0 <= i < j < history.log().len() ==> (#[trigger] history.log()[i]).sequence < (#[trigger] history.log()[j]).sequence,
{
}

// ---------------------------------------------------------------------------
// What is counted
// ---------------------------------------------------------------------------

/// A request's bucket is the first whose bound it does not exceed; the bounds
/// are the powers of two from one microsecond on, and the last bucket has none.
pub proof fn law_latency_buckets(elapsed_us: u64)
    ensures
        ({
            let bucket = bucket_from(elapsed_us, 0);
            &&& 0 <= bucket <= 24
            &&& bucket < 24 ==> elapsed_us <= vstd::arithmetic::power2::pow2(bucket as nat)
            &&& bucket > 0 ==> elapsed_us > vstd::arithmetic::power2::pow2((bucket - 1) as nat)
        }),
{
    lemma_bucket_bounds(elapsed_us, 0);
    assert forall|k: int| 0 <= k < 24 implies #[trigger] LATENCY_BUCKET_UPPER_US@[k] == vstd::arithmetic::power2::pow2(k as nat) by {
        lemma_upper_bound(k);
    }
}

proof fn lemma_bucket_bounds(elapsed_us: u64, index: int)
    requires
        0 <= index <= 24,
        index > 0 ==> elapsed_us > LATENCY_BUCKET_UPPER_US@[index - 1],
    ensures
        ({
            let bucket = bucket_from(elapsed_us, index);
            &&& index <= bucket <= 24
            &&& bucket < 24 ==> elapsed_us <= LATENCY_BUCKET_UPPER_US@[bucket]
            &&& bucket > 0 ==> elapsed_us > LATENCY_BUCKET_UPPER_US@[bucket - 1]
        }),
    decreases 24 - index,
{
    if index < 24 && elapsed_us > LATENCY_BUCKET_UPPER_US@[index] {
        lemma_bucket_bounds(elapsed_us, index + 1);
    }
}

proof fn lemma_upper_bound(k: int)
    requires
        0 <= k < 24,
    ensures
        LATENCY_BUCKET_UPPER_US@[k] == vstd::arithmetic::power2::pow2(k as nat),
    decreases k,
{
    vstd::arithmetic::power2::lemma2_to64();
    if k > 0 {
        lemma_upper_bound(k - 1);
        vstd::arithmetic::power2::lemma_pow2_unfold(k as nat);
        assert(LATENCY_BUCKET_UPPER_US@[k] == 2 * LATENCY_BUCKET_UPPER_US@[k - 1]);
    }
}

/// Counters roll over at 2^64; a time that does not fit is the longest.
pub proof fn law_request_counters(left: u64, right: u64, elapsed_us: u128, counters: Seq<u64>)
    ensures
        rolled_sum(left, right) as int == (left + right) % 0x1_0000_0000_0000_0000,
        elapsed_us < 0x1_0000_0000_0000_0000 ==> clamped(elapsed_us) == elapsed_us,
        elapsed_us >= 0x1_0000_0000_0000_0000 ==> clamped(elapsed_us) == u64::MAX,
        sum_of(Seq::empty()) == 0,
        sum_of(counters.push(left)) == sum_of(counters) + left,
{
    assert(counters.push(left).drop_last() =~= counters);
}

/// A request is counted once by its result, once by its error if it has one, once
/// by its latency and once in all; other counters stay, the time adds up and the
/// longest is kept.
pub proof fn law_requests_are_observed(
    before: OperationTelemetry,
    after: OperationTelemetry,
    class: RequestResultClass,
    error: Option<CacheErrorClass>,
    elapsed_us: u64,
    k: int,
)
    requires
        after.is_after(&before, class, error, elapsed_us),
    ensures
        ({
            let wrap = 0x1_0000_0000_0000_0000int;
            let one = |chosen: bool| if chosen { 1int } else { 0int };
            &&& 0 <= k < 12 ==> after.results@[k] as int == (before.results@[k] + one(RequestResultClass::every()[k] == class)) % wrap
            &&& 0 <= k < 12 ==> after.errors@[k] as int == (before.errors@[k] + one(error == Some(CacheErrorClass::every()[k]))) % wrap
            &&& 0 <= k < 25 ==> after.buckets@[k] as int == (before.buckets@[k] + one(k == bucket_from(elapsed_us, 0))) % wrap
            &&& after.count as int == (before.count + 1) % wrap
            &&& after.sum_us as int == (before.sum_us + elapsed_us) % wrap
            &&& after.max_us >= before.max_us && after.max_us >= elapsed_us
            &&& after.max_us == before.max_us || after.max_us == elapsed_us
        }),
{
    lemma_bucket_bounds(elapsed_us, 0);
    lemma_numbers_list(class, error, k);
}

proof fn lemma_numbers_list(class: RequestResultClass, error: Option<CacheErrorClass>, k: int)
    ensures
        0 <= k < 12 ==> (RequestResultClass::every()[k] == class <==> class.number() == k),
        0 <= k < 12 ==> (error == Some(CacheErrorClass::every()[k]) <==> (error matches Some(found) && found.number() == k)),
        0 <= class.number() < 12,
        error matches Some(found) ==> 0 <= found.number() < 12,
{
}

/// Each kind of operation, result and error has its own number, by which it is
/// listed.
pub proof fn law_numbers_are_places(operation: CacheOperation, class: RequestResultClass, error: CacheErrorClass)
    ensures
        CacheOperation::every().len() == 6,
        0 <= operation.number() < 6 && CacheOperation::every()[operation.number()] == operation,
        RequestResultClass::every().len() == 12,
        0 <= class.number() < 12 && RequestResultClass::every()[class.number()] == class,
        CacheErrorClass::every().len() == 12,
        0 <= error.number() < 12 && CacheErrorClass::every()[error.number()] == error,
{
}

/// The order in which operations, results and errors are listed.
pub proof fn law_lists()
    ensures
        CacheOperation::every()[0] is Get && CacheOperation::every()[1] is Put && CacheOperation::every()[2] is Remove,
        CacheOperation::every()[3] is Flush && CacheOperation::every()[4] is Clear && CacheOperation::every()[5] is Close,
        RequestResultClass::every()[0] is Success && RequestResultClass::every()[1] is Hit && RequestResultClass::every()[2] is Miss,
        RequestResultClass::every()[3] is Stored && RequestResultClass::every()[4] is Removed && RequestResultClass::every()[5] is NotFound,
        RequestResultClass::every()[6] is Rejected && RequestResultClass::every()[7] is IoError && RequestResultClass::every()[8] is Corrupt,
        RequestResultClass::every()[9] is Overloaded && RequestResultClass::every()[10] is Unavailable
            && RequestResultClass::every()[11] is Cancelled,
        CacheErrorClass::every()[0] is InvalidConfig && CacheErrorClass::every()[1] is Locked && CacheErrorClass::every()[2] is CorruptMetadata,
        CacheErrorClass::every()[3] is NoSpace && CacheErrorClass::every()[4] is Permission && CacheErrorClass::every()[5] is DeviceIo,
        CacheErrorClass::every()[6] is Overloaded && CacheErrorClass::every()[7] is ReclaimBacklog && CacheErrorClass::every()[8] is TimedOut,
        CacheErrorClass::every()[9] is Cancelled && CacheErrorClass::every()[10] is Poisoned && CacheErrorClass::every()[11] is Closed,
{
}

/// A report shows an operation's counters as they are.
pub proof fn law_reports_show_the_counters(telemetry: OperationTelemetry, operation: CacheOperation)
    ensures
        telemetry.report(operation).operation == operation,
        telemetry.report(operation).results == telemetry.results,
        telemetry.report(operation).errors == telemetry.errors,
        telemetry.report(operation).latency.bucket_counts == telemetry.buckets,
        telemetry.report(operation).latency.count == telemetry.count,
        telemetry.report(operation).latency.sum_us == telemetry.sum_us,
        telemetry.report(operation).latency.max_us == telemetry.max_us,
{
}

/// Names are lower case words joined by underscores: those of operations, of
/// states and of the reasons that states change for.
pub proof fn law_names(operation: CacheOperation, status: CacheStatus, reason: StateChangeReason)
    ensures
        operation is Get ==> operation.text() == "get"@,
        operation is Put ==> operation.text() == "put"@,
        operation is Remove ==> operation.text() == "remove"@,
        operation is Flush ==> operation.text() == "flush"@,
        operation is Clear ==> operation.text() == "clear"@,
        operation is Close ==> operation.text() == "close"@,
        status is Healthy ==> status.text() == "healthy"@,
        status is MissOnly ==> status.text() == "miss_only"@,
        status is Poisoned ==> status.text() == "poisoned"@,
        status is Closed ==> status.text() == "closed"@,
        reason is Opened ==> reason.text() == "opened"@,
        reason is RecoveryCompleted ==> reason.text() == "recovery_completed"@,
        reason is IoFailure ==> reason.text() == "io_failure"@,
        reason is MetadataFailure ==> reason.text() == "metadata_failure"@,
        reason is WorkerFailure ==> reason.text() == "worker_failure"@,
        reason is Closing ==> reason.text() == "closing"@,
{
}

/// The names of results.
pub proof fn law_result_names(class: RequestResultClass)
    ensures
        class is Success ==> class.text() == "success"@,
        class is Hit ==> class.text() == "hit"@,
        class is Miss ==> class.text() == "miss"@,
        class is Stored ==> class.text() == "stored"@,
        class is Removed ==> class.text() == "removed"@,
        class is NotFound ==> class.text() == "not_found"@,
        class is Rejected ==> class.text() == "rejected"@,
        class is IoError ==> class.text() == "io_error"@,
        class is Corrupt ==> class.text() == "corrupt"@,
        class is Overloaded ==> class.text() == "overloaded"@,
        class is Unavailable ==> class.text() == "unavailable"@,
        class is Cancelled ==> class.text() == "cancelled"@,
{
}

/// The names of errors.
pub proof fn law_error_names(class: CacheErrorClass)
    ensures
        class is InvalidConfig ==> class.text() == "invalid_config"@,
        class is Locked ==> class.text() == "locked"@,
        class is CorruptMetadata ==> class.text() == "corrupt_metadata"@,
        class is NoSpace ==> class.text() == "no_space"@,
        class is Permission ==> class.text() == "permission"@,
        class is DeviceIo ==> class.text() == "device_io"@,
        class is Overloaded ==> class.text() == "overloaded"@,
        class is ReclaimBacklog ==> class.text() == "reclaim_backlog"@,
        class is TimedOut ==> class.text() == "timed_out"@,
        class is Cancelled ==> class.text() == "cancelled"@,
        class is Poisoned ==> class.text() == "poisoned"@,
        class is Closed ==> class.text() == "closed"@,
{
}

} // verus!
