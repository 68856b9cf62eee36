//! Bounded RAM + SSD hybrid cache core.
//!
//! The memory tiers, the Region index, admission and write policies, the state
//! of the I/O engines, offline verification of the persisted files, and metrics.
//! Time comes in as numbers, and files as bytes: clocks, threads and system
//! calls are the caller's.
#![allow(unused_imports)]

pub mod bucket_file;
pub mod bytes;
pub mod checkpoint;
pub mod checkpoint_cross;
pub mod checkpoint_verify;
pub mod checksum;
pub mod containers;
pub mod device_health;
pub mod eviction;
pub mod expiry;
pub mod format;
pub mod host_writes;
pub mod hybrid_manifest;
pub mod index;
pub mod index_storage;
pub mod index_v2;
pub mod io_backend;
pub mod io_engine;
pub mod management;
pub mod memory;
pub mod memory_arena;
pub mod memory_directory;
pub mod memory_engine;
pub mod metrics;
pub mod miss_guard;
pub mod offline_file;
pub mod offline_laws;
pub mod offline_verify;
pub mod openmetrics;
pub mod pending_write;
pub mod policy;
pub mod region_file;
pub mod region_verify;
pub mod ring_driver;
pub mod slot_chains;

pub use bucket_file::BucketFileReport;
pub use device_health::{DeviceHealthPolicy, NvmeHealthSample, NvmeHealthStats};
pub use host_writes::{DailyWriteBudgetExceeded, HostWriteKind, HostWriteSnapshot};
pub use hybrid_manifest::HybridManifestFileReport;
pub use management::{
    CacheFileKind, CheckpointDirectoryState, CheckpointSlotState, CheckpointSlotSummary, CheckpointSummary, InspectReport,
    ManagementError, RegionSummary, ReopenDisposition, SuperblockState, SuperblockSummary, VerifyComponent, VerifyIssue,
    VerifyReport,
};
pub use metrics::{
    CacheErrorClass, CacheOperation, LatencyHistogramSnapshot, MetricsSnapshot, OperationMetricsSnapshot, RequestResultClass,
    StateChangeReason, StateTransition,
};
pub use miss_guard::{OriginFillConfig, OriginFillPermit, OriginFillRejectReason, OriginFillStats};
pub use offline_verify::{
    inspect_cache_file, inspect_hybrid_cache_files, verify_cache_file, verify_hybrid_cache_files, HybridInspectReport,
    HybridVerifyReport,
};
pub use policy::{
    AdmissionDecision, AdmissionMode, AdmissionSnapshot, NamespaceConfig, NamespaceRejectReason, NamespaceSnapshot,
    NamespaceUsage,
};
