use hybrid_cache::device_health::{DeviceHealthPolicy, NvmeHealthSample};
use hybrid_cache::host_writes::{ratio_milli, utc_day_of, DailyWriteBudgetExceeded, HostWriteKind, HostWriteTracker};
use hybrid_cache::policy::{
    AdmissionDecision, AdmissionMode, AdmissionPolicy, NamespaceConfig, NamespaceController, NamespaceRejectReason,
    NamespaceUsage, PolicyBuildError, PolicyController, TokenBucket, LARGE_OBJECT_THRESHOLD_BYTES,
};

const SECOND_NS: u64 = 1_000_000_000;

#[test]
fn aggregate_retirement_requires_exactly_one_effective_namespace() {
    assert_eq!(NamespaceController::try_new(&[], 0).unwrap().single_namespace(), Some(0));
    assert_eq!(
        NamespaceController::try_new(&[NamespaceConfig::new(0)], 0).unwrap().single_namespace(),
        Some(0)
    );
    assert_eq!(
        NamespaceController::try_new(&[NamespaceConfig::new(7)], 0).unwrap().single_namespace(),
        None
    );
}

#[test]
fn second_hit_admission_protects_updates_and_large_objects() {
    let mut policy = AdmissionPolicy::try_new(AdmissionMode::SecondHit).unwrap();
    let ordinary_hash = 17;
    assert_eq!(policy.consider(ordinary_hash, 4096, false), AdmissionDecision::Reject);
    assert_eq!(policy.consider(ordinary_hash, 4096, false), AdmissionDecision::Admit);

    let large_hash = 23;
    assert_eq!(
        policy.consider(large_hash, LARGE_OBJECT_THRESHOLD_BYTES.saturating_add(1), false),
        AdmissionDecision::Reject
    );
    assert_eq!(
        policy.consider(large_hash, LARGE_OBJECT_THRESHOLD_BYTES.saturating_add(1), false),
        AdmissionDecision::Reject
    );
    assert_eq!(
        policy.consider(large_hash, LARGE_OBJECT_THRESHOLD_BYTES.saturating_add(1), false),
        AdmissionDecision::Admit
    );
    assert!(policy.consider(99, usize::MAX, true).is_admitted());
    assert_eq!(policy.snapshot().large_object_rejected, 2);
}

#[test]
fn every_object_is_admitted_without_a_second_hit_policy() {
    let mut policy = AdmissionPolicy::try_new(AdmissionMode::Always).unwrap();
    assert!(policy.consider(1, usize::MAX, false).is_admitted());
    assert!(!AdmissionDecision::Reject.is_admitted());
}

#[test]
fn namespace_reservations_rollback_and_publication_moves_live_usage() {
    let mut namespaces = NamespaceController::try_new(
        &[
            NamespaceConfig::new(7).with_capacity_bytes(100).with_write_budget(100),
            NamespaceConfig::new(8).with_capacity_bytes(100),
        ],
        0,
    )
    .unwrap();
    assert!(namespaces.contains(0));

    let reservation = namespaces.try_reserve_capacity(7, 80).unwrap();
    namespaces.release_capacity(reservation);
    let snapshots = namespaces.try_snapshots_at(0).unwrap();
    assert_eq!(snapshots[1].reserved_bytes, 0);

    let reservation = namespaces.try_reserve_capacity(7, 80).unwrap();
    namespaces.commit_capacity(reservation, None);
    assert_eq!(
        namespaces.try_reserve_capacity(7, 21).err(),
        Some(NamespaceRejectReason::CapacityExceeded)
    );
    let reservation = namespaces.try_reserve_capacity(8, 60).unwrap();
    namespaces.commit_capacity(
        reservation,
        Some(NamespaceUsage {
            namespace: 7,
            live_bytes: 80,
        }),
    );
    let snapshots = namespaces.try_snapshots_at(0).unwrap();
    assert_eq!(snapshots[1].live_bytes, 0);
    assert_eq!(snapshots[2].live_bytes, 60);

    let start = 5 * SECOND_NS;
    let reservation = namespaces.try_reserve_write_at(7, 80, start).unwrap();
    namespaces.refund_write_at(reservation, start);
    namespaces.try_reserve_write_at(7, 80, start).unwrap();
    assert_eq!(
        namespaces.try_reserve_write_at(7, 21, start).err(),
        Some(NamespaceRejectReason::WriteBudgetExceeded)
    );
    assert!(namespaces.try_reserve_write_at(7, 21, start + SECOND_NS).is_ok());
}

#[test]
fn replacement_reserves_its_full_size_and_commits_actual_previous() {
    let mut namespaces =
        NamespaceController::try_new(&[NamespaceConfig::new(7).with_capacity_bytes(170)], 0).unwrap();
    let reservation = namespaces.try_reserve_capacity(7, 80).unwrap();
    namespaces.commit_capacity(reservation, None);

    let replacement = namespaces.try_reserve_capacity(7, 90).unwrap();
    assert_eq!(replacement.live_bytes(), 90);
    assert_eq!(replacement.reserved_bytes(), 90);
    let snapshot = namespaces.try_snapshots_at(0).unwrap()[1];
    assert_eq!(snapshot.live_bytes, 80);
    assert_eq!(snapshot.reserved_bytes, 90);
    namespaces.release_capacity(replacement);
    assert_eq!(namespaces.try_snapshots_at(0).unwrap()[1].reserved_bytes, 0);

    let replacement = namespaces.try_reserve_capacity(7, 90).unwrap();
    namespaces.commit_capacity(
        replacement,
        Some(NamespaceUsage {
            namespace: 7,
            live_bytes: 80,
        }),
    );
    let snapshot = namespaces.try_snapshots_at(0).unwrap()[1];
    assert_eq!(snapshot.live_bytes, 90);
    assert_eq!(snapshot.reserved_bytes, 0);
    assert_eq!(
        namespaces.try_reserve_capacity(7, 81).err(),
        Some(NamespaceRejectReason::CapacityExceeded)
    );
}

#[test]
fn unknown_and_repeated_namespaces_are_refused() {
    let mut namespaces = NamespaceController::try_new(&[], 0).unwrap();
    assert_eq!(
        namespaces.try_reserve_capacity(5, 1).err(),
        Some(NamespaceRejectReason::UnknownNamespace)
    );
    assert_eq!(
        NamespaceRejectReason::UnknownNamespace.message(),
        "namespace is not configured"
    );
    assert!(matches!(
        NamespaceController::try_new(&[NamespaceConfig::new(3), NamespaceConfig::new(3)], 0),
        Err(PolicyBuildError::Invalid(_))
    ));
    let config = NamespaceConfig::new(4).with_capacity_bytes(9).with_write_budget(11);
    assert_eq!(config.namespace(), 4);
    assert_eq!(config.capacity_bytes(), Some(9));
    assert_eq!(config.write_budget_bytes_per_second(), Some(11));
}

#[test]
fn a_token_bucket_keeps_fractions_of_a_byte() {
    let mut bucket = TokenBucket::new_at(3, 0);
    assert!(bucket.try_charge_at(3, 0));
    assert!(!bucket.try_charge_at(1, 333_333_333));
    assert!(bucket.try_charge_at(1, 333_333_334));
    assert!(bucket.try_charge_at(2, SECOND_NS));
    assert!(!bucket.try_charge_at(1, SECOND_NS));
    bucket.refund_at(1, SECOND_NS);
    assert!(bucket.try_charge_at(1, SECOND_NS));
}

#[test]
fn daily_budget_and_write_amplification_include_all_host_writes() {
    let day = 20_411;
    let mut tracker = HostWriteTracker::new_at(Some(100), day, 0);
    let reservation = tracker.try_reserve_daily_at(80, day).unwrap();
    tracker.release_daily(reservation, day);
    let reservation = tracker.try_reserve_daily_at(80, day).unwrap();
    tracker.commit_daily(reservation, day);
    assert!(tracker.try_reserve_daily_at(21, day).is_err());

    tracker.record_admitted_value(50);
    tracker.record_write_at(HostWriteKind::ForegroundRecord, 50, day);
    tracker.record_write_at(HostWriteKind::Metadata, 10, day);
    tracker.record_write_at(HostWriteKind::Reclaimer, 7, day);
    tracker.record_write_at(HostWriteKind::ForcedTombstone, 5, day);
    let snapshot = tracker.snapshot_at(day);
    assert_eq!(snapshot.host_write_bytes, 72);
    assert_eq!(snapshot.write_amplification_milli, 1440);
    assert_eq!(snapshot.reclaimer_bytes, 7);
    assert_eq!(snapshot.forced_tombstone_bytes, 5);
    assert_eq!(snapshot.daily_budget_used_bytes, 80);
    assert_eq!(snapshot.daily_budget_remaining_bytes, Some(20));
    assert_eq!(snapshot.daily_budget_rejections, 1);

    let next_day = tracker.snapshot_at(day.saturating_add(1));
    assert_eq!(next_day.daily_host_write_bytes, 0);
    assert_eq!(next_day.daily_budget_used_bytes, 0);
    assert_eq!(next_day.daily_budget_rejections, 0);

    let mut resumed = HostWriteTracker::new_at(Some(100), day, 70);
    assert!(resumed.try_reserve_daily_at(31, day).is_err());
    let resumed = resumed.snapshot_at(day);
    assert_eq!(resumed.host_write_bytes, 0);
    assert_eq!(resumed.daily_host_write_bytes, 70);
    assert_eq!(resumed.daily_budget_remaining_bytes, Some(30));
}

#[test]
fn ratios_and_days_are_exact() {
    assert_eq!(ratio_milli(72, 50), 1440);
    assert_eq!(ratio_milli(1, 0), 0);
    assert_eq!(utc_day_of(86_399), 0);
    assert_eq!(utc_day_of(86_400), 1);
}

#[test]
fn nvme_health_is_advisory_by_default_and_media_error_growth_latches() {
    let mut observe_only = PolicyController::try_new(AdmissionMode::Always, &[], None, 0, 0).unwrap();
    let warning = observe_only.observe_nvme_health(NvmeHealthSample {
        critical_warning: 1,
        available_spare_percent: 100,
        available_spare_threshold_percent: 10,
        ..NvmeHealthSample::default()
    });
    assert!(warning.critical);
    assert!(!observe_only.should_reject_put());

    let mut rejecting = PolicyController::try_new_with_health(
        AdmissionMode::Always,
        &[],
        None,
        None,
        DeviceHealthPolicy::RejectPutsOnCritical,
        0,
        0,
    )
    .unwrap();
    let healthy = NvmeHealthSample {
        available_spare_percent: 90,
        available_spare_threshold_percent: 10,
        media_errors: 4,
        ..NvmeHealthSample::default()
    };
    assert!(!rejecting.observe_nvme_health(healthy).critical);
    let growth = rejecting.observe_nvme_health(NvmeHealthSample {
        media_errors: 5,
        ..healthy
    });
    assert!(growth.media_errors_increased);
    assert!(growth.critical);
    assert!(rejecting.should_reject_put());

    let latched = rejecting.observe_nvme_health(NvmeHealthSample {
        media_errors: 5,
        ..healthy
    });
    assert!(!latched.media_errors_increased);
    assert!(latched.media_error_growth_observed);
    assert!(rejecting.nvme_health().unwrap().critical);
}

#[test]
fn exact_accounting_refuses_what_is_not_there() {
    let mut namespaces =
        NamespaceController::try_new(&[NamespaceConfig::new(7).with_capacity_bytes(100)], 0).unwrap();
    namespaces.restore_live_bytes(7, 40).unwrap();
    assert_eq!(
        namespaces.restore_live_bytes(9, 1).err(),
        Some(NamespaceRejectReason::UnknownNamespace)
    );
    let usage = |live_bytes: u64| NamespaceUsage {
        namespace: 7,
        live_bytes,
    };
    assert!(!namespaces.record_removal_exact(usage(41)));
    assert_eq!(namespaces.snapshot_at(7, 0).unwrap().live_bytes, 40);
    assert!(namespaces.record_removal_exact(usage(15)));
    assert_eq!(namespaces.snapshot_at(7, 0).unwrap().live_bytes, 25);
    assert!(namespaces.record_replacement_exact(usage(30), Some(usage(25))));
    assert_eq!(namespaces.snapshot_at(7, 0).unwrap().live_bytes, 30);

    let reservation = namespaces.try_reserve_capacity(7, 20).unwrap();
    assert!(namespaces.commit_actual_exact(reservation, 10, None));
    let snapshot = namespaces.snapshot_at(7, 0).unwrap();
    assert_eq!((snapshot.live_bytes, snapshot.reserved_bytes), (40, 0));

    assert!(namespaces.try_reserve_capacity(7, 61).is_err());
    assert_eq!(namespaces.rejection_totals(), (1, 0));
    namespaces.reset_live_bytes();
    assert_eq!(namespaces.snapshot_at(7, 0).unwrap().live_bytes, 0);
    let zero = namespaces.try_zero_usage().unwrap();
    assert_eq!(zero.iter().map(|usage| usage.live_bytes).sum::<u64>(), 0);
    assert_eq!(zero.len(), 2);
}

#[test]
fn a_shared_write_tracker_can_be_handed_in() {
    let mut tracker = HostWriteTracker::new_at(Some(10), 1, 0);
    tracker.record_write_failure();
    let controller = PolicyController::try_new_with_external_host_writes(
        AdmissionMode::Always,
        &[],
        tracker,
        DeviceHealthPolicy::default(),
        0,
    )
    .unwrap();
    assert_eq!(controller.host_writes().failed_write_operations, 1);
    assert_eq!(controller.namespaces().single_namespace(), Some(0));
    assert_eq!(DailyWriteBudgetExceeded.message(), "daily host-write budget is exhausted");
}

#[test]
fn lists_of_namespaces_are_written_into_given_room() {
    let mut namespaces =
        NamespaceController::try_new(&[NamespaceConfig::new(7).with_capacity_bytes(100)], 0).unwrap();
    let reservation = namespaces.try_reserve_capacity(7, 80).unwrap();
    namespaces.commit_capacity(reservation, None);
    let usage = namespaces.zero_usage_in(Vec::new());
    assert_eq!(
        usage,
        vec![NamespaceUsage { namespace: 0, live_bytes: 0 }, NamespaceUsage { namespace: 7, live_bytes: 0 }]
    );
    let snapshots = namespaces.snapshots_in(Vec::new(), 0);
    assert_eq!(snapshots.len(), 2);
    assert_eq!((snapshots[0].namespace, snapshots[0].live_bytes), (0, 0));
    assert_eq!((snapshots[1].namespace, snapshots[1].live_bytes), (7, 80));
}

#[test]
fn limits_of_a_namespace_do_not_depend_on_their_order() {
    let both = NamespaceConfig::new(7).with_capacity_bytes(100).with_write_budget(50);
    assert_eq!(both, NamespaceConfig::new(7).with_write_budget(50).with_capacity_bytes(100));
    assert_eq!(both, both.with_capacity_bytes(1).with_capacity_bytes(100));
    assert_ne!(both, NamespaceConfig::new(7).with_capacity_bytes(100));
    assert_ne!(both, NamespaceConfig::new(8).with_capacity_bytes(100).with_write_budget(50));
}

#[test]
fn policies_are_made_in_given_room() {
    let mut admission = AdmissionPolicy::in_room(Vec::new(), AdmissionMode::SecondHit);
    assert_eq!(admission.observe(9), 1);
    let namespaces = NamespaceController::in_room(Vec::new(), &[NamespaceConfig::new(3)], 0).unwrap();
    assert!(namespaces.contains(0) && namespaces.contains(3));
    assert!(matches!(
        NamespaceController::in_room(Vec::new(), &[NamespaceConfig::new(3), NamespaceConfig::new(3)], 0),
        Err(PolicyBuildError::Invalid(_))
    ));
    let refused = PolicyController::from_parts(admission, namespaces, Some(0), None, DeviceHealthPolicy::default(), 1);
    assert_eq!(
        refused.err(),
        Some(PolicyBuildError::Invalid("daily host-write budget must be greater than zero when enabled"))
    );
}
