use hybrid_cache::metrics::{
    latency_bucket, CacheErrorClass, CacheOperation, CacheStats, CacheStatus, RequestResultClass, RequestTelemetry,
    StateChangeReason, LATENCY_BUCKET_UPPER_US, STATE_HISTORY_CAPACITY,
};
use hybrid_cache::miss_guard::OriginFillStats;

#[test]
fn histogram_and_openmetrics_have_stable_cumulative_counts() {
    let mut telemetry = RequestTelemetry::new(CacheStatus::Healthy, 0);
    telemetry.observe(CacheOperation::Get, RequestResultClass::Hit, None, 1);
    telemetry.observe(CacheOperation::Get, RequestResultClass::Miss, None, 3);
    let snapshot = telemetry.snapshot(
        CacheStatus::Healthy,
        CacheStats {
            reclaim_records_scanned: 17,
            reclaim_index_fallbacks: 2,
            control_queue_wait_ns: 19,
            ..CacheStats::default()
        },
        OriginFillStats::default(),
    );
    let get = &snapshot.operations[CacheOperation::Get.index()];
    assert_eq!(get.latency.count, 2);
    assert_eq!(get.latency.bucket_counts[0], 1);
    assert_eq!(get.latency.bucket_counts[2], 1);
    let encoded = snapshot.to_openmetrics();
    assert!(encoded.contains("cache_rs_request_duration_seconds_bucket{operation=\"get\",le=\"0.000004\"} 2"));
    assert!(encoded.contains("cache_rs_requests_total{operation=\"get\",result=\"hit\"} 1"));
    assert!(encoded.contains("cache_rs_reclaim_records_scanned_total 17"));
    assert!(encoded.contains("cache_rs_reclaim_index_fallbacks_total 2"));
    assert!(encoded.contains("cache_rs_backpressure_wait_ns_total{resource=\"control_queue\"} 19"));
    assert!(encoded.ends_with("# EOF\n"));
}

#[test]
fn state_history_is_bounded_and_chronological() {
    let mut telemetry = RequestTelemetry::new(CacheStatus::Healthy, 0);
    for index in 0..(STATE_HISTORY_CAPACITY + 5) {
        telemetry.record_transition(
            CacheStatus::Healthy,
            if index % 2 == 0 {
                CacheStatus::MissOnly
            } else {
                CacheStatus::Healthy
            },
            StateChangeReason::IoFailure,
            index as u64,
        );
    }
    let snapshot = telemetry.snapshot(CacheStatus::Healthy, CacheStats::default(), OriginFillStats::default());
    assert_eq!(snapshot.state_transitions.len(), STATE_HISTORY_CAPACITY);
    assert!(snapshot
        .state_transitions
        .windows(2)
        .all(|pair| pair[0].sequence < pair[1].sequence));
    let log = snapshot.state_log_json();
    assert_eq!(log.lines().count(), STATE_HISTORY_CAPACITY);
    assert!(log.contains("\"event\":\"cache_state_change\""));
    assert!(log.contains("\"reason\":\"io_failure\""));
}

#[test]
fn a_log_line_has_a_fixed_form() {
    let telemetry = RequestTelemetry::new(CacheStatus::MissOnly, 1234);
    let snapshot = telemetry.snapshot(CacheStatus::MissOnly, CacheStats::default(), OriginFillStats::default());
    assert_eq!(
        snapshot.state_log_json(),
        "{\"schema_version\":1,\"event\":\"cache_state_change\",\"sequence\":1,\"unix_ms\":1234,\
         \"from\":\"miss_only\",\"to\":\"miss_only\",\"reason\":\"opened\"}\n"
    );
    let mut text = String::from("x");
    snapshot.write_state_log_json(&mut text);
    assert!(text.starts_with("x{\"schema_version\""));
}

#[test]
fn the_exposition_names_status_errors_and_sums() {
    let mut telemetry = RequestTelemetry::new(CacheStatus::Poisoned, 0);
    telemetry.observe(
        CacheOperation::Put,
        RequestResultClass::IoError,
        Some(CacheErrorClass::DeviceIo),
        1_234_567,
    );
    telemetry.observe(CacheOperation::Put, RequestResultClass::Stored, None, u128::MAX);
    let snapshot = telemetry.snapshot(
        CacheStatus::Poisoned,
        CacheStats {
            nvme_health_critical: true,
            hits: u64::MAX,
            ..CacheStats::default()
        },
        OriginFillStats::default(),
    );
    let put = &snapshot.operations[CacheOperation::Put.index()];
    assert_eq!(put.result_count(RequestResultClass::IoError), 1);
    assert_eq!(put.error_count(CacheErrorClass::DeviceIo), 1);
    assert_eq!(put.latency.bucket_counts[24], 1);
    assert_eq!(put.latency.max_us, u64::MAX);
    let text = snapshot.to_openmetrics();
    assert!(text.starts_with("# HELP cache_rs_up Whether the cache can serve normal traffic.\n# TYPE cache_rs_up gauge\ncache_rs_up 0\n"));
    assert!(text.contains("cache_rs_status{state=\"poisoned\"} 1\n"));
    assert!(text.contains("cache_rs_status{state=\"miss_only\"} 0\n"));
    assert!(text.contains("cache_rs_request_errors_total{operation=\"put\",class=\"device_io\"} 1\n"));
    assert!(text.contains("cache_rs_request_duration_seconds_bucket{operation=\"put\",le=\"2.097152\"} 1\n"));
    assert!(text.contains("cache_rs_request_duration_seconds_bucket{operation=\"put\",le=\"+Inf\"} 2\n"));
    assert!(text.contains("cache_rs_request_duration_seconds_sum{operation=\"put\"} 1.234566\n"));
    assert!(text.contains("# TYPE cache_rs_hits_total counter\ncache_rs_hits_total 18446744073709551615\n"));
    assert!(text.contains("# TYPE cache_rs_nvme_health_critical gauge\ncache_rs_nvme_health_critical 1\n"));
    assert!(text.contains("cache_rs_state_transitions_total 1\n"));
    let mut appended = String::from("before\n");
    snapshot.write_openmetrics(&mut appended);
    assert_eq!(appended, format!("before\n{text}"));
}

#[test]
fn latencies_fall_into_the_first_bucket_that_holds_them() {
    assert_eq!(latency_bucket(0), 0);
    assert_eq!(latency_bucket(1), 0);
    assert_eq!(latency_bucket(5), 3);
    assert_eq!(latency_bucket(8_388_608), 23);
    assert_eq!(latency_bucket(8_388_609), 24);
}

#[test]
fn names_are_stable() {
    assert_eq!(CacheOperation::all().map(|operation| operation.as_str()), [
        "get", "put", "remove", "flush", "clear", "close"
    ]);
    assert_eq!(CacheErrorClass::ReclaimBacklog.as_str(), "reclaim_backlog");
    assert_eq!(RequestResultClass::NotFound.as_str(), "not_found");
    assert_eq!(StateChangeReason::RecoveryCompleted.as_str(), "recovery_completed");
    for (index, class) in CacheErrorClass::all().iter().enumerate() {
        assert_eq!(class.index(), index);
    }
    for (index, class) in RequestResultClass::all().iter().enumerate() {
        assert_eq!(class.index(), index);
    }
}

#[test]
fn only_results_that_occurred_have_a_line() {
    let mut telemetry = RequestTelemetry::new(CacheStatus::MissOnly, 0);
    telemetry.observe(CacheOperation::Get, RequestResultClass::Hit, None, 1);
    telemetry.observe(CacheOperation::Get, RequestResultClass::Hit, None, 70_000_000);
    let text = telemetry
        .snapshot(CacheStatus::MissOnly, CacheStats::default(), OriginFillStats::default())
        .to_openmetrics();
    let lines: Vec<&str> = text.lines().filter(|line| line.starts_with("cache_rs_requests_total")).collect();
    assert_eq!(lines, vec!["cache_rs_requests_total{operation=\"get\",result=\"hit\"} 2"]);
    assert!(text.contains("cache_rs_request_duration_seconds_bucket{operation=\"get\",le=\"+Inf\"} 2\n"));
    assert!(text.contains("cache_rs_up 0\n"));
    assert!(text.ends_with("# EOF\n"));
}

#[test]
fn bucket_bounds_ascend() {
    assert!(LATENCY_BUCKET_UPPER_US.windows(2).all(|pair| pair[0] < pair[1]));
    assert_eq!(LATENCY_BUCKET_UPPER_US.len(), 24);
}
