use std::collections::VecDeque;

use hybrid_cache::io_backend::{IoErrorKind, IoFault, IoMode, RuntimeFileSet, RuntimeIoPath, SyncMode, SyncPoint, WritePoint};
use hybrid_cache::io_engine::{
    SubmitMode, CompletionStatus, EngineCore, IoBuffer, IoOperation, OperationKind, RequestId, SubmitOutcome,
};
use hybrid_cache::ring_driver::{
    cancel_user_data, classify_completion, is_unavailable_error, ring_sizes, CommandStep, CompletionTarget, PendingEntry,
    RingDriver, CANCEL_CQE_BIT, INTERNAL_CQE_BIT, LINUX_ECANCELED, WAKE_CANCEL_ID, WAKE_REQUEST_ID,
};

const FAULT: IoFault = IoFault {
    kind: IoErrorKind::Other,
    raw_os_error: Some(5),
    message: "device",
};

fn submit(core: &mut EngineCore, operation: IoOperation) -> RequestId {
    match core.submit(operation, SubmitMode::Try, 0, 0) {
        SubmitOutcome::Accepted(id) => id,
        _ => panic!("submission must be accepted"),
    }
}

fn write(length: usize) -> IoOperation {
    IoOperation::write(WritePoint::Record, IoBuffer::try_new(length).unwrap(), 0)
}

fn read(length: usize) -> IoOperation {
    IoOperation::read(IoBuffer::try_new(length).unwrap(), 0)
}

/// Takes in every command and queues what is pending.
fn pump(driver: &mut RingDriver, core: &mut EngineCore) -> Vec<PendingEntry> {
    while !matches!(driver.drain_command(core, 0), CommandStep::Empty) {}
    driver.queue_requested_cancels(core);
    let mut completions = Vec::new();
    let entries = driver.plan_submission(core, 64, 0, &mut completions);
    for entry in &entries {
        match entry {
            PendingEntry::Target(id) => {
                assert!(driver.prepare_target(*id).is_some());
            }
            PendingEntry::Wake => driver.wake_queued(),
            _ => {}
        }
    }
    entries
}

#[test]
fn ring_sizes_hold_every_request_and_the_wake_entries() {
    assert_eq!(ring_sizes(1), (4, 8));
    assert_eq!(ring_sizes(2), (4, 8));
    assert_eq!(ring_sizes(3), (8, 16));
    assert_eq!(ring_sizes(4096), (8192, 16384));
}

#[test]
fn completions_are_told_apart_by_their_user_data() {
    assert_eq!(classify_completion(WAKE_REQUEST_ID), CompletionTarget::Wake);
    assert_eq!(classify_completion(WAKE_CANCEL_ID), CompletionTarget::WakeCancel);
    assert_eq!(classify_completion(7), CompletionTarget::Request(RequestId(7)));
    assert_eq!(classify_completion(cancel_user_data(RequestId(7))), CompletionTarget::Cancel);
    assert_eq!(cancel_user_data(RequestId(7)), CANCEL_CQE_BIT | 7);
    assert_eq!(classify_completion(INTERNAL_CQE_BIT), CompletionTarget::Internal);
}

#[test]
fn some_errors_mean_that_the_ring_is_not_available() {
    assert!(is_unavailable_error(IoErrorKind::Unsupported, None));
    assert!(is_unavailable_error(IoErrorKind::Other, Some(38)));
    assert!(!is_unavailable_error(IoErrorKind::Other, Some(5)));
}

#[test]
fn a_partial_write_is_continued_where_it_stopped() {
    let mut core = EngineCore::new(4).unwrap();
    let mut driver = RingDriver::new(RuntimeFileSet::buffered());
    let id = submit(&mut core, write(10));
    assert_eq!(pump(&mut driver, &mut core), vec![PendingEntry::Wake, PendingEntry::Target(id)]);
    assert!(driver.complete_target(&mut core, id, 4, FAULT, false, 0).is_none());
    let mut completions = Vec::new();
    assert_eq!(
        driver.plan_submission(&mut core, 64, 0, &mut completions),
        vec![PendingEntry::Target(id)]
    );
    let entry = driver.prepare_target(id).unwrap();
    assert_eq!((entry.start, entry.length, entry.offset), (4, 6, 4));
    assert_eq!(entry.kind, OperationKind::Write);
    assert_eq!(entry.path, RuntimeIoPath::Buffered);
    let completion = driver.complete_target(&mut core, id, 6, FAULT, false, 0).unwrap();
    assert!(matches!(completion.status, CompletionStatus::Completed));
    assert_eq!(completion.bytes_transferred, 10);
    assert_eq!(core.snapshot().in_flight, 0);
}

#[test]
fn a_cancelled_partial_write_is_reported_as_failed() {
    let mut core = EngineCore::new(4).unwrap();
    let mut driver = RingDriver::new(RuntimeFileSet::buffered());
    let id = submit(&mut core, write(10));
    pump(&mut driver, &mut core);
    core.cancel(id).unwrap();
    assert_eq!(pump(&mut driver, &mut core), vec![PendingEntry::Cancel(id)]);
    let completion = driver.complete_target(&mut core, id, 4, FAULT, false, 0).unwrap();
    assert!(matches!(completion.status, CompletionStatus::Failed(fault) if fault.kind == IoErrorKind::Interrupted));
    assert_eq!(completion.bytes_transferred, 4);
}

#[test]
fn a_cancelled_read_ends_cancelled_and_gives_its_buffer_back() {
    let mut core = EngineCore::new(4).unwrap();
    let mut driver = RingDriver::new(RuntimeFileSet::buffered());
    let id = submit(&mut core, read(10));
    pump(&mut driver, &mut core);
    core.cancel(id).unwrap();
    pump(&mut driver, &mut core);
    let completion = driver.complete_target(&mut core, id, -LINUX_ECANCELED, FAULT, false, 0).unwrap();
    assert!(matches!(completion.status, CompletionStatus::Cancelled));
    assert_eq!(completion.buffer.unwrap().len(), 10);
}

#[test]
fn a_request_cancelled_before_it_was_queued_never_reaches_the_ring() {
    let mut core = EngineCore::new(4).unwrap();
    let mut driver = RingDriver::new(RuntimeFileSet::buffered());
    let id = submit(&mut core, read(10));
    assert!(matches!(driver.drain_command(&mut core, 0), CommandStep::Handled));
    core.cancel(id).unwrap();
    let mut completions = Vec::new();
    assert_eq!(
        driver.plan_submission(&mut core, 64, 0, &mut completions),
        vec![PendingEntry::Wake]
    );
    assert_eq!(completions.len(), 1);
    assert!(matches!(completions[0].status, CompletionStatus::Cancelled));
}

#[test]
fn short_and_oversized_completions_are_errors() {
    let mut core = EngineCore::new(4).unwrap();
    let mut driver = RingDriver::new(RuntimeFileSet::buffered());
    let first = submit(&mut core, read(10));
    let second = submit(&mut core, write(10));
    let third = submit(&mut core, read(10));
    pump(&mut driver, &mut core);
    let kind = |status: CompletionStatus| match status {
        CompletionStatus::Failed(fault) => Some(fault.kind),
        _ => None,
    };
    let completion = driver.complete_target(&mut core, first, 0, FAULT, false, 0).unwrap();
    assert_eq!(kind(completion.status), Some(IoErrorKind::UnexpectedEof));
    let completion = driver.complete_target(&mut core, second, 0, FAULT, false, 0).unwrap();
    assert_eq!(kind(completion.status), Some(IoErrorKind::WriteZero));
    let completion = driver.complete_target(&mut core, third, 11, FAULT, false, 0).unwrap();
    assert_eq!(kind(completion.status), Some(IoErrorKind::InvalidData));
}

#[test]
fn a_refused_direct_request_is_repeated_without_direct_io() {
    let mut core = EngineCore::new(4).unwrap();
    let mut driver = RingDriver::new(RuntimeFileSet::with_mode(true, IoMode::Auto));
    let id = submit(&mut core, write(4096));
    pump(&mut driver, &mut core);
    assert_eq!(driver.flights[0].active_path, Some(RuntimeIoPath::Direct));
    assert!(driver.complete_target(&mut core, id, -22, FAULT, true, 0).is_none());
    assert!(!driver.files.snapshot().direct_active);
    assert_eq!(driver.prepare_target(id).unwrap().path, RuntimeIoPath::Buffered);
    let completion = driver.complete_target(&mut core, id, 4096, FAULT, false, 0).unwrap();
    assert!(matches!(completion.status, CompletionStatus::Completed));
}

#[test]
fn shutdown_waits_for_requests_and_then_cancels_the_wake_entry() {
    let mut core = EngineCore::new(4).unwrap();
    let mut driver = RingDriver::new(RuntimeFileSet::buffered());
    let id = submit(&mut core, IoOperation::flush(SyncPoint::ExplicitFlush, SyncMode::All));
    pump(&mut driver, &mut core);
    core.begin_shutdown();
    assert!(pump(&mut driver, &mut core).is_empty());
    assert!(driver.shutting_down && !driver.is_done() && driver.must_wait());
    assert!(!driver.begin_wake_cancel());
    driver.complete_target(&mut core, id, 0, FAULT, false, 0).unwrap();
    assert!(driver.begin_wake_cancel());
    assert!(!driver.begin_wake_cancel());
    assert!(!driver.wake_completed(0));
    assert!(!driver.is_done());
    driver.wake_cancel_done();
    assert!(driver.is_done() && !driver.must_wait());
}

#[test]
fn a_failed_ring_fails_every_request_and_withholds_live_buffers() {
    let mut core = EngineCore::new(4).unwrap();
    let mut driver = RingDriver::new(RuntimeFileSet::buffered());
    let first = submit(&mut core, read(10));
    let second = submit(&mut core, write(10));
    pump(&mut driver, &mut core);
    submit(&mut core, read(1));
    let mut queue: VecDeque<u64> = driver.fatal_cancels().into();
    assert_eq!(queue, [first.get(), second.get(), WAKE_REQUEST_ID]);
    assert!(driver.has_active_target());
    let completion = driver.fatal_completion(&mut core, first.get(), FAULT, 0).unwrap();
    assert_eq!(completion.buffer.unwrap().len(), 10);
    assert!(driver.fatal_completion(&mut core, cancel_user_data(second), FAULT, 0).is_none());
    assert_eq!(driver.next_fatal_cancels(&mut queue, 1), vec![second.get()]);
    assert_eq!(driver.next_fatal_cancels(&mut queue, 4), vec![WAKE_REQUEST_ID]);

    let mut completions = Vec::new();
    let mut quarantine = Vec::new();
    assert!(driver.fail_all(&mut core, FAULT, 0, &mut completions, &mut quarantine));
    assert_eq!(completions.len(), 2);
    assert!(completions[0].buffer.is_none());
    assert!(completions[1].buffer.is_some());
    assert_eq!(quarantine.len(), 1);
    assert!(core.has_unfenced_mutations());
    assert_eq!(core.snapshot().in_flight, 0);
    assert!(matches!(
        core.submit(read(1), SubmitMode::Try, 0, 0),
        SubmitOutcome::Refused(_)
    ));
}

#[test]
fn a_failed_ring_reports_the_last_request_first_and_unseen_ones_at_the_end() {
    let mut core = EngineCore::new(8).unwrap();
    let mut driver = RingDriver::new(RuntimeFileSet::buffered());
    let first = submit(&mut core, read(10));
    let second = submit(&mut core, write(20));
    pump(&mut driver, &mut core);
    let flush = submit(&mut core, IoOperation::flush(SyncPoint::ExplicitFlush, SyncMode::Data));
    let unseen = submit(&mut core, read(30));
    assert!(matches!(driver.drain_command(&mut core, 0), CommandStep::Handled));

    let mut completions = Vec::new();
    let mut quarantine = Vec::new();
    driver.fail_all(&mut core, FAULT, 7, &mut completions, &mut quarantine);
    let reported: Vec<_> = completions
        .iter()
        .map(|completion| (completion.request_id, completion.kind, completion.bytes_transferred))
        .collect();
    assert_eq!(
        reported,
        vec![
            (flush, OperationKind::Flush, 0),
            (second, OperationKind::Write, 0),
            (first, OperationKind::Read, 0),
            (unseen, OperationKind::Read, 0),
        ]
    );
    assert!(completions.iter().all(|completion| matches!(completion.status, CompletionStatus::Failed(fault) if fault.message == "device")));
    assert_eq!(completions.pop().unwrap().buffer.unwrap().len(), 30);
    assert!(completions.iter().all(|completion| completion.buffer.is_none()));
    let withheld: Vec<usize> = quarantine.iter().map(|buffer| buffer.len()).collect();
    assert_eq!(withheld, vec![20, 10]);
    assert_eq!(core.snapshot().errors, 4);
}

#[test]
fn a_rest_that_is_not_aligned_is_not_sent_to_the_direct_descriptor() {
    let mut core = EngineCore::new(4).unwrap();
    let mut driver = RingDriver::new(RuntimeFileSet::with_mode(true, IoMode::Auto));
    let id = submit(&mut core, write(8192));
    assert!(matches!(driver.drain_command(&mut core, 0), CommandStep::Handled));
    assert_eq!(driver.prepare_target(id).unwrap().path, RuntimeIoPath::Direct);
    assert!(driver.complete_target(&mut core, id, 4096, FAULT, false, 0).is_none());
    assert_eq!(driver.prepare_target(id).unwrap().path, RuntimeIoPath::Direct);
    assert!(driver.complete_target(&mut core, id, 100, FAULT, false, 0).is_none());
    let rest = driver.prepare_target(id).unwrap();
    assert_eq!((rest.path, rest.start, rest.length), (RuntimeIoPath::Buffered, 4196, 3996));
}

#[test]
fn requests_that_end_while_planning_are_reported_in_their_order() {
    let mut core = EngineCore::new(4).unwrap();
    let mut driver = RingDriver::new(RuntimeFileSet::buffered());
    let first = submit(&mut core, read(1));
    let second = submit(&mut core, read(2));
    let third = submit(&mut core, write(3));
    while !matches!(driver.drain_command(&mut core, 0), CommandStep::Empty) {}
    core.cancel(first).unwrap();
    core.cancel(third).unwrap();
    let mut completions = Vec::new();
    let entries = driver.plan_submission(&mut core, 64, 0, &mut completions);
    assert_eq!(entries, vec![PendingEntry::Wake, PendingEntry::Target(second)]);
    let reported: Vec<_> = completions
        .iter()
        .map(|completion| (completion.request_id, completion.kind, completion.buffer.as_ref().map(|buffer| buffer.len())))
        .collect();
    assert_eq!(
        reported,
        vec![(first, OperationKind::Read, Some(1)), (third, OperationKind::Write, Some(3))]
    );
    assert_eq!(core.snapshot().cancelled, 2);
}

#[test]
fn a_cancel_command_leaves_the_flight_with_the_ring() {
    let mut core = EngineCore::new(4).unwrap();
    let mut driver = RingDriver::new(RuntimeFileSet::buffered());
    let id = submit(&mut core, read(10));
    let other = submit(&mut core, write(10));
    pump(&mut driver, &mut core);
    assert!(driver.complete_target(&mut core, other, 4, FAULT, false, 0).is_none());
    core.cancel(id).unwrap();
    let before = core.snapshot();
    assert!(matches!(driver.drain_command(&mut core, 0), CommandStep::Handled));
    assert!(driver.flights[0].active && driver.flights[0].cancel_submitted);
    assert_eq!(driver.flights[1].transferred, 4);
    assert_eq!(driver.pending_cancels, [id]);
    assert_eq!(core.snapshot(), before);

    let completion = driver.fatal_completion(&mut core, id.get(), FAULT, 5).unwrap();
    assert_eq!(completion.request_id, id);
    assert_eq!(driver.pending_cancels, [id]);
    assert_eq!(driver.pending_targets, [other]);
    assert_eq!(core.snapshot().completion_ns, 5);
}
