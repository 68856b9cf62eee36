use hybrid_cache::io_backend::{
    allows_direct, direct_io_aligned, direct_io_unavailable, finish_direct_open, DirectIoStats, DirectOpen, ExactTransfer,
    IoErrorKind, IoFault, IoMode, RuntimeFileSet, RuntimeIoPath, SyncMode, SyncPoint, TransferDirection, TransferEvent,
    TransferStep, WritePoint, DIRECT_IO_ALIGNMENT, MAX_INTERRUPTED_RETRIES,
};
use hybrid_cache::io_engine::{
    backend_result, SubmitMode, CompletionCell, CompletionStatus, DriverCommand, EngineCore, IoBuffer, IoBufferError,
    IoCompletion, IoOperation, OperationKind, RequestId, ShutdownStep, SubmitOutcome, Task, IO_BUFFER_ALIGNMENT,
    MAX_IO_QUEUE_DEPTH, MAX_REQUEST_BYTES,
};

/// The platform's numbers for a file that does not do direct I/O.
const UNSUPPORTED: [i32; 3] = [22, 38, 95];

/// Drives a transfer with the given outcomes of its calls.
fn drive(direction: TransferDirection, length: usize, mut call: impl FnMut(usize) -> TransferEvent) -> (Result<(), IoFault>, usize) {
    let mut transfer = ExactTransfer::new(direction, length, 0);
    loop {
        match transfer.next() {
            TransferStep::Call { length, .. } => transfer.advance(call(length)),
            TransferStep::Complete => return (Ok(()), transfer.transferred),
            TransferStep::Failed(fault) => return (Err(fault), transfer.transferred),
        }
    }
}

#[test]
fn exact_io_stops_after_the_interrupted_retry_budget() {
    for direction in [TransferDirection::Read, TransferDirection::Write] {
        let mut calls = 0;
        let (result, transferred) = drive(direction, 1, |_| {
            calls += 1;
            TransferEvent::Failed(IoFault::new(IoErrorKind::Interrupted, "interrupted"))
        });
        assert_eq!(result.unwrap_err().kind, IoErrorKind::Interrupted);
        assert_eq!(transferred, 0);
        assert_eq!(calls, MAX_INTERRUPTED_RETRIES + 1);
    }
}

#[test]
fn short_calls_are_continued_and_empty_ones_end_a_transfer() {
    assert_eq!(drive(TransferDirection::Read, 10, |length| TransferEvent::Transferred(length.min(4))).1, 10);
    let (result, transferred) = drive(TransferDirection::Read, 3, |_| TransferEvent::Transferred(0));
    assert_eq!(result.unwrap_err().kind, IoErrorKind::UnexpectedEof);
    assert_eq!(transferred, 0);
    let (result, _) = drive(TransferDirection::Write, 3, |_| TransferEvent::Transferred(0));
    assert_eq!(result.unwrap_err().kind, IoErrorKind::WriteZero);
    assert_eq!(drive(TransferDirection::Write, 0, |_| unreachable!()), (Ok(()), 0));
}

#[test]
fn direct_alignment_requires_pointer_length_and_offset() {
    let bytes = IoBuffer::try_new(2 * DIRECT_IO_ALIGNMENT).unwrap();
    let pointer = bytes.address();
    assert!(direct_io_aligned(pointer, DIRECT_IO_ALIGNMENT, 0));
    assert!(direct_io_aligned(pointer, 2 * DIRECT_IO_ALIGNMENT, DIRECT_IO_ALIGNMENT as u64));
    assert!(!direct_io_aligned(pointer.wrapping_add(1), DIRECT_IO_ALIGNMENT, 0));
    assert!(!direct_io_aligned(pointer, DIRECT_IO_ALIGNMENT - 1, 0));
    assert!(!direct_io_aligned(pointer, DIRECT_IO_ALIGNMENT, 1));
    assert!(!direct_io_aligned(pointer, 0, 0));
    assert!(!direct_io_aligned(0, DIRECT_IO_ALIGNMENT, 0));
}

#[test]
fn runtime_files_route_only_fully_aligned_data_to_direct() {
    let mut files = RuntimeFileSet::with_mode(true, IoMode::Auto);
    let bytes = IoBuffer::try_new(2 * DIRECT_IO_ALIGNMENT).unwrap();
    let pointer = bytes.address();

    assert_eq!(files.select_path(pointer, DIRECT_IO_ALIGNMENT, 0, true), RuntimeIoPath::Direct);
    assert_eq!(files.select_path(pointer, DIRECT_IO_ALIGNMENT, 0, false), RuntimeIoPath::Buffered);
    assert_eq!(files.select_path(pointer, DIRECT_IO_ALIGNMENT - 1, 0, true), RuntimeIoPath::Buffered);
    files.record(RuntimeIoPath::Direct, DIRECT_IO_ALIGNMENT);
    assert_eq!(files.snapshot().direct_operations, 1);
    files.set_statistics_enabled(false);
    files.record(RuntimeIoPath::Direct, DIRECT_IO_ALIGNMENT);
    assert_eq!(files.snapshot().direct_operations, 1);

    let buffered_only = RuntimeFileSet::buffered();
    assert_eq!(
        buffered_only.select_path(pointer, DIRECT_IO_ALIGNMENT, 0, true),
        RuntimeIoPath::Buffered
    );

    let required = RuntimeFileSet::with_mode(true, IoMode::Direct);
    assert_eq!(
        required.select_path(pointer, DIRECT_IO_ALIGNMENT - 1, 0, true),
        RuntimeIoPath::Buffered,
        "required mode must preserve the buffered unaligned-I/O path"
    );
    assert_eq!(
        required.select_path(pointer, DIRECT_IO_ALIGNMENT - 1, 0, false),
        RuntimeIoPath::Buffered,
        "metadata remains on the buffered control descriptor"
    );
}

#[test]
fn sync_runtime_backend_routes_record_data_and_reports_bytes() {
    let mut files = RuntimeFileSet::with_mode(true, IoMode::Auto);
    let address = 4 * DIRECT_IO_ALIGNMENT;
    let record = files.select_path(address, DIRECT_IO_ALIGNMENT, 0, allows_direct(WritePoint::Record));
    assert!(!files.settle(record, Ok(DIRECT_IO_ALIGNMENT)));
    let superblock = files.select_path(address, DIRECT_IO_ALIGNMENT, 4096, allows_direct(WritePoint::DataSuperblock));
    assert!(!files.settle(superblock, Ok(DIRECT_IO_ALIGNMENT)));
    assert!(!files.settle(RuntimeIoPath::Buffered, Ok(0)));
    assert_eq!(
        files.snapshot(),
        DirectIoStats {
            direct_active: true,
            direct_operations: 1,
            direct_bytes: DIRECT_IO_ALIGNMENT as u64,
            buffered_operations: 1,
            buffered_bytes: DIRECT_IO_ALIGNMENT as u64,
        }
    );
}

#[test]
fn auto_falls_back_but_required_reports_unsupported_direct_open() {
    let invalid = direct_io_unavailable(IoErrorKind::InvalidInput, Some(22), &UNSUPPORTED);
    assert!(invalid);
    assert_eq!(finish_direct_open(IoMode::Auto, Err(invalid)), DirectOpen::BufferedOnly);
    let denied = direct_io_unavailable(IoErrorKind::PermissionDenied, Some(13), &UNSUPPORTED);
    assert_eq!(finish_direct_open(IoMode::Auto, Err(denied)), DirectOpen::BufferedOnly);
    assert_eq!(finish_direct_open(IoMode::Direct, Err(invalid)), DirectOpen::Failed);
    assert_eq!(finish_direct_open(IoMode::Auto, Ok(())), DirectOpen::WithDirect);
    assert_eq!(finish_direct_open(IoMode::Auto, Err(false)), DirectOpen::Failed);

    let mut auto_files = RuntimeFileSet::with_mode(true, IoMode::Auto);
    assert!(auto_files.should_fallback(RuntimeIoPath::Direct, invalid));
    assert!(!auto_files.snapshot().direct_active);
    let mut required_files = RuntimeFileSet::with_mode(true, IoMode::Direct);
    assert!(!required_files.should_fallback(RuntimeIoPath::Direct, invalid));
}

#[test]
fn error_numbers_decide_where_the_kind_does_not() {
    assert!(direct_io_unavailable(IoErrorKind::Other, Some(95), &UNSUPPORTED));
    assert!(!direct_io_unavailable(IoErrorKind::Other, Some(5), &UNSUPPORTED));
    assert!(!direct_io_unavailable(IoErrorKind::Other, None, &UNSUPPORTED));
}

#[test]
fn aligned_buffer_has_stable_alignment() {
    let buffer = IoBuffer::try_new(8193).unwrap();
    assert_eq!(buffer.address() % IO_BUFFER_ALIGNMENT, 0);
    assert_eq!(buffer.len(), 8193);
}

#[test]
fn buffers_are_bounded_and_hold_what_is_written() {
    assert!(matches!(
        IoBuffer::try_new(MAX_REQUEST_BYTES + 1),
        Err(IoBufferError::TooLong)
    ));
    let buffer = IoBuffer::try_new(4).unwrap().with_bytes(1, &[7, 8]);
    assert_eq!(buffer.as_slice(), &[0, 7, 8, 0]);
    assert!(IoBuffer::try_new(0).unwrap().is_empty());
}

fn accept(core: &mut EngineCore, operation: IoOperation) -> RequestId {
    match core.submit(operation, SubmitMode::Try, 0, 0) {
        SubmitOutcome::Accepted(id) => id,
        _ => panic!("submission must be accepted"),
    }
}

fn next_task(core: &mut EngineCore) -> Task {
    match core.take_command() {
        Some(DriverCommand::Submit(task)) => task,
        _ => panic!("a submission must be queued"),
    }
}

/// Executes the oldest request against a backend of which each call transfers
/// what `call` says.
fn execute(core: &mut EngineCore, call: impl FnMut(usize) -> TransferEvent) -> IoCompletion {
    let task = next_task(core);
    let direction = if task.operation.kind() == OperationKind::Read {
        TransferDirection::Read
    } else {
        TransferDirection::Write
    };
    let (result, transferred) = drive(direction, task.operation.length(), call);
    let (status, bytes) = backend_result(result, transferred);
    core.finish(task, status, bytes, 0)
}

fn read(length: usize, offset: u64) -> IoOperation {
    IoOperation::read(IoBuffer::try_new(length).unwrap(), offset)
}

#[test]
fn sync_engine_reports_progress_before_a_terminal_short_io_error() {
    let mut core = EngineCore::new(2).unwrap();
    let mut first = true;
    accept(&mut core, read(8, 0));
    let completion = execute(&mut core, |_| {
        if first {
            first = false;
            TransferEvent::Transferred(3)
        } else {
            TransferEvent::Failed(IoFault::new(IoErrorKind::Other, "injected"))
        }
    });
    assert!(matches!(completion.status, CompletionStatus::Failed(_)));
    assert_eq!(completion.bytes_transferred, 3);

    let mut first = true;
    let buffer = IoBuffer::try_new(8).unwrap().with_bytes(0, &[0x33; 8]);
    accept(&mut core, IoOperation::write(WritePoint::Record, buffer, 0));
    let completion = execute(&mut core, |_| {
        if first {
            first = false;
            TransferEvent::Transferred(3)
        } else {
            TransferEvent::Failed(IoFault::new(IoErrorKind::Other, "injected"))
        }
    });
    assert!(matches!(completion.status, CompletionStatus::Failed(_)));
    assert_eq!(completion.bytes_transferred, 3);
}

/// Executes the oldest request on a file that is held in memory.
fn execute_on(core: &mut EngineCore, file: &mut Vec<u8>, files: &mut RuntimeFileSet) -> IoCompletion {
    let mut task = next_task(core);
    let length = task.operation.length();
    let (operation, transferred) = match task.operation {
        IoOperation::Read { buffer, offset } => {
            let path = files.select_path(buffer.address(), length, offset, true);
            let bytes = file[offset as usize..offset as usize + length].to_vec();
            assert!(!files.settle(path, Ok(length)));
            (IoOperation::read(buffer.with_bytes(0, &bytes), offset), length)
        }
        IoOperation::Write { point, buffer, offset } => {
            let path = files.select_path(buffer.address(), length, offset, allows_direct(point));
            file[offset as usize..offset as usize + length].copy_from_slice(buffer.as_slice());
            assert!(!files.settle(path, Ok(length)));
            (IoOperation::write(point, buffer, offset), length)
        }
        IoOperation::Flush { point, mode } => (IoOperation::flush(point, mode), 0),
    };
    task.operation = operation;
    let (status, bytes) = backend_result(Ok(()), transferred);
    core.finish(task, status, bytes, 0)
}

fn write_of(bytes: &[u8], offset: u64) -> IoOperation {
    let buffer = IoBuffer::try_new(bytes.len()).unwrap().with_bytes(0, bytes);
    IoOperation::write(WritePoint::Record, buffer, offset)
}

#[test]
fn sync_engine_round_trips_owned_buffers_and_drains() {
    let mut core = EngineCore::new(4).unwrap();
    let mut files = RuntimeFileSet::buffered();
    let mut file = vec![0_u8; 8192];
    let input = b"owned async positioned I/O";
    let id = accept(&mut core, write_of(input, 4096));
    let write = execute_on(&mut core, &mut file, &mut files);
    assert_eq!(write.request_id, id);
    assert!(matches!(write.status, CompletionStatus::Completed));
    assert_eq!(write.bytes_transferred, input.len());

    accept(&mut core, IoOperation::flush(SyncPoint::ExplicitFlush, SyncMode::Data));
    execute_on(&mut core, &mut file, &mut files);
    accept(&mut core, read(input.len(), 4096));
    let completion = execute_on(&mut core, &mut file, &mut files);
    assert!(matches!(completion.status, CompletionStatus::Completed));
    let (result, buffer) = completion.into_io_result();
    assert_eq!(result, Ok(input.len()));
    assert_eq!(buffer.unwrap().as_slice(), input);

    assert!(matches!(core.begin_shutdown(), ShutdownStep::Lead));
    assert!(matches!(core.take_command(), Some(DriverCommand::Shutdown)));
    assert!(core.finish_shutdown(&[Ok(())]).is_ok());
    let stats = core.snapshot();
    assert_eq!(stats.in_flight, 0);
    assert_eq!(stats.submitted, 3);
    assert_eq!(stats.completed, 3);
    assert_eq!(stats.errors, 0);
    assert!(stats.in_flight_peak >= 1);
    match core.submit(
        IoOperation::flush(SyncPoint::ExplicitFlush, SyncMode::Data),
        SubmitMode::Try,
        0,
        0,
    ) {
        SubmitOutcome::Refused(error) => assert_eq!(error.error.kind, IoErrorKind::BrokenPipe),
        _ => panic!("a stopped engine must refuse"),
    }
}

#[test]
fn sync_engine_routes_only_aligned_record_io_to_direct() {
    let mut core = EngineCore::new(2).unwrap();
    let mut files = RuntimeFileSet::with_mode(true, IoMode::Auto);
    let mut file = vec![0_u8; 8192];
    accept(&mut core, write_of(&[0x5a; 4096], 0));
    assert!(matches!(
        execute_on(&mut core, &mut file, &mut files).status,
        CompletionStatus::Completed
    ));
    accept(&mut core, write_of(&[0x33; 32], 4096));
    assert!(matches!(
        execute_on(&mut core, &mut file, &mut files).status,
        CompletionStatus::Completed
    ));
    let stats = files.snapshot();
    assert!(stats.direct_active);
    assert_eq!(stats.direct_operations, 1);
    assert_eq!(stats.direct_bytes, 4096);
    assert_eq!(stats.buffered_operations, 1);
    assert_eq!(stats.buffered_bytes, 32);
}

#[test]
fn a_failed_driver_is_reported_by_shutdown() {
    let mut core = EngineCore::new(1).unwrap();
    assert!(matches!(core.begin_shutdown(), ShutdownStep::Lead));
    assert!(matches!(core.begin_shutdown(), ShutdownStep::Wait));
    let fault = IoFault::new(IoErrorKind::Other, "driver");
    assert_eq!(core.finish_shutdown(&[Ok(()), Err(fault)]), Err(fault));
    assert!(matches!(core.begin_shutdown(), ShutdownStep::Stopped(Some(found)) if found == fault));
}

#[test]
fn unfenced_mutation_state_remains_unsafe_after_shutdown() {
    let mut core = EngineCore::new(1).unwrap();
    assert!(!core.has_unfenced_mutations());

    core.mark_unfenced_mutations();
    core.begin_shutdown();
    core.finish_shutdown(&[Ok(())]).unwrap();

    assert!(core.has_unfenced_mutations());
    assert_eq!(core.snapshot().in_flight, 0);
}

#[test]
fn queue_depth_is_hard_bounded() {
    assert!(matches!(
        EngineCore::new(MAX_IO_QUEUE_DEPTH + 1),
        Err(error) if error.kind == IoErrorKind::InvalidInput
    ));
    assert!(EngineCore::new(0).is_err());
}

#[test]
fn a_full_queue_refuses_or_asks_to_wait() {
    let mut core = EngineCore::new(1).unwrap();
    accept(&mut core, read(1, 0));
    let operation = match core.submit(read(1, 1), SubmitMode::Try, 0, 0) {
        SubmitOutcome::Refused(error) => {
            assert_eq!(error.error.kind, IoErrorKind::WouldBlock);
            error.into_parts().1
        }
        _ => panic!("a full queue must refuse"),
    };
    let operation = match core.submit(operation, SubmitMode::Wait, 0, 0) {
        SubmitOutcome::Wait(operation) => operation,
        _ => panic!("a waiting submission must wait"),
    };
    execute(&mut core, TransferEvent::Transferred);
    assert!(matches!(
        core.submit(operation, SubmitMode::Wait, 0, 0),
        SubmitOutcome::Accepted(_)
    ));
    assert_eq!(core.snapshot().in_flight_peak, 1);
}

#[test]
fn controlled_admission_ends_by_cancellation_or_deadline() {
    let mut core = EngineCore::new(1).unwrap();
    accept(&mut core, read(1, 0));
    let kind = |outcome: SubmitOutcome| match outcome {
        SubmitOutcome::Refused(error) => Some(error.error.kind),
        _ => None,
    };
    let waiting = SubmitMode::Controlled {
        cancelled: false,
        expired: false,
    };
    assert!(matches!(core.submit(read(1, 1), waiting, 0, 0), SubmitOutcome::Wait(_)));
    let cancelled = SubmitMode::Controlled {
        cancelled: true,
        expired: false,
    };
    assert_eq!(kind(core.submit(read(1, 1), cancelled, 0, 0)), Some(IoErrorKind::Interrupted));
    let expired = SubmitMode::Controlled {
        cancelled: false,
        expired: true,
    };
    assert_eq!(kind(core.submit(read(1, 1), expired, 0, 0)), Some(IoErrorKind::TimedOut));
}

#[test]
fn an_operation_beyond_the_largest_offset_is_refused() {
    let mut core = EngineCore::new(1).unwrap();
    match core.submit(read(2, u64::MAX), SubmitMode::Try, 0, 0) {
        SubmitOutcome::Refused(error) => assert_eq!(error.error.kind, IoErrorKind::InvalidInput),
        _ => panic!("an overflowing operation must be refused"),
    }
}

#[test]
fn a_request_is_cancelled_once_and_only_while_it_is_there() {
    let mut core = EngineCore::new(2).unwrap();
    let id = accept(&mut core, read(1, 0));
    assert_eq!(core.cancel(id), Ok(true));
    assert!(core.is_cancel_requested(id));
    let task = next_task(&mut core);
    core.finish(task, CompletionStatus::Cancelled, 0, 5);
    assert!(!core.is_cancel_requested(id));
    assert_eq!(core.cancel(id), Ok(false));
    let stats = core.snapshot();
    assert_eq!((stats.cancel_requested, stats.cancelled), (1, 1));
}

#[test]
fn quarantined_completion_does_not_return_a_potentially_live_buffer() {
    let mut core = EngineCore::new(1).unwrap();
    accept(&mut core, read(1, 0));
    let task = next_task(&mut core);
    let (completed, withheld) = core.finish_quarantined(
        task,
        CompletionStatus::Failed(IoFault::new(IoErrorKind::Other, "uncertain kernel lifetime")),
        0,
        0,
    );
    assert!(matches!(completed.status, CompletionStatus::Failed(_)));
    assert!(completed.buffer.is_none());
    assert!(withheld.is_some());
    assert_eq!(core.snapshot().in_flight, 0);
}

#[test]
fn a_detached_consumer_gets_no_completion() {
    let mut core = EngineCore::new(2).unwrap();
    accept(&mut core, read(1, 0));
    accept(&mut core, read(1, 1));
    let mut cell = CompletionCell::new();
    assert!(cell.complete(execute(&mut core, TransferEvent::Transferred)));
    assert!(cell.take().is_some());
    assert!(cell.detach().is_none());
    assert!(!cell.complete(execute(&mut core, TransferEvent::Transferred)));
    assert!(cell.take().is_none());
}

#[test]
fn a_buffer_comes_back_from_its_parts() {
    let buffer = IoBuffer::try_new(16).unwrap().with_bytes(4, &[1, 2, 3]);
    let address = buffer.address();
    let (storage, start, length) = buffer.into_parts();
    assert_eq!(&storage[start..start + length][3..8], &[0, 1, 2, 3, 0]);
    let buffer = IoBuffer::from_parts(storage, start, length).unwrap();
    assert_eq!(buffer.address(), address);
    assert_eq!(buffer.as_slice()[4..7], [1, 2, 3]);
    let (storage, start, _) = buffer.into_parts();
    let room = storage.len() - start;
    assert!(IoBuffer::from_parts(storage, start, room + 1).is_none());
}

#[test]
fn requests_in_flight_have_identifiers_of_their_own() {
    let mut core = EngineCore::new(64).unwrap();
    let mut ids: Vec<u64> = (0..64).map(|offset| accept(&mut core, read(1, offset)).get()).collect();
    ids.sort_unstable();
    ids.dedup();
    assert_eq!(ids.len(), 64);
    let ended = execute(&mut core, TransferEvent::Transferred);
    assert!(!ids.is_empty() && ended.request_id.get() == 1);
    assert_eq!(accept(&mut core, read(1, 64)).get(), 65);
}

#[test]
fn a_request_that_is_refused_after_admission_counts_for_the_peak() {
    let mut core = EngineCore::new(2).unwrap();
    assert!(matches!(core.begin_shutdown(), ShutdownStep::Lead));
    assert!(matches!(core.submit(read(1, 0), SubmitMode::Wait, 0, 0), SubmitOutcome::Refused(_)));
    assert_eq!(core.snapshot().in_flight_peak, 0);
    assert!(matches!(core.submit(read(1, 0), SubmitMode::Try, 0, 0), SubmitOutcome::Refused(_)));
    assert_eq!(core.snapshot().in_flight_peak, 1);
    assert_eq!(core.snapshot().in_flight, 0);

    let mut core = EngineCore::new(2).unwrap();
    core.driver_alive = false;
    assert!(matches!(core.submit(read(1, 0), SubmitMode::Try, 0, 0), SubmitOutcome::Refused(_)));
    core.driver_alive = true;
    assert_eq!(accept(&mut core, read(1, 0)).get(), 2);
    assert_eq!(core.snapshot().submitted, 1);
}
