//! Owned-buffer asynchronous I/O runtime: admission, request registry,
//! cancellation, completion and shutdown.
//!
//! Requests transfer ownership of their aligned buffer to the engine. The
//! buffer is returned only with the target operation's completion, which is
//! the lifetime rule required by both positioned I/O workers and `io_uring`.
//! Threads, locks and system calls are the caller's: it keeps the engine behind
//! a lock, waits where it is told to wait, and performs what drivers take out
//! of the command queue.

use std::collections::{HashMap, VecDeque};
use vstd::prelude::*;
use vstd::slice::slice_subrange;

use crate::containers::vec_try_reserve_exact;
use crate::io_backend::{rolled, IoErrorKind, IoFault, IoFaultModel, SyncMode, SyncPoint, WritePoint};

verus! {

/// Alignment of request buffers.
pub const IO_BUFFER_ALIGNMENT: usize = 4096;

/// Queue depth of an engine that is not told otherwise.
pub const DEFAULT_IO_QUEUE_DEPTH: usize = 128;

/// Largest queue depth.
pub const MAX_IO_QUEUE_DEPTH: usize = 4096;

/// Longest request.
pub const MAX_REQUEST_BYTES: usize = 0xffff_ffff;

/// Largest request identifier. Identifiers never use the top two bits; the
/// ring driver reserves those for its own entries.
pub const MAX_REQUEST_ID: u64 = 0x3fff_ffff_ffff_ffff;

/// Most workers of the positioned I/O engine.
pub const MAX_BACKEND_WORKERS: usize = 4;

// ---------------------------------------------------------------------------
// Buffers
// ---------------------------------------------------------------------------

/// `Vec::as_ptr`, taken as a number: where the elements lie. Nothing is claimed
/// of it.
#[verifier::external_body]
fn data_address(bytes: &Vec<u8>) -> (address: usize) {
    bytes.as_ptr() as usize
}

/// Why a request buffer could not be made.
#[derive(Clone, Copy, Debug, PartialEq, Eq, Structural)]
pub enum IoBufferError {
    TooLong,
    Allocation,
}

impl IoBufferError {
    /// The error in words.
    pub fn message(&self) -> (message: &'static str)
        ensures
            message@ == (match *self {
                IoBufferError::TooLong => "I/O buffer length exceeds the per-request limit"@,
                IoBufferError::Allocation => "I/O buffer cannot be allocated"@,
            }),
    {
        match self {
            IoBufferError::TooLong => "I/O buffer length exceeds the per-request limit",
            IoBufferError::Allocation => "I/O buffer cannot be allocated",
        }
    }
}

/// How far the first aligned address is from `base`.
pub open spec fn aligned_start(base: usize) -> int {
    let misaligned = base as int % (IO_BUFFER_ALIGNMENT as int);
    if misaligned == 0 {
        0
    } else {
        IO_BUFFER_ALIGNMENT - misaligned
    }
}

/// A request buffer. It starts at an aligned address inside a slightly larger
/// allocation, which never grows, so the address never changes.
pub struct IoBuffer {
    storage: Vec<u8>,
    /// Where the allocation lies.
    base: usize,
    start: usize,
    length: usize,
}

impl View for IoBuffer {
    type V = Seq<u8>;

    closed spec fn view(&self) -> Seq<u8> {
        self.storage@.subrange(self.start as int, self.start + self.length)
    }
}

impl IoBuffer {
    #[verifier::type_invariant]
    closed spec fn inside(self) -> bool {
        &&& self.start + self.length <= self.storage.len()
        &&& self.length <= MAX_REQUEST_BYTES
        &&& self.base + self.start <= usize::MAX
        &&& (self.base + self.start) % (IO_BUFFER_ALIGNMENT as int) == 0
    }

    /// Where the bytes lie.
    pub closed spec fn address_of(&self) -> usize {
        (self.base + self.start) as usize
    }

    /// A buffer of zeroes.
    pub fn try_new(length: usize) -> (result: Result<IoBuffer, IoBufferError>)
        ensures
            match result {
                Ok(buffer) => length <= MAX_REQUEST_BYTES && buffer@ == Seq::new(length as nat, |k: int| 0u8),
                Err(IoBufferError::TooLong) => length > MAX_REQUEST_BYTES,
                Err(IoBufferError::Allocation) => length <= MAX_REQUEST_BYTES,
            },
    {
        if length > MAX_REQUEST_BYTES {
            return Err(IoBufferError::TooLong);
        }
        let room: usize = match IoBuffer::room_for(length) {
            Some(room) => room,
            None => {
                return Err(IoBufferError::Allocation);
            },
        };
        let mut storage: Vec<u8> = Vec::new();
        if !vec_try_reserve_exact(&mut storage, room) {
            return Err(IoBufferError::Allocation);
        }
        storage.resize(room, 0);
        assert(storage@ =~= Seq::new((length + IO_BUFFER_ALIGNMENT - 1) as nat, |k: int| 0u8));
        let base = data_address(&storage);
        match IoBuffer::in_room(storage, base, length) {
            Some(buffer) => Ok(buffer),
            None => Err(IoBufferError::Allocation),
        }
    }

    /// How large an allocation has to be to hold an aligned buffer wherever it
    /// lies.
    fn room_for(length: usize) -> (room: Option<usize>)
        ensures
            room == (if length + IO_BUFFER_ALIGNMENT - 1 <= usize::MAX {
                Some((length + IO_BUFFER_ALIGNMENT - 1) as usize)
            } else {
                None
            }),
    {
        length.checked_add(IO_BUFFER_ALIGNMENT - 1)
    }

    /// A buffer at the first aligned address of an allocation of zeroes that lies
    /// at `base`; there is one if that address can be counted.
    fn in_room(storage: Vec<u8>, base: usize, length: usize) -> (buffer: Option<IoBuffer>)
        requires
            length <= MAX_REQUEST_BYTES,
            storage@ == Seq::new((length + IO_BUFFER_ALIGNMENT - 1) as nat, |k: int| 0u8),
        ensures
            buffer is Some <==> base + aligned_start(base) <= usize::MAX,
            buffer matches Some(found) ==> {
                &&& found@ == Seq::new(length as nat, |k: int| 0u8)
                &&& found.address_of() == base + aligned_start(base)
            },
    {
        let misaligned = base % IO_BUFFER_ALIGNMENT;
        let start: usize = if misaligned == 0 {
            0
        } else {
            IO_BUFFER_ALIGNMENT - misaligned
        };
        let buffer = IoBuffer::at_address(storage, base, start, length);
        proof {
            if buffer is Some {
                assert(buffer->0@ =~= Seq::new(length as nat, |k: int| 0u8));
            }
        }
        buffer
    }

    /// Number of bytes.
    pub fn len(&self) -> (length: usize)
        ensures
            length == self@.len(),
            length <= MAX_REQUEST_BYTES,
    {
        proof {
            use_type_invariant(self);
        }
        self.length
    }

    /// Whether there are no bytes.
    pub fn is_empty(&self) -> (empty: bool)
        ensures
            empty == (self@.len() == 0),
    {
        self.len() == 0
    }

    /// The bytes.
    pub fn as_slice(&self) -> (bytes: &[u8])
        ensures
            bytes@ == self@,
    {
        proof {
            use_type_invariant(self);
        }
        slice_subrange(self.storage.as_slice(), self.start, self.start + self.length)
    }

    /// Where the bytes lie: at a multiple of the alignment, for as long as the
    /// buffer lives.
    pub fn address(&self) -> (address: usize)
        ensures
            address == self.address_of(),
            address as int % (IO_BUFFER_ALIGNMENT as int) == 0,
    {
        proof {
            use_type_invariant(self);
        }
        self.base + self.start
    }

    /// The allocation, where the bytes start in it, and how many there are.
    pub fn into_parts(self) -> (parts: (Vec<u8>, usize, usize))
        ensures
            parts.1 + parts.2 <= parts.0@.len(),
            parts.0@.subrange(parts.1 as int, parts.1 + parts.2) == self@,
    {
        proof {
            use_type_invariant(&self);
        }
        (self.storage, self.start, self.length)
    }

    /// A buffer in an allocation; `None` if it would not fit into it, would be
    /// too long, or would not start at an aligned address, which is the
    /// allocator's affair.
    pub fn from_parts(storage: Vec<u8>, start: usize, length: usize) -> (buffer: Option<IoBuffer>)
        ensures
            start + length > storage@.len() || length > MAX_REQUEST_BYTES ==> buffer is None,
            buffer matches Some(found) ==> found@ == storage@.subrange(start as int, start + length),
    {
        let base = data_address(&storage);
        IoBuffer::at_address(storage, base, start, length)
    }

    /// A buffer in an allocation that lies at `base`: there is one if it fits,
    /// is not too long and starts at an aligned address.
    fn at_address(storage: Vec<u8>, base: usize, start: usize, length: usize) -> (buffer: Option<IoBuffer>)
        ensures
            buffer is Some <==> {
                &&& start + length <= storage@.len()
                &&& length <= MAX_REQUEST_BYTES
                &&& base + start <= usize::MAX
                &&& (base + start) % (IO_BUFFER_ALIGNMENT as int) == 0
            },
            buffer matches Some(found) ==> {
                &&& found@ == storage@.subrange(start as int, start + length)
                &&& found.address_of() == base + start
            },
    {
        if start > storage.len() || length > storage.len() - start || length > MAX_REQUEST_BYTES {
            return None;
        }
        if base > usize::MAX - start || (base + start) % IO_BUFFER_ALIGNMENT != 0 {
            return None;
        }
        Some(IoBuffer { storage, base, start, length })
    }

    /// The same buffer with the bytes from `at` on replaced.
    pub fn with_bytes(self, at: usize, bytes: &[u8]) -> (buffer: IoBuffer)
        requires
            at + bytes@.len() <= self@.len(),
        ensures
            buffer@ == self@.take(at as int) + bytes@ + self@.skip(at + bytes@.len()),
            buffer.address_of() == self.address_of(),
    {
        proof {
            use_type_invariant(&self);
        }
        let ghost before = self@;
        let base = self.base;
        let start = self.start;
        let length = self.length;
        let mut storage = self.storage;
        let ghost original = storage@;
        let mut index: usize = 0;
        while index < bytes.len()
            invariant
                index <= bytes@.len(),
                at + bytes.len() <= length,
                start + length <= storage.len(),
                storage@.len() == original.len(),
                forall|k: int| 0 <= k < original.len() && !(start + at <= k < start + at + index) ==> #[trigger] storage@[k] == original[k],
                forall|k: int| 0 <= k < index ==> #[trigger] storage@[start + at + k] == bytes@[k],
            decreases bytes@.len() - index,
        {
            storage.set(start + at + index, bytes[index]);
            index = index + 1;
        }
        let buffer = IoBuffer { storage, base, start, length };
        proof {
            assert forall|k: int| 0 <= k < length implies #[trigger] buffer@[k] == (before.take(at as int) + bytes@ + before.skip(
                at + bytes@.len(),
            ))[k] by {
                if at <= k < at + bytes@.len() {
                    assert(storage@[start + at + (k - at)] == bytes@[k - at]);
                }
            }
            assert(buffer@ =~= before.take(at as int) + bytes@ + before.skip(at + bytes@.len()));
        }
        buffer
    }
}

// ---------------------------------------------------------------------------
// Operations and completions
// ---------------------------------------------------------------------------

/// Names a request from submission to completion.
#[derive(Clone, Copy, Debug, PartialEq, Eq, Hash, Structural)]
pub struct RequestId(pub u64);

impl RequestId {
    /// The identifier as a number.
    pub fn get(self) -> (id: u64)
        ensures
            id == self.0,
    {
        self.0
    }
}

/// What an operation does.
#[derive(Clone, Copy, Debug, PartialEq, Eq, Structural)]
pub enum OperationKind {
    Read,
    Write,
    Flush,
}

impl OperationKind {
    /// The operation changes the file or its durability.
    pub open spec fn mutates(self) -> bool {
        self is Write || self is Flush
    }

    /// Whether the operation changes the file or its durability.
    pub fn is_mutation(self) -> (mutation: bool)
        ensures
            mutation == self.mutates(),
    {
        match self {
            OperationKind::Read => false,
            OperationKind::Write => true,
            OperationKind::Flush => true,
        }
    }
}

/// An operation owns its buffer from admission until the target completion.
pub enum IoOperation {
    Read { buffer: IoBuffer, offset: u64 },
    Write { point: WritePoint, buffer: IoBuffer, offset: u64 },
    Flush { point: SyncPoint, mode: SyncMode },
}

impl IoOperation {
    /// What the operation does.
    pub open spec fn kind_of(&self) -> OperationKind {
        match *self {
            IoOperation::Read { .. } => OperationKind::Read,
            IoOperation::Write { .. } => OperationKind::Write,
            IoOperation::Flush { .. } => OperationKind::Flush,
        }
    }

    /// Bytes that the operation transfers.
    pub open spec fn length_of(&self) -> nat {
        match *self {
            IoOperation::Read { buffer, .. } => buffer@.len(),
            IoOperation::Write { buffer, .. } => buffer@.len(),
            IoOperation::Flush { .. } => 0,
        }
    }

    /// Where the transfer starts.
    pub open spec fn offset_of(&self) -> u64 {
        match *self {
            IoOperation::Read { offset, .. } => offset,
            IoOperation::Write { offset, .. } => offset,
            IoOperation::Flush { .. } => 0,
        }
    }

    /// The operation's buffer.
    pub open spec fn buffer_of(&self) -> Option<IoBuffer> {
        match *self {
            IoOperation::Read { buffer, .. } => Some(buffer),
            IoOperation::Write { buffer, .. } => Some(buffer),
            IoOperation::Flush { .. } => None,
        }
    }

    /// The operation may be submitted: it ends at a file offset.
    pub open spec fn valid(&self) -> bool {
        self.offset_of() + self.length_of() <= u64::MAX
    }

    /// A read that fills the buffer.
    pub fn read(buffer: IoBuffer, offset: u64) -> (operation: IoOperation)
        ensures
            operation == (IoOperation::Read { buffer, offset }),
    {
        IoOperation::Read { buffer, offset }
    }

    /// A write of the whole buffer.
    pub fn write(point: WritePoint, buffer: IoBuffer, offset: u64) -> (operation: IoOperation)
        ensures
            operation == (IoOperation::Write { point, buffer, offset }),
    {
        IoOperation::Write { point, buffer, offset }
    }

    /// A durability barrier.
    pub fn flush(point: SyncPoint, mode: SyncMode) -> (operation: IoOperation)
        ensures
            operation == (IoOperation::Flush { point, mode }),
    {
        IoOperation::Flush { point, mode }
    }

    /// What the operation does.
    pub fn kind(&self) -> (kind: OperationKind)
        ensures
            kind == self.kind_of(),
    {
        match self {
            IoOperation::Read { .. } => OperationKind::Read,
            IoOperation::Write { .. } => OperationKind::Write,
            IoOperation::Flush { .. } => OperationKind::Flush,
        }
    }

    /// Bytes that the operation transfers.
    pub fn length(&self) -> (length: usize)
        ensures
            length == self.length_of(),
            length <= MAX_REQUEST_BYTES,
    {
        match self {
            IoOperation::Read { buffer, .. } => buffer.len(),
            IoOperation::Write { buffer, .. } => buffer.len(),
            IoOperation::Flush { .. } => 0,
        }
    }

    /// Where the transfer starts.
    pub fn offset(&self) -> (offset: u64)
        ensures
            offset == self.offset_of(),
    {
        match self {
            IoOperation::Read { offset, .. } => *offset,
            IoOperation::Write { offset, .. } => *offset,
            IoOperation::Flush { .. } => 0,
        }
    }

    /// Checks that the operation ends at a file offset. Its length is bounded
    /// by its buffer.
    pub fn validate(&self) -> (result: Result<(), IoFault>)
        ensures
            match result {
                Ok(_) => self.valid(),
                Err(fault) => !self.valid() && fault@ == IoFaultModel::plain(
                    IoErrorKind::InvalidInput,
                    "I/O offset overflow"@,
                ),
            },
    {
        match self.offset().checked_add(self.length() as u64) {
            Some(_) => Ok(()),
            None => Err(IoFault::new(IoErrorKind::InvalidInput, "I/O offset overflow")),
        }
    }

    /// The operation's buffer.
    pub fn into_buffer(self) -> (buffer: Option<IoBuffer>)
        ensures
            buffer == self.buffer_of(),
    {
        match self {
            IoOperation::Read { buffer, .. } => Some(buffer),
            IoOperation::Write { buffer, .. } => Some(buffer),
            IoOperation::Flush { .. } => None,
        }
    }
}

/// How a request ended.
#[derive(Clone, Copy, Debug, PartialEq, Eq)]
pub enum CompletionStatus {
    Completed,
    Cancelled,
    Failed(IoFault),
}

impl CompletionStatus {
    /// The status as a result.
    pub fn into_io_result(self, bytes_transferred: usize) -> (result: Result<usize, IoFault>)
        ensures
            match self {
                CompletionStatus::Completed => result == Ok::<usize, IoFault>(bytes_transferred),
                CompletionStatus::Cancelled => result is Err && result->Err_0@ == IoFaultModel::plain(
                    IoErrorKind::Interrupted,
                    "I/O request was cancelled"@,
                ),
                CompletionStatus::Failed(fault) => result == Err::<usize, IoFault>(fault),
            },
    {
        match self {
            CompletionStatus::Completed => Ok(bytes_transferred),
            CompletionStatus::Cancelled => Err(IoFault::new(IoErrorKind::Interrupted, "I/O request was cancelled")),
            CompletionStatus::Failed(fault) => Err(fault),
        }
    }
}

/// Turns a driver's result into a status.
pub fn backend_result(result: Result<(), IoFault>, transferred: usize) -> (outcome: (CompletionStatus, usize))
    ensures
        outcome == (match result {
            Ok(_) => (CompletionStatus::Completed, transferred),
            Err(fault) => (CompletionStatus::Failed(fault), transferred),
        }),
{
    match result {
        Ok(_) => (CompletionStatus::Completed, transferred),
        Err(fault) => (CompletionStatus::Failed(fault), transferred),
    }
}

/// A finished request with the buffer it owned.
pub struct IoCompletion {
    pub request_id: RequestId,
    pub kind: OperationKind,
    pub status: CompletionStatus,
    pub bytes_transferred: usize,
    pub buffer: Option<IoBuffer>,
}

impl IoCompletion {
    /// Splits the result without ever discarding the owned buffer on failure.
    pub fn into_io_result(self) -> (parts: (Result<usize, IoFault>, Option<IoBuffer>))
        ensures
            parts.1 == self.buffer,
            self.status is Completed ==> parts.0 == Ok::<usize, IoFault>(self.bytes_transferred),
            self.status is Cancelled ==> parts.0 is Err && parts.0->Err_0@ == IoFaultModel::plain(
                IoErrorKind::Interrupted,
                "I/O request was cancelled"@,
            ),
            self.status matches CompletionStatus::Failed(fault) ==> parts.0 == Err::<usize, IoFault>(fault),
    {
        (self.status.into_io_result(self.bytes_transferred), self.buffer)
    }
}

/// A refused submission with the operation it was about.
pub struct SubmitError {
    pub error: IoFault,
    pub operation: IoOperation,
}

impl SubmitError {
    /// The error and the operation.
    pub fn into_parts(self) -> (parts: (IoFault, IoOperation))
        ensures
            parts == (self.error, self.operation),
    {
        (self.error, self.operation)
    }
}

/// Where a completion waits for its single consumer. A consumer that has gone
/// away gets nothing: the completion and its buffer are dropped.
pub struct CompletionCell {
    pub completion: Option<IoCompletion>,
    pub consumer_alive: bool,
}

impl CompletionCell {
    /// A cell whose request is still in flight.
    pub fn new() -> (cell: CompletionCell)
        ensures
            cell.completion is None,
            cell.consumer_alive,
    {
        CompletionCell { completion: None, consumer_alive: true }
    }

    /// Publishes the completion; whether anybody waits for it.
    pub fn complete(&mut self, completion: IoCompletion) -> (waiting: bool)
        ensures
            waiting == old(self).consumer_alive,
            final(self).consumer_alive == old(self).consumer_alive,
            final(self).completion == (if old(self).consumer_alive {
                Some(completion)
            } else {
                old(self).completion
            }),
    {
        if !self.consumer_alive {
            return false;
        }
        self.completion = Some(completion);
        true
    }

    /// Takes the completion, if it is there.
    pub fn take(&mut self) -> (completion: Option<IoCompletion>)
        ensures
            completion == old(self).completion,
            final(self).completion is None,
            final(self).consumer_alive == old(self).consumer_alive,
    {
        self.completion.take()
    }

    /// The consumer goes away.
    pub fn detach(&mut self) -> (dropped: Option<IoCompletion>)
        ensures
            dropped == old(self).completion,
            final(self).completion is None,
            !final(self).consumer_alive,
    {
        self.consumer_alive = false;
        self.completion.take()
    }
}

// ---------------------------------------------------------------------------
// The engine
// ---------------------------------------------------------------------------

/// What the engine has done so far.
#[derive(Clone, Copy, Debug, PartialEq, Eq, Structural)]
pub struct EngineCounters {
    pub in_flight_peak: usize,
    pub submitted: u64,
    pub completed: u64,
    pub cancel_requested: u64,
    pub cancelled: u64,
    pub errors: u64,
    pub submit_wait_ns: u64,
    pub completion_ns: u64,
}

/// What the engine has done so far, for outside.
#[derive(Clone, Copy, Debug, PartialEq, Eq, Structural)]
pub struct IoEngineStats {
    pub submitted: u64,
    pub completed: u64,
    pub cancel_requested: u64,
    pub cancelled: u64,
    pub errors: u64,
    pub in_flight: u64,
    pub in_flight_peak: u64,
    pub submit_wait_ns: u64,
    pub completion_ns: u64,
    pub direct_operations: u64,
    pub direct_bytes: u64,
    pub buffered_operations: u64,
    pub buffered_bytes: u64,
}

/// What a request's owner asked for.
#[derive(Clone, Copy, Debug, PartialEq, Eq, Structural)]
pub struct RequestControl {
    pub cancel_requested: bool,
    pub cancel_notified: bool,
}

/// A request on its way through a driver.
pub struct Task {
    pub request_id: RequestId,
    pub operation: IoOperation,
    pub submitted_ns: u64,
}

/// What a driver is told.
pub enum DriverCommand {
    Submit(Task),
    Cancel(RequestId),
    Shutdown,
}

/// How far shutdown has come.
#[derive(Clone, Copy, Debug)]
pub enum ShutdownPhase {
    Running,
    Draining,
    Stopped(Option<IoFault>),
}

/// What a caller of shutdown does next.
#[derive(Clone, Copy, Debug)]
pub enum ShutdownStep {
    /// Wake the drivers, wait for them and report their results.
    Lead,
    /// Somebody else leads: wait until the engine has stopped.
    Wait,
    /// The engine has stopped with this result.
    Stopped(Option<IoFault>),
}

/// How long a submitter is willing to wait for room in the queue.
#[derive(Clone, Copy, Debug, PartialEq, Eq, Structural)]
pub enum SubmitMode {
    Try,
    Wait,
    /// Until cancelled or until a deadline.
    Controlled { cancelled: bool, expired: bool },
}

/// Whether there is room in the queue.
#[derive(Clone, Copy, Debug)]
pub enum Admission {
    Admitted,
    Wait,
    Refused(IoFault),
}

/// What comes of a submission.
pub enum SubmitOutcome {
    Accepted(RequestId),
    /// Wait for a completion, then submit again.
    Wait(IoOperation),
    Refused(SubmitError),
}

/// `counter + amount`, sticking at the maximum.
pub open spec fn stuck(counter: u64, amount: u64) -> u64 {
    if counter + amount <= u64::MAX {
        (counter + amount) as u64
    } else {
        u64::MAX
    }
}

/// Admission, registry and command queue of an engine.
pub struct EngineCore {
    pub queue_depth: usize,
    pub accepting: bool,
    pub driver_alive: bool,
    pub in_flight: usize,
    pub counters: EngineCounters,
    pub unfenced_mutations: bool,
    pub next_request_id: u64,
    pub phase: ShutdownPhase,
    pub registry: HashMap<u64, RequestControl>,
    pub commands: VecDeque<DriverCommand>,
    /// What `next_request_id` would be if it never rolled over.
    pub issued: Ghost<nat>,
    /// The number under which each identifier was issued last.
    pub births: Ghost<Map<u64, nat>>,
}

impl EngineCounters {
    /// The counters once so many requests have been in flight at a time.
    pub open spec fn peaked(self, in_flight: int) -> EngineCounters {
        EngineCounters {
            in_flight_peak: if self.in_flight_peak < in_flight {
                in_flight as usize
            } else {
                self.in_flight_peak
            },
            ..self
        }
    }

    /// The counters once a request has ended.
    pub open spec fn finished(self, status: CompletionStatus, elapsed_ns: u64) -> EngineCounters {
        EngineCounters {
            completed: rolled(self.completed, 1),
            cancelled: if status is Cancelled {
                rolled(self.cancelled, 1)
            } else {
                self.cancelled
            },
            errors: if status is Failed {
                rolled(self.errors, 1)
            } else {
                self.errors
            },
            completion_ns: stuck(self.completion_ns, elapsed_ns),
            ..self
        }
    }
}

/// The identifier that is issued under a number: never zero, and without the top
/// two bits.
pub open spec fn id_of(number: nat) -> int {
    if number as int % (MAX_REQUEST_ID + 1) == 0 {
        1
    } else {
        number as int % (MAX_REQUEST_ID + 1)
    }
}

/// The number after the one under which an identifier is issued.
pub open spec fn number_after(number: nat) -> nat {
    if number as int % (MAX_REQUEST_ID + 1) == 0 {
        number + 2
    } else {
        number + 1
    }
}

/// What a submission is refused for while the engine stops or has stopped.
pub open spec fn shut_down_fault() -> IoFaultModel {
    IoFaultModel::plain(IoErrorKind::BrokenPipe, "I/O engine is shut down"@)
}

/// What becomes of a request for admission, if it is refused.
pub open spec fn admission_fault(mode: SubmitMode, accepting: bool, room: bool) -> Option<IoFaultModel> {
    match mode {
        SubmitMode::Try => if room {
            None
        } else {
            Some(IoFaultModel::plain(IoErrorKind::WouldBlock, "I/O queue is full"@))
        },
        SubmitMode::Wait => if accepting {
            None
        } else {
            Some(shut_down_fault())
        },
        SubmitMode::Controlled { cancelled, expired } => if !accepting {
            Some(shut_down_fault())
        } else if cancelled {
            Some(IoFaultModel::plain(IoErrorKind::Interrupted, "I/O admission wait was cancelled"@))
        } else if expired {
            Some(IoFaultModel::plain(IoErrorKind::TimedOut, "I/O admission deadline expired"@))
        } else {
            None
        },
    }
}

impl EngineCore {
    /// Requests in flight never exceed the queue depth, everything accepted is
    /// in flight or completed, and the command queue has a fixed size.
    pub open spec fn wf(&self) -> bool {
        &&& 1 <= self.queue_depth <= MAX_IO_QUEUE_DEPTH
        &&& self.in_flight <= self.queue_depth
        &&& self.in_flight <= self.counters.in_flight_peak <= self.queue_depth
        &&& self.counters.submitted == rolled(self.counters.completed, self.in_flight as u64)
        &&& self.commands@.len() <= self.command_capacity()
        &&& self.ids_wf()
    }

    /// Every live request has the identifier that was issued under its number.
    pub open spec fn ids_wf(&self) -> bool {
        &&& self.next_request_id == self.issued@ as int % 0x1_0000_0000_0000_0000
        &&& forall|id: u64| #[trigger]
            self.registry@.contains_key(id) ==> id == id_of(self.births@[id]) && number_after(self.births@[id]) <= self.issued@
    }

    /// The live requests were all issued so lately that no identifier has come
    /// round again.
    pub open spec fn ids_are_recent(&self) -> bool {
        forall|id: u64| #[trigger] self.registry@.contains_key(id) ==> self.issued@ - self.births@[id] < MAX_REQUEST_ID
    }

    /// No identifier has been issued in between.
    pub open spec fn same_ids(&self, other: &EngineCore) -> bool {
        &&& self.next_request_id == other.next_request_id
        &&& self.issued@ == other.issued@
        &&& self.births@ == other.births@
    }

    /// The requests in flight and the counters are the same.
    pub open spec fn same_books(&self, other: &EngineCore) -> bool {
        &&& self.same_ids(other)
        &&& self.registry@ == other.registry@
        &&& self.in_flight == other.in_flight
        &&& self.counters == other.counters
    }

    /// Commands that fit into the queue.
    pub open spec fn command_capacity(&self) -> int {
        2 * self.queue_depth + 1
    }

    /// There is room for a request.
    pub open spec fn has_room(&self) -> bool {
        self.in_flight < self.queue_depth
    }

    /// Why a valid operation is refused, if it is.
    pub open spec fn submit_fault(&self, mode: SubmitMode) -> Option<IoFaultModel> {
        match admission_fault(mode, self.accepting, self.has_room()) {
            Some(fault) => Some(fault),
            None => if !self.accepting {
                Some(shut_down_fault())
            } else if self.has_room() && !self.driver_alive {
                Some(IoFaultModel::plain(IoErrorKind::BrokenPipe, "I/O driver stopped"@))
            } else if self.has_room() && self.commands@.len() >= self.command_capacity() {
                Some(IoFaultModel::plain(IoErrorKind::WouldBlock, "I/O command queue is full"@))
            } else {
                None
            },
        }
    }

    /// Nothing but the clock-driven and configuration fields may differ.
    pub open spec fn same_setup(&self, other: &EngineCore) -> bool {
        &&& self.queue_depth == other.queue_depth
        &&& self.accepting == other.accepting
        &&& self.driver_alive == other.driver_alive
        &&& self.unfenced_mutations == other.unfenced_mutations
        &&& self.phase == other.phase
    }

    /// An idle engine.
    pub fn new(queue_depth: usize) -> (result: Result<EngineCore, IoFault>)
        ensures
            match result {
                Ok(core) => {
                    &&& core.wf()
                    &&& core.queue_depth == queue_depth
                    &&& core.accepting && core.driver_alive && !core.unfenced_mutations
                    &&& core.in_flight == 0
                    &&& core.counters == (EngineCounters {
                        in_flight_peak: 0,
                        submitted: 0,
                        completed: 0,
                        cancel_requested: 0,
                        cancelled: 0,
                        errors: 0,
                        submit_wait_ns: 0,
                        completion_ns: 0,
                    })
                    &&& core.next_request_id == 1
                    &&& core.issued@ == 1
                    &&& core.phase is Running
                    &&& core.registry@ == Map::<u64, RequestControl>::empty()
                    &&& core.commands@ == Seq::<DriverCommand>::empty()
                },
                Err(fault) => {
                    &&& queue_depth == 0 || queue_depth > MAX_IO_QUEUE_DEPTH
                    &&& fault@ == IoFaultModel::plain(
                        IoErrorKind::InvalidInput,
                        "I/O queue depth must be in 1..=4096"@,
                    )
                },
            },
    {
        broadcast use vstd::std_specs::hash::group_hash_axioms;

        if queue_depth == 0 || queue_depth > MAX_IO_QUEUE_DEPTH {
            return Err(IoFault::new(IoErrorKind::InvalidInput, "I/O queue depth must be in 1..=4096"));
        }
        let core = EngineCore {
            queue_depth,
            accepting: true,
            driver_alive: true,
            in_flight: 0,
            counters: EngineCounters {
                in_flight_peak: 0,
                submitted: 0,
                completed: 0,
                cancel_requested: 0,
                cancelled: 0,
                errors: 0,
                submit_wait_ns: 0,
                completion_ns: 0,
            },
            unfenced_mutations: false,
            next_request_id: 1,
            phase: ShutdownPhase::Running,
            registry: HashMap::new(),
            commands: VecDeque::new(),
            issued: Ghost(1),
            births: Ghost(Map::empty()),
        };
        assert(core.commands@ =~= Seq::<DriverCommand>::empty());
        assert(core.registry@ =~= Map::<u64, RequestControl>::empty());
        Ok(core)
    }

    /// Workers that the positioned I/O engine runs.
    pub fn worker_count(&self) -> (count: usize)
        ensures
            count == (if self.queue_depth < MAX_BACKEND_WORKERS {
                self.queue_depth
            } else {
                MAX_BACKEND_WORKERS
            }),
    {
        if self.queue_depth < MAX_BACKEND_WORKERS {
            self.queue_depth
        } else {
            MAX_BACKEND_WORKERS
        }
    }

    /// Asks for admission.
    pub fn admission(&self, mode: SubmitMode) -> (admission: Admission)
        ensures
            match admission {
                Admission::Admitted => admission_fault(mode, self.accepting, self.has_room()) is None && self.has_room(),
                Admission::Wait => admission_fault(mode, self.accepting, self.has_room()) is None && !self.has_room(),
                Admission::Refused(fault) => admission_fault(mode, self.accepting, self.has_room()) == Some(fault@),
            },
    {
        let room = self.in_flight < self.queue_depth;
        match mode {
            SubmitMode::Try => {
                if !room {
                    return Admission::Refused(IoFault::new(IoErrorKind::WouldBlock, "I/O queue is full"));
                }
            },
            SubmitMode::Wait => {
                if !self.accepting {
                    return Admission::Refused(IoFault::new(IoErrorKind::BrokenPipe, "I/O engine is shut down"));
                }
            },
            SubmitMode::Controlled { cancelled, expired } => {
                if !self.accepting {
                    return Admission::Refused(IoFault::new(IoErrorKind::BrokenPipe, "I/O engine is shut down"));
                }
                if cancelled {
                    return Admission::Refused(IoFault::new(IoErrorKind::Interrupted, "I/O admission wait was cancelled"));
                }
                if expired {
                    return Admission::Refused(IoFault::new(IoErrorKind::TimedOut, "I/O admission deadline expired"));
                }
            },
        }
        if room {
            Admission::Admitted
        } else {
            Admission::Wait
        }
    }

    /// Picks the next request identifier: it is never zero and never uses the
    /// top two bits.
    fn take_request_id(&mut self) -> (id: u64)
        requires
            old(self).next_request_id == old(self).issued@ as int % 0x1_0000_0000_0000_0000,
        ensures
            1 <= id <= MAX_REQUEST_ID,
            id == id_of(old(self).issued@),
            final(self).issued@ == number_after(old(self).issued@),
            final(self).next_request_id == final(self).issued@ as int % 0x1_0000_0000_0000_0000,
            final(self).births@ == old(self).births@.insert(id, old(self).issued@),
            final(self).same_setup(old(self)),
            final(self).in_flight == old(self).in_flight,
            final(self).counters == old(self).counters,
            final(self).registry@ == old(self).registry@,
            final(self).commands@ == old(self).commands@,
    {
        let observed = self.next_request_id;
        let id = observed % (MAX_REQUEST_ID + 1);
        let ghost number = self.issued@;
        proof {
            lemma_residue(number as int, observed as int);
            self.issued@ = number_after(number);
            self.births@ = self.births@.insert(id_of(number) as u64, number);
        }
        if id != 0 {
            self.next_request_id = observed.wrapping_add(1);
            return id;
        }
        self.next_request_id = observed.wrapping_add(2);
        1
    }

    /// A request was admitted and then refused after all: it counts for the peak,
    /// and its identifier, if it had been given one, is used up.
    pub open spec fn is_after_lost_admission(&self, before: &EngineCore) -> bool {
        &&& self.same_setup(before)
        &&& self.commands@ == before.commands@
        &&& self.in_flight == before.in_flight
        &&& self.counters == before.counters.peaked(before.in_flight + 1)
        &&& if before.accepting {
            &&& self.issued@ == number_after(before.issued@)
            &&& self.births@ == before.births@.insert(id_of(before.issued@) as u64, before.issued@)
            &&& self.registry@ == before.registry@.remove(id_of(before.issued@) as u64)
        } else {
            &&& self.same_ids(before)
            &&& self.registry@ == before.registry@
        }
    }

    /// What comes of a submission: it is queued and counted, asked to wait, or
    /// refused with the reason.
    pub open spec fn submission(
        self,
        operation: IoOperation,
        mode: SubmitMode,
        submitted_ns: u64,
        waited_ns: u64,
        after: EngineCore,
        outcome: SubmitOutcome,
    ) -> bool {
        match outcome {
            SubmitOutcome::Accepted(id) => {
                &&& operation.valid()
                &&& self.submit_fault(mode) is None
                &&& self.has_room()
                &&& 1 <= id.0 <= MAX_REQUEST_ID
                &&& id.0 == id_of(self.issued@)
                &&& after.issued@ == number_after(self.issued@)
                &&& after.births@ == self.births@.insert(id.0, self.issued@)
                &&& self.ids_are_recent() ==> !self.registry@.contains_key(id.0)
                &&& after.in_flight == self.in_flight + 1
                &&& after.counters == (EngineCounters {
                    submitted: rolled(self.counters.submitted, 1),
                    submit_wait_ns: stuck(self.counters.submit_wait_ns, waited_ns),
                    ..self.counters.peaked(self.in_flight + 1)
                })
                &&& after.registry@ == self.registry@.insert(
                    id.0,
                    RequestControl { cancel_requested: false, cancel_notified: false },
                )
                &&& after.commands@ == self.commands@.push(
                    DriverCommand::Submit(Task { request_id: id, operation, submitted_ns }),
                )
            },
            SubmitOutcome::Wait(returned) => {
                &&& returned == operation
                &&& operation.valid()
                &&& self.submit_fault(mode) is None
                &&& !self.has_room()
                &&& after == self
            },
            SubmitOutcome::Refused(refused) => {
                &&& refused.operation == operation
                &&& if !operation.valid() {
                    &&& refused.error@ == IoFaultModel::plain(IoErrorKind::InvalidInput, "I/O offset overflow"@)
                    &&& after == self
                } else {
                    &&& self.submit_fault(mode) == Some(refused.error@)
                    &&& if admission_fault(mode, self.accepting, self.has_room()) is Some {
                        after == self
                    } else {
                        after.is_after_lost_admission(&self)
                    }
                }
            },
        }
    }

    /// Submits an operation. An accepted one is registered and handed to the
    /// drivers. The submission began at `submitted_ns` and has waited for
    /// `waited_ns` so far.
    pub fn submit(&mut self, operation: IoOperation, mode: SubmitMode, submitted_ns: u64, waited_ns: u64) -> (outcome: SubmitOutcome)
        requires
            old(self).wf(),
        ensures
            final(self).wf(),
            final(self).same_setup(old(self)),
            old(self).submission(operation, mode, submitted_ns, waited_ns, *final(self), outcome),
    {
        broadcast use vstd::std_specs::hash::group_hash_axioms;

        if let Err(error) = operation.validate() {
            return SubmitOutcome::Refused(SubmitError { error, operation });
        }
        let admission = self.admission(mode);
        if let Admission::Refused(error) = admission {
            return SubmitOutcome::Refused(SubmitError { error, operation });
        }
        if let Admission::Wait = admission {
            return SubmitOutcome::Wait(operation);
        }
        if self.counters.in_flight_peak < self.in_flight + 1 {
            self.counters.in_flight_peak = self.in_flight + 1;
        }
        if !self.accepting {
            let error = IoFault::new(IoErrorKind::BrokenPipe, "I/O engine is shut down");
            return SubmitOutcome::Refused(SubmitError { error, operation });
        }
        proof {
            assert forall|live: u64| old(self).ids_are_recent() && #[trigger] old(self).registry@.contains_key(live) implies live != id_of(
                old(self).issued@,
            ) by {
                law_live_identifiers_are_not_issued_again(*old(self), live);
            }
        }
        let id = self.take_request_id();
        if !self.driver_alive {
            self.registry.remove(&id);
            let error = IoFault::new(IoErrorKind::BrokenPipe, "I/O driver stopped");
            return SubmitOutcome::Refused(SubmitError { error, operation });
        }
        if self.commands.len() >= 2 * self.queue_depth + 1 {
            self.registry.remove(&id);
            let error = IoFault::new(IoErrorKind::WouldBlock, "I/O command queue is full");
            return SubmitOutcome::Refused(SubmitError { error, operation });
        }
        self.registry.insert(id, RequestControl { cancel_requested: false, cancel_notified: false });
        self.in_flight = self.in_flight + 1;
        let mut counters = self.counters;
        counters.submitted = counters.submitted.wrapping_add(1);
        counters.submit_wait_ns = counters.submit_wait_ns.saturating_add(waited_ns);
        self.counters = counters;
        self.commands.push_back(DriverCommand::Submit(Task { request_id: RequestId(id), operation, submitted_ns }));
        SubmitOutcome::Accepted(RequestId(id))
    }

    /// What a driver does next: the oldest command, or shutdown once the engine
    /// no longer accepts requests and the queue is empty. `None` asks to wait.
    pub fn take_command(&mut self) -> (command: Option<DriverCommand>)
        requires
            old(self).wf(),
        ensures
            final(self).wf(),
            final(self).same_setup(old(self)),
            final(self).in_flight == old(self).in_flight,
            final(self).counters == old(self).counters,
            final(self).same_ids(old(self)),
            final(self).registry@ == old(self).registry@,
            if old(self).commands@.len() > 0 {
                command == Some(old(self).commands@[0]) && final(self).commands@ == old(self).commands@.skip(1)
            } else {
                &&& command == (if old(self).accepting {
                    None
                } else {
                    Some(DriverCommand::Shutdown)
                })
                &&& final(self).commands@ == old(self).commands@
            },
    {
        let ghost before = self.commands@;
        match self.commands.pop_front() {
            Some(command) => {
                assert(self.commands@ =~= before.skip(1));
                Some(command)
            },
            None => if self.accepting {
                None
            } else {
                Some(DriverCommand::Shutdown)
            },
        }
    }

    /// The owner of a request has asked for its cancellation.
    pub open spec fn cancel_wanted(&self, id: u64) -> bool {
        self.registry@.contains_key(id) && self.registry@[id].cancel_requested
    }

    /// Whether the owner of a request has asked for its cancellation.
    pub fn is_cancel_requested(&self, id: RequestId) -> (requested: bool)
        ensures
            requested == self.cancel_wanted(id.0),
    {
        broadcast use vstd::std_specs::hash::group_hash_axioms;

        match self.registry.get(&id.0) {
            Some(control) => control.cancel_requested,
            None => false,
        }
    }

    /// What comes of asking for a cancel: nothing for a request that is not
    /// registered; else it is noted, and the driver told once.
    pub open spec fn cancellation(self, id: RequestId, after: EngineCore, result: Result<bool, IoFault>) -> bool {
        if !self.registry@.contains_key(id.0) {
            result == Ok::<bool, IoFault>(false) && after == self
        } else {
            let control = self.registry@[id.0];
            &&& after.registry@ == self.registry@.insert(
                id.0,
                RequestControl { cancel_requested: true, cancel_notified: true },
            )
            &&& after.counters == (EngineCounters {
                cancel_requested: if control.cancel_requested {
                    self.counters.cancel_requested
                } else {
                    rolled(self.counters.cancel_requested, 1)
                },
                ..self.counters
            })
            &&& if !control.cancel_notified && !self.driver_alive {
                &&& result is Err
                &&& result->Err_0@ == IoFaultModel::plain(IoErrorKind::BrokenPipe, "I/O driver stopped"@)
                &&& after.commands@ == self.commands@
            } else {
                &&& result == Ok::<bool, IoFault>(true)
                &&& after.commands@ == if !control.cancel_notified && self.commands@.len()
                    < self.command_capacity() {
                    self.commands@.push(DriverCommand::Cancel(id))
                } else {
                    self.commands@
                }
            }
        }
    }

    /// Asks for the cancellation of a request; `false` if it is not in flight.
    /// Drivers are told once, as far as the command queue has room: the request
    /// itself also carries the mark.
    pub fn cancel(&mut self, id: RequestId) -> (result: Result<bool, IoFault>)
        requires
            old(self).wf(),
        ensures
            final(self).wf(),
            final(self).same_setup(old(self)),
            final(self).in_flight == old(self).in_flight,
            final(self).same_ids(old(self)),
            old(self).cancellation(id, *final(self), result),
    {
        broadcast use vstd::std_specs::hash::group_hash_axioms;

        let control: RequestControl = match self.registry.get(&id.0) {
            Some(control) => *control,
            None => {
                return Ok(false);
            },
        };
        if !control.cancel_requested {
            self.counters.cancel_requested = self.counters.cancel_requested.wrapping_add(1);
        }
        self.registry.insert(id.0, RequestControl { cancel_requested: true, cancel_notified: true });
        if !control.cancel_notified {
            if !self.driver_alive {
                return Err(IoFault::new(IoErrorKind::BrokenPipe, "I/O driver stopped"));
            }
            if self.commands.len() < 2 * self.queue_depth + 1 {
                self.commands.push_back(DriverCommand::Cancel(id));
            }
        }
        Ok(true)
    }

    /// The engine once a request has ended.
    pub open spec fn is_after_finish(&self, before: &EngineCore, id: RequestId, status: CompletionStatus, elapsed_ns: u64) -> bool {
        &&& self.wf()
        &&& self.commands@ == before.commands@
        &&& self.has_closed(before, id, status, elapsed_ns)
    }

    /// A request has left the books, whatever has become of the commands.
    pub open spec fn has_closed(&self, before: &EngineCore, id: RequestId, status: CompletionStatus, elapsed_ns: u64) -> bool {
        &&& self.same_setup(before)
        &&& self.same_ids(before)
        &&& self.registry@ == before.registry@.remove(id.0)
        &&& self.in_flight == before.in_flight - 1
        &&& self.counters == before.counters.finished(status, elapsed_ns)
    }

    /// Takes a request out of the books.
    fn close_request(&mut self, id: RequestId, status: CompletionStatus, elapsed_ns: u64)
        requires
            old(self).wf(),
            old(self).in_flight > 0,
        ensures
            final(self).is_after_finish(old(self), id, status, elapsed_ns),
    {
        broadcast use vstd::std_specs::hash::group_hash_axioms;

        self.registry.remove(&id.0);
        let mut counters = self.counters;
        counters.completed = counters.completed.wrapping_add(1);
        match status {
            CompletionStatus::Completed => {},
            CompletionStatus::Cancelled => {
                counters.cancelled = counters.cancelled.wrapping_add(1);
            },
            CompletionStatus::Failed(_) => {
                counters.errors = counters.errors.wrapping_add(1);
            },
        }
        counters.completion_ns = counters.completion_ns.saturating_add(elapsed_ns);
        self.counters = counters;
        self.in_flight = self.in_flight - 1;
    }

    /// Ends a request; its buffer goes back to its owner.
    pub fn finish(&mut self, task: Task, status: CompletionStatus, bytes_transferred: usize, elapsed_ns: u64) -> (completion:
        IoCompletion)
        requires
            old(self).wf(),
            old(self).in_flight > 0,
        ensures
            final(self).is_after_finish(old(self), task.request_id, status, elapsed_ns),
            completion == (IoCompletion {
                request_id: task.request_id,
                kind: task.operation.kind_of(),
                status,
                bytes_transferred,
                buffer: task.operation.buffer_of(),
            }),
    {
        self.close_request(task.request_id, status, elapsed_ns);
        let kind = task.operation.kind();
        let request_id = task.request_id;
        IoCompletion { request_id, kind, status, bytes_transferred, buffer: task.operation.into_buffer() }
    }

    /// Ends a request without giving back a buffer whose kernel lifetime could
    /// not be fenced by its target completion. The caller keeps the withheld
    /// buffer alive for good: losing at most the engine's bounded queue depth is
    /// preferable to returning an allocation that the kernel might still access.
    pub fn finish_quarantined(&mut self, task: Task, status: CompletionStatus, bytes_transferred: usize, elapsed_ns: u64) -> (parts: (
        IoCompletion,
        Option<IoBuffer>,
    ))
        requires
            old(self).wf(),
            old(self).in_flight > 0,
        ensures
            final(self).is_after_finish(old(self), task.request_id, status, elapsed_ns),
            parts.0 == (IoCompletion {
                request_id: task.request_id,
                kind: task.operation.kind_of(),
                status,
                bytes_transferred,
                buffer: None,
            }),
            parts.1 == task.operation.buffer_of(),
    {
        self.close_request(task.request_id, status, elapsed_ns);
        let kind = task.operation.kind();
        let request_id = task.request_id;
        (IoCompletion { request_id, kind, status, bytes_transferred, buffer: None }, task.operation.into_buffer())
    }

    /// A failed driver could not fence an issued write or flush. The cache must
    /// retain its exclusive file lock for process lifetime.
    pub fn mark_unfenced_mutations(&mut self)
        ensures
            final(self).unfenced_mutations,
            *final(self) == (EngineCore { unfenced_mutations: true, ..*old(self) }),
    {
        self.unfenced_mutations = true;
    }

    /// Whether an issued write or flush could not be fenced.
    pub fn has_unfenced_mutations(&self) -> (unfenced: bool)
        ensures
            unfenced == self.unfenced_mutations,
    {
        self.unfenced_mutations
    }

    /// No request is accepted any more.
    pub fn stop_accepting(&mut self)
        ensures
            *final(self) == (EngineCore { accepting: false, ..*old(self) }),
    {
        self.accepting = false;
    }

    /// The first to shut the engine down leads; others wait or see the result.
    pub open spec fn shutdown_begun(self, after: EngineCore, step: ShutdownStep) -> bool {
        match self.phase {
            ShutdownPhase::Running => {
                &&& step is Lead
                &&& after == (EngineCore { accepting: false, phase: ShutdownPhase::Draining, ..self })
            },
            ShutdownPhase::Draining => step is Wait && after == self,
            ShutdownPhase::Stopped(fault) => step == ShutdownStep::Stopped(fault) && after == self,
        }
    }

    /// Starts shutdown, or tells what somebody else's has come to. The first
    /// caller stops the engine from accepting requests and leads.
    pub fn begin_shutdown(&mut self) -> (step: ShutdownStep)
        requires
            old(self).wf(),
        ensures
            final(self).wf(),
            old(self).shutdown_begun(*final(self), step),
    {
        match self.phase {
            ShutdownPhase::Running => {
                self.phase = ShutdownPhase::Draining;
                self.accepting = false;
                ShutdownStep::Lead
            },
            ShutdownPhase::Draining => ShutdownStep::Wait,
            ShutdownPhase::Stopped(fault) => ShutdownStep::Stopped(fault),
        }
    }

    /// Ends shutdown with what the drivers reported. A driver that was gone
    /// before shutdown counts first, then the first driver that failed.
    pub fn finish_shutdown(&mut self, results: &[Result<(), IoFault>]) -> (result: Result<(), IoFault>)
        requires
            old(self).wf(),
        ensures
            final(self).wf(),
            *final(self) == (EngineCore {
                phase: ShutdownPhase::Stopped(
                    match result {
                        Ok(_) => None,
                        Err(fault) => Some(fault),
                    },
                ),
                ..*old(self)
            }),
            if !old(self).driver_alive {
                &&& result is Err
                &&& result->Err_0@ == IoFaultModel::plain(
                    IoErrorKind::BrokenPipe,
                    "I/O driver stopped before shutdown"@,
                )
            } else {
                match result {
                    Ok(_) => forall|k: int| 0 <= k < results@.len() ==> (#[trigger] results@[k]) is Ok,
                    Err(fault) => exists|k: int|
                        {
                            &&& 0 <= k < results@.len()
                            &&& #[trigger] results@[k] == Err::<(), IoFault>(fault)
                            &&& forall|j: int| 0 <= j < k ==> (#[trigger] results@[j]) is Ok
                        },
                }
            },
    {
        if !self.driver_alive {
            let fault = IoFault::new(IoErrorKind::BrokenPipe, "I/O driver stopped before shutdown");
            self.phase = ShutdownPhase::Stopped(Some(fault));
            return Err(fault);
        }
        let mut index: usize = 0;
        let mut found: Option<IoFault> = None;
        while index < results.len() && found.is_none()
            invariant
                index <= results@.len(),
                found is None ==> forall|k: int| 0 <= k < index ==> (#[trigger] results@[k]) is Ok,
                found matches Some(fault) ==> {
                    &&& 0 < index
                    &&& results@[index - 1] == Err::<(), IoFault>(fault)
                    &&& forall|j: int| 0 <= j < index - 1 ==> (#[trigger] results@[j]) is Ok
                },
            decreases results@.len() - index,
        {
            if let Err(fault) = results[index] {
                found = Some(fault);
            }
            index = index + 1;
        }
        self.phase = ShutdownPhase::Stopped(found);
        match found {
            Some(fault) => Err(fault),
            None => Ok(()),
        }
    }

    /// The counters, with those of the descriptors left at zero.
    pub fn snapshot(&self) -> (stats: IoEngineStats)
        requires
            self.wf(),
        ensures
            stats == (IoEngineStats {
                submitted: self.counters.submitted,
                completed: self.counters.completed,
                cancel_requested: self.counters.cancel_requested,
                cancelled: self.counters.cancelled,
                errors: self.counters.errors,
                in_flight: self.in_flight as u64,
                in_flight_peak: self.counters.in_flight_peak as u64,
                submit_wait_ns: self.counters.submit_wait_ns,
                completion_ns: self.counters.completion_ns,
                direct_operations: 0,
                direct_bytes: 0,
                buffered_operations: 0,
                buffered_bytes: 0,
            }),
    {
        IoEngineStats {
            submitted: self.counters.submitted,
            completed: self.counters.completed,
            cancel_requested: self.counters.cancel_requested,
            cancelled: self.counters.cancelled,
            errors: self.counters.errors,
            in_flight: self.in_flight as u64,
            in_flight_peak: self.counters.in_flight_peak as u64,
            submit_wait_ns: self.counters.submit_wait_ns,
            completion_ns: self.counters.completion_ns,
            direct_operations: 0,
            direct_bytes: 0,
            buffered_operations: 0,
            buffered_bytes: 0,
        }
    }
}

/// The identifier's bits of a number are those of the counter that stands for it.
proof fn lemma_residue(number: int, counter: int)
    requires
        0 <= number,
        counter == number % 0x1_0000_0000_0000_0000,
    ensures
        counter % 0x4000_0000_0000_0000 == number % 0x4000_0000_0000_0000,
{
    let rounds = number / 0x1_0000_0000_0000_0000;
    let low = counter / 0x4000_0000_0000_0000;
    let rest = counter % 0x4000_0000_0000_0000;
    assert(number == rounds * 0x1_0000_0000_0000_0000 + counter);
    assert(counter == low * 0x4000_0000_0000_0000 + rest);
    assert(number == (rounds * 4 + low) * 0x4000_0000_0000_0000 + rest);
    vstd::arithmetic::div_mod::lemma_fundamental_div_mod_converse(number, 0x4000_0000_0000_0000, rounds * 4 + low, rest);
}

/// Identifiers tell live requests apart: the next one is not that of a live
/// request, unless so many have been issued since that they have come round.
pub proof fn law_live_identifiers_are_not_issued_again(core: EngineCore, live: u64)
    requires
        core.wf(),
        core.registry@.contains_key(live),
        core.issued@ - core.births@[live] < MAX_REQUEST_ID,
    ensures
        live != id_of(core.issued@),
{
    let born = core.births@[live] as int;
    let next = core.issued@ as int;
    assert(number_after(core.births@[live]) <= core.issued@);
    assert(0 < next - born < MAX_REQUEST_ID);
    let born_rounds = born / 0x4000_0000_0000_0000;
    let next_rounds = next / 0x4000_0000_0000_0000;
    assert(born == born_rounds * 0x4000_0000_0000_0000 + born % 0x4000_0000_0000_0000);
    assert(next == next_rounds * 0x4000_0000_0000_0000 + next % 0x4000_0000_0000_0000);
}

/// A request that has ended can no longer be cancelled.
pub proof fn law_finished_requests_cannot_be_cancelled(
    before: EngineCore,
    after: EngineCore,
    id: RequestId,
    status: CompletionStatus,
    elapsed_ns: u64,
)
    requires
        after.is_after_finish(&before, id, status, elapsed_ns),
    ensures
        !after.registry@.contains_key(id.0),
        !after.cancel_wanted(id.0),
{
}

/// The queue depth is a hard bound: requests in flight and their peak never
/// exceed it.
pub proof fn law_queue_depth_is_a_hard_bound(core: EngineCore)
    requires
        core.wf(),
    ensures
        core.in_flight <= core.queue_depth <= MAX_IO_QUEUE_DEPTH,
        core.counters.in_flight_peak <= core.queue_depth,
{
}

/// A submission is accepted exactly if the engine accepts requests, the driver
/// runs, fewer requests are in flight than the queue is deep, the command queue
/// has room, and a controlled one is neither cancelled nor late.
pub proof fn law_accepted_submissions(core: EngineCore, mode: SubmitMode)
    requires
        core.wf(),
    ensures
        core.submit_fault(mode) is None && core.has_room() <==> {
            &&& core.accepting
            &&& core.driver_alive
            &&& core.in_flight < core.queue_depth
            &&& core.commands@.len() < 2 * core.queue_depth + 1
            &&& mode matches SubmitMode::Controlled { cancelled, expired } ==> !cancelled && !expired
        },
        !core.accepting ==> core.submit_fault(mode) is Some,
        mode is Try && core.in_flight >= core.queue_depth ==> (core.submit_fault(mode) matches Some(fault) && fault.kind is WouldBlock),
        !(mode is Try) && !core.accepting ==> (core.submit_fault(mode) matches Some(fault) && fault.kind is BrokenPipe),
        core.accepting ==> (mode matches SubmitMode::Controlled { cancelled, expired } ==> {
            &&& cancelled ==> (core.submit_fault(mode) matches Some(fault) && fault.kind is Interrupted)
            &&& expired && !cancelled ==> (core.submit_fault(mode) matches Some(fault) && fault.kind is TimedOut)
        }),
        core.accepting && mode is Wait && core.in_flight >= core.queue_depth ==> core.submit_fault(mode) is None,
{
}

/// Identifiers are never zero, stay below the driver's own marks, and one is
/// never followed by itself.
pub proof fn law_identifiers(number: nat)
    ensures
        1 <= id_of(number) <= 0x3fff_ffff_ffff_ffff,
        number < number_after(number) <= number + 2,
        id_of(number_after(number)) != id_of(number),
        number as int % 0x4000_0000_0000_0000 != 0 ==> id_of(number) == number as int % 0x4000_0000_0000_0000 && number_after(number)
            == number + 1,
{
    let modulus = 0x4000_0000_0000_0000int;
    let quotient = number as int / modulus;
    let residue = number as int % modulus;
    if residue == 0 {
        vstd::arithmetic::div_mod::lemma_fundamental_div_mod_converse((number + 2) as int, modulus, quotient, 2);
    } else if residue == modulus - 1 {
        vstd::arithmetic::div_mod::lemma_fundamental_div_mod_converse((number + 1) as int, modulus, quotient + 1, 0);
    } else {
        vstd::arithmetic::div_mod::lemma_fundamental_div_mod_converse((number + 1) as int, modulus, quotient, residue + 1);
    }
}

/// A request that ends is counted once as completed, once as cancelled or failed
/// if it was, and with its time; nothing else is counted.
pub proof fn law_ended_requests_are_counted(counters: EngineCounters, status: CompletionStatus, elapsed_ns: u64)
    ensures
        ({
            let after = counters.finished(status, elapsed_ns);
            &&& after.completed == (counters.completed + 1) % 0x1_0000_0000_0000_0000
            &&& after.cancelled == (counters.cancelled + (if status == CompletionStatus::Cancelled { 1int } else { 0int }))
                % 0x1_0000_0000_0000_0000
            &&& after.errors == (counters.errors + (match status {
                CompletionStatus::Failed(_) => 1int,
                _ => 0int,
            })) % 0x1_0000_0000_0000_0000
            &&& counters.completion_ns + elapsed_ns <= u64::MAX ==> after.completion_ns == counters.completion_ns + elapsed_ns
            &&& counters.completion_ns + elapsed_ns > u64::MAX ==> after.completion_ns == u64::MAX
            &&& after.submitted == counters.submitted
            &&& after.cancel_requested == counters.cancel_requested
            &&& after.in_flight_peak == counters.in_flight_peak
            &&& after.submit_wait_ns == counters.submit_wait_ns
        }),
{
}

/// What has been submitted has ended or is in flight.
pub proof fn law_submitted_requests_are_accounted_for(core: EngineCore)
    requires
        core.wf(),
    ensures
        core.counters.submitted == (core.counters.completed + core.in_flight) % 0x1_0000_0000_0000_0000,
        core.in_flight <= core.counters.in_flight_peak,
{
}

/// The peak is the highest number that was ever in flight.
pub proof fn law_peak_is_the_highest(counters: EngineCounters, in_flight: int)
    requires
        0 <= in_flight <= usize::MAX,
    ensures
        counters.peaked(in_flight).in_flight_peak >= in_flight,
        counters.peaked(in_flight).in_flight_peak >= counters.in_flight_peak,
        counters.peaked(in_flight).in_flight_peak == in_flight || counters.peaked(in_flight).in_flight_peak == counters.in_flight_peak,
        counters.peaked(in_flight).submitted == counters.submitted,
        counters.peaked(in_flight).completed == counters.completed,
{
}

/// A request that ends leaves the registry, and no other request does.
pub proof fn law_ended_request_leaves_the_books(
    before: EngineCore,
    after: EngineCore,
    id: RequestId,
    status: CompletionStatus,
    elapsed_ns: u64,
    other: u64,
)
    requires
        after.is_after_finish(&before, id, status, elapsed_ns),
    ensures
        !after.registry@.contains_key(id.0),
        other != id.0 ==> (after.registry@.contains_key(other) <==> before.registry@.contains_key(other)),
        other != id.0 && before.registry@.contains_key(other) ==> after.registry@[other] == before.registry@[other],
        after.in_flight == before.in_flight - 1,
        after.commands@ == before.commands@,
        after.accepting == before.accepting,
        after.next_request_id == before.next_request_id,
{
}

/// What an operation transfers, and where.
pub proof fn law_operations(operation: IoOperation)
    ensures
        match operation {
            IoOperation::Read { buffer, offset } => {
                &&& operation.kind_of() is Read
                &&& operation.length_of() == buffer@.len()
                &&& operation.offset_of() == offset
                &&& operation.buffer_of() == Some(buffer)
                &&& !operation.kind_of().mutates()
            },
            IoOperation::Write { buffer, offset, .. } => {
                &&& operation.kind_of() is Write
                &&& operation.length_of() == buffer@.len()
                &&& operation.offset_of() == offset
                &&& operation.buffer_of() == Some(buffer)
                &&& operation.kind_of().mutates()
            },
            IoOperation::Flush { .. } => {
                &&& operation.kind_of() is Flush
                &&& operation.length_of() == 0
                &&& operation.buffer_of() is None
                &&& operation.kind_of().mutates()
            },
        },
        operation.valid() <==> operation.offset_of() + operation.length_of() <= 0xffff_ffff_ffff_ffff,
{
}

/// A buffer starts at the first aligned address of its allocation.
pub proof fn law_buffers_are_aligned(base: usize)
    ensures
        0 <= aligned_start(base) < 4096,
        (base + aligned_start(base)) % 4096 == 0,
{
}

/// What a submission that is turned away is told.
pub proof fn law_refusals_say_why(accepting: bool, room: bool, cancelled: bool, expired: bool)
    ensures
        admission_fault(SubmitMode::Try, accepting, room) == if room {
            None
        } else {
            Some(IoFaultModel { kind: IoErrorKind::WouldBlock, raw_os_error: None, message: "I/O queue is full"@ })
        },
        admission_fault(SubmitMode::Wait, accepting, room) == if accepting {
            None
        } else {
            Some(IoFaultModel { kind: IoErrorKind::BrokenPipe, raw_os_error: None, message: "I/O engine is shut down"@ })
        },
        admission_fault(SubmitMode::Controlled { cancelled, expired }, accepting, room) is None <==> accepting && !cancelled && !expired,
        !accepting ==> admission_fault(SubmitMode::Controlled { cancelled, expired }, accepting, room) == Some(
            IoFaultModel { kind: IoErrorKind::BrokenPipe, raw_os_error: None, message: "I/O engine is shut down"@ },
        ),
        accepting && cancelled ==> admission_fault(SubmitMode::Controlled { cancelled, expired }, accepting, room) == Some(
            IoFaultModel { kind: IoErrorKind::Interrupted, raw_os_error: None, message: "I/O admission wait was cancelled"@ },
        ),
        accepting && !cancelled && expired ==> admission_fault(SubmitMode::Controlled { cancelled, expired }, accepting, room) == Some(
            IoFaultModel { kind: IoErrorKind::TimedOut, raw_os_error: None, message: "I/O admission deadline expired"@ },
        ),
{
}

/// An admission that is lost on the way leaves the queue and the counts as they
/// were, but for the peak, and its identifier is not issued again.
pub proof fn law_lost_admission_leaves_nothing_behind(before: EngineCore, after: EngineCore)
    requires
        after.is_after_lost_admission(&before),
    ensures
        after.commands@ == before.commands@,
        after.in_flight == before.in_flight,
        after.counters.completed == before.counters.completed,
        after.counters.errors == before.counters.errors,
        after.counters.cancelled == before.counters.cancelled,
        after.counters.submitted == before.counters.submitted,
        before.accepting ==> after.issued@ > before.issued@,
        forall|id: u64| #[trigger] after.registry@.contains_key(id) ==> before.registry@.contains_key(id),
{
    law_identifiers(before.issued@);
}

/// A valid request is queued behind the others exactly if it is admitted and
/// there is room; it then gets an identifier of its own, is registered as not
/// cancelled, and is counted as submitted and in flight. A request that waits
/// or is refused comes back whole, and is not queued.
pub proof fn law_submissions(
    before: EngineCore,
    operation: IoOperation,
    mode: SubmitMode,
    submitted_ns: u64,
    waited_ns: u64,
    after: EngineCore,
    outcome: SubmitOutcome,
)
    requires
        before.wf(),
        before.submission(operation, mode, submitted_ns, waited_ns, after, outcome),
    ensures
        ({
            let fits = operation.offset_of() + operation.length_of() <= u64::MAX;
            let room = before.in_flight < before.queue_depth;
            &&& outcome is Accepted <==> fits && before.submit_fault(mode) is None && room
            &&& outcome is Wait <==> fits && before.submit_fault(mode) is None && !room
            &&& outcome matches SubmitOutcome::Accepted(id) ==> {
                &&& 1 <= id.0 < 0x4000_0000_0000_0000
                &&& after.in_flight == before.in_flight + 1
                &&& after.counters.submitted as int == (before.counters.submitted + 1) % 0x1_0000_0000_0000_0000
                &&& after.counters.in_flight_peak >= after.in_flight
                &&& before.counters.submit_wait_ns + waited_ns <= u64::MAX ==> after.counters.submit_wait_ns
                    == before.counters.submit_wait_ns + waited_ns
                &&& after.counters.completed == before.counters.completed
                &&& after.commands@.len() == before.commands@.len() + 1
                &&& after.commands@.drop_last() == before.commands@
                &&& after.commands@.last() matches DriverCommand::Submit(task) && task.request_id == id && task.operation == operation
                    && task.submitted_ns == submitted_ns
                &&& after.registry@.contains_key(id.0) && !after.registry@[id.0].cancel_requested
                    && !after.registry@[id.0].cancel_notified
                &&& forall|other: u64| other != id.0 ==> (#[trigger] after.registry@.contains_key(other)
                    <==> before.registry@.contains_key(other))
            }
            &&& outcome matches SubmitOutcome::Wait(returned) ==> returned == operation && after == before
            &&& outcome matches SubmitOutcome::Refused(refused) ==> {
                &&& refused.operation == operation
                &&& after.commands@ == before.commands@ && after.in_flight == before.in_flight
                &&& after.counters.submitted == before.counters.submitted
                &&& !fits ==> refused.error.kind is InvalidInput && after == before
            }
        }),
{
    law_identifiers(before.issued@);
    if outcome is Accepted {
        let task = Task { request_id: outcome->Accepted_0, operation, submitted_ns };
        assert(before.commands@.push(DriverCommand::Submit(task)).drop_last() =~= before.commands@);
    }
    if outcome is Refused {
        assert(outcome->Refused_0.error@.kind == outcome->Refused_0.error.kind);
    }
}

/// A cancel is heard exactly of a registered request. It is counted the first
/// time only, the driver is told the first time only, and nothing is undone by
/// asking again.
pub proof fn law_cancellations(before: EngineCore, id: RequestId, after: EngineCore, result: Result<bool, IoFault>)
    requires
        before.cancellation(id, after, result),
    ensures
        ({
            let known = before.registry@.contains_key(id.0);
            let told = before.registry@[id.0].cancel_notified;
            let asked = before.registry@[id.0].cancel_requested;
            &&& result matches Ok(found) ==> found == known
            &&& !known ==> result is Ok && after == before
            &&& known ==> {
                &&& result is Err <==> !told && !before.driver_alive
                &&& result matches Err(fault) ==> fault.kind is BrokenPipe
                &&& after.registry@[id.0].cancel_requested && after.registry@[id.0].cancel_notified
                &&& after.cancel_wanted(id.0)
                &&& forall|other: u64|
                    other != id.0 ==> (#[trigger] after.registry@.contains_key(other) <==> before.registry@.contains_key(other))
                        && after.registry@[other] == before.registry@[other]
                &&& after.counters.cancel_requested as int == (before.counters.cancel_requested + if asked { 0int } else { 1int })
                    % 0x1_0000_0000_0000_0000
                &&& after.counters.submitted == before.counters.submitted && after.counters.completed == before.counters.completed
                &&& told || !before.driver_alive || before.commands@.len() >= 2 * before.queue_depth + 1 ==> after.commands@
                    == before.commands@
                &&& !told && before.driver_alive && before.commands@.len() < 2 * before.queue_depth + 1 ==> after.commands@
                    == before.commands@ + seq![DriverCommand::Cancel(id)]
            }
        }),
{
    assert(before.commands@.push(DriverCommand::Cancel(id)) =~= before.commands@ + seq![DriverCommand::Cancel(id)]);
    if result is Err {
        assert(result->Err_0@.kind == result->Err_0.kind);
    }
}

/// Only the first to shut a running engine down leads, and from then on nothing
/// more is accepted; the others change nothing.
pub proof fn law_one_leads_the_shutdown(before: EngineCore, after: EngineCore, step: ShutdownStep)
    requires
        before.shutdown_begun(after, step),
    ensures
        step is Lead <==> before.phase is Running,
        step is Wait <==> before.phase is Draining,
        before.phase matches ShutdownPhase::Stopped(fault) ==> step == ShutdownStep::Stopped(fault),
        step is Lead ==> !after.accepting && after.phase is Draining,
        !(step is Lead) ==> after == before,
        after.commands@ == before.commands@ && after.in_flight == before.in_flight && after.registry@ == before.registry@,
        after.counters == before.counters && after.driver_alive == before.driver_alive,
        forall|later: EngineCore, next: ShutdownStep| #[trigger] after.shutdown_begun(later, next) ==> !(next is Lead) && later == after,
{
}

} // verus!
