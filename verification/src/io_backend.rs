//! Decisions of synchronous positioned I/O: which descriptor a request goes
//! to, when an interrupted or short transfer is retried, and when direct I/O
//! gives way to buffered I/O.
//!
//! The system calls themselves are the caller's. It performs what is asked of
//! it and reports what came of it.

use vstd::prelude::*;

verus! {

/// Alignment that direct I/O asks of address, length and offset.
pub const DIRECT_IO_ALIGNMENT: usize = 4096;

/// How often an interrupted call is repeated.
pub const MAX_INTERRUPTED_RETRIES: usize = 4;

/// How the data file is opened.
#[derive(Clone, Copy, Debug, PartialEq, Eq, Structural)]
pub enum IoMode {
    /// Direct I/O where it is available.
    Auto,
    /// Buffered I/O only.
    Buffered,
    /// Direct I/O or nothing.
    Direct,
}

/// The descriptor that a request goes to.
#[derive(Clone, Copy, Debug, PartialEq, Eq, Structural)]
pub enum RuntimeIoPath {
    Buffered,
    Direct,
}

/// What a write is for.
#[derive(Clone, Copy, Debug, PartialEq, Eq, Structural)]
pub enum WritePoint {
    Record,
    DataSuperblock,
    State,
    RecoveryImageHeader,
    RecoveryImageIndex,
    RecoveryImageMetadata,
}

/// What a durability barrier is for.
#[derive(Clone, Copy, Debug, PartialEq, Eq, Structural)]
pub enum SyncPoint {
    FormatTruncate,
    FormatData,
    StateReset,
    RunningState,
    ExplicitFlush,
    WarmData,
    RecoveryImage,
    CleanState,
}

/// What a durability barrier covers.
#[derive(Clone, Copy, Debug, PartialEq, Eq, Structural)]
pub enum SyncMode {
    Data,
    All,
}

/// What a system call failed with, as far as it matters here.
#[derive(Clone, Copy, Debug, PartialEq, Eq, Structural)]
pub enum IoErrorKind {
    InvalidInput,
    InvalidData,
    WouldBlock,
    BrokenPipe,
    Interrupted,
    TimedOut,
    UnexpectedEof,
    WriteZero,
    Unsupported,
    PermissionDenied,
    Other,
}

/// An error of the engine or of a system call.
#[derive(Clone, Copy, Debug, PartialEq, Eq)]
pub struct IoFault {
    pub kind: IoErrorKind,
    pub raw_os_error: Option<i32>,
    pub message: &'static str,
}

/// An error with its message as text.
pub struct IoFaultModel {
    pub kind: IoErrorKind,
    pub raw_os_error: Option<i32>,
    pub message: Seq<char>,
}

impl View for IoFault {
    type V = IoFaultModel;

    open spec fn view(&self) -> IoFaultModel {
        IoFaultModel { kind: self.kind, raw_os_error: self.raw_os_error, message: self.message@ }
    }
}

impl IoFaultModel {
    /// An error that no system call reported.
    pub open spec fn plain(kind: IoErrorKind, message: Seq<char>) -> IoFaultModel {
        IoFaultModel { kind, raw_os_error: None, message }
    }
}

impl IoFault {
    /// An error that no system call reported.
    pub fn new(kind: IoErrorKind, message: &'static str) -> (fault: IoFault)
        ensures
            fault@ == IoFaultModel::plain(kind, message@),
    {
        IoFault { kind, raw_os_error: None, message }
    }
}

// ---------------------------------------------------------------------------
// Direct I/O
// ---------------------------------------------------------------------------

/// Address, length and offset of a request all allow direct I/O.
pub open spec fn direct_aligned(address: usize, length: usize, offset: u64) -> bool {
    &&& address != 0
    &&& address as int % (DIRECT_IO_ALIGNMENT as int) == 0
    &&& length != 0
    &&& length as int % (DIRECT_IO_ALIGNMENT as int) == 0
    &&& offset as int % (DIRECT_IO_ALIGNMENT as int) == 0
}

/// Whether address, length and offset of a request all allow direct I/O.
pub fn direct_io_aligned(address: usize, length: usize, offset: u64) -> (aligned: bool)
    ensures
        aligned == direct_aligned(address, length, offset),
{
    address != 0 && address % DIRECT_IO_ALIGNMENT == 0 && length != 0 && length % DIRECT_IO_ALIGNMENT == 0 && offset % (
    DIRECT_IO_ALIGNMENT as u64) == 0
}

/// An error that means the file or the system does not do direct I/O.
pub open spec fn direct_unavailable(kind: IoErrorKind, raw_os_error: Option<i32>, unsupported_codes: Seq<i32>) -> bool {
    ||| kind is Unsupported || kind is InvalidInput || kind is PermissionDenied
    ||| raw_os_error matches Some(code) && unsupported_codes.contains(code)
}

/// Whether an error means that the file or the system does not do direct I/O.
/// The caller names the platform's error numbers for that.
pub fn direct_io_unavailable(kind: IoErrorKind, raw_os_error: Option<i32>, unsupported_codes: &[i32]) -> (unavailable: bool)
    ensures
        unavailable == direct_unavailable(kind, raw_os_error, unsupported_codes@),
{
    match kind {
        IoErrorKind::Unsupported | IoErrorKind::InvalidInput | IoErrorKind::PermissionDenied => {
            return true;
        },
        _ => {},
    }
    let code: i32 = match raw_os_error {
        Some(code) => code,
        None => {
            return false;
        },
    };
    let mut index: usize = 0;
    while index < unsupported_codes.len()
        invariant
            index <= unsupported_codes@.len(),
            raw_os_error == Some(code),
            !(kind is Unsupported || kind is InvalidInput || kind is PermissionDenied),
            forall|k: int| 0 <= k < index ==> unsupported_codes@[k] != code,
        decreases unsupported_codes@.len() - index,
    {
        if unsupported_codes[index] == code {
            assert(unsupported_codes@[index as int] == code);
            return true;
        }
        index = index + 1;
    }
    false
}

/// What becomes of opening a file once its direct descriptor was tried.
#[derive(Clone, Copy, Debug, PartialEq, Eq, Structural)]
pub enum DirectOpen {
    /// Both descriptors are there.
    WithDirect,
    /// The file is used without direct I/O.
    BufferedOnly,
    /// The file is not opened.
    Failed,
}

/// Decides what becomes of opening a file. `direct` says whether the direct
/// descriptor was opened, and if not, whether direct I/O is just unavailable.
pub fn finish_direct_open(mode: IoMode, direct: Result<(), bool>) -> (opened: DirectOpen)
    ensures
        opened == (if mode == IoMode::Buffered {
            DirectOpen::BufferedOnly
        } else {
            match direct {
                Ok(_) => DirectOpen::WithDirect,
                Err(unavailable) => if mode == IoMode::Auto && unavailable {
                    DirectOpen::BufferedOnly
                } else {
                    DirectOpen::Failed
                },
            }
        }),
{
    if mode == IoMode::Buffered {
        return DirectOpen::BufferedOnly;
    }
    match direct {
        Ok(_) => DirectOpen::WithDirect,
        Err(unavailable) => if mode == IoMode::Auto && unavailable {
            DirectOpen::BufferedOnly
        } else {
            DirectOpen::Failed
        },
    }
}

/// What went where.
#[derive(Clone, Copy, Debug, PartialEq, Eq, Structural)]
pub struct DirectIoStats {
    pub direct_active: bool,
    pub direct_operations: u64,
    pub direct_bytes: u64,
    pub buffered_operations: u64,
    pub buffered_bytes: u64,
}

impl Default for DirectIoStats {
    fn default() -> (stats: DirectIoStats)
        ensures
            stats == (DirectIoStats {
                direct_active: false,
                direct_operations: 0,
                direct_bytes: 0,
                buffered_operations: 0,
                buffered_bytes: 0,
            }),
    {
        DirectIoStats { direct_active: false, direct_operations: 0, direct_bytes: 0, buffered_operations: 0, buffered_bytes: 0 }
    }
}

/// `counter + amount`, starting over at the end of the range.
pub open spec fn rolled(counter: u64, amount: u64) -> u64 {
    if counter + amount <= u64::MAX {
        (counter + amount) as u64
    } else {
        (counter + amount - 0x1_0000_0000_0000_0000) as u64
    }
}

/// The descriptors of one cache file, as far as routing goes. The buffered one
/// is always there; the direct one is used only for aligned runtime data
/// requests, and no longer once it has turned out not to work.
#[derive(Clone, Copy, Debug, PartialEq, Eq, Structural)]
pub struct RuntimeFileSet {
    pub has_direct: bool,
    pub direct_required: bool,
    pub statistics_enabled: bool,
    pub stats: DirectIoStats,
}

impl RuntimeFileSet {
    /// Where a request goes. Malformed direct I/O is never issued: unaligned
    /// record fragments and an unaligned remainder after a positive short
    /// completion use the buffered path in every mode.
    pub open spec fn path_for(self, address: usize, length: usize, offset: u64, allow_direct: bool) -> RuntimeIoPath {
        if allow_direct && self.has_direct && self.stats.direct_active && direct_aligned(address, length, offset) {
            RuntimeIoPath::Direct
        } else {
            RuntimeIoPath::Buffered
        }
    }

    /// A failed request is repeated on the buffered descriptor.
    pub open spec fn falls_back(self, path: RuntimeIoPath, unavailable: bool) -> bool {
        path == RuntimeIoPath::Direct && !self.direct_required && unavailable
    }

    /// The set once direct I/O has been given up.
    pub open spec fn without_direct(self) -> RuntimeFileSet {
        RuntimeFileSet { stats: DirectIoStats { direct_active: false, ..self.stats }, ..self }
    }

    /// The set once a transfer has been counted.
    pub open spec fn counted(self, path: RuntimeIoPath, length: u64) -> RuntimeFileSet {
        if !self.statistics_enabled {
            self
        } else {
            RuntimeFileSet {
                stats: match path {
                    RuntimeIoPath::Direct => DirectIoStats {
                        direct_operations: rolled(self.stats.direct_operations, 1),
                        direct_bytes: rolled(self.stats.direct_bytes, length),
                        ..self.stats
                    },
                    RuntimeIoPath::Buffered => DirectIoStats {
                        buffered_operations: rolled(self.stats.buffered_operations, 1),
                        buffered_bytes: rolled(self.stats.buffered_bytes, length),
                        ..self.stats
                    },
                },
                ..self
            }
        }
    }

    /// A file with only the buffered descriptor.
    pub fn buffered() -> (files: RuntimeFileSet)
        ensures
            !files.has_direct,
            !files.direct_required,
            files.statistics_enabled,
            !files.stats.direct_active,
            files.stats.direct_operations == 0 && files.stats.direct_bytes == 0,
            files.stats.buffered_operations == 0 && files.stats.buffered_bytes == 0,
    {
        RuntimeFileSet::with_mode(false, IoMode::Auto)
    }

    /// A file with or without the direct descriptor.
    pub fn with_mode(has_direct: bool, mode: IoMode) -> (files: RuntimeFileSet)
        ensures
            files.has_direct == has_direct,
            files.direct_required == (mode == IoMode::Direct),
            files.statistics_enabled,
            files.stats.direct_active == has_direct,
            files.stats.direct_operations == 0 && files.stats.direct_bytes == 0,
            files.stats.buffered_operations == 0 && files.stats.buffered_bytes == 0,
    {
        RuntimeFileSet {
            has_direct,
            direct_required: mode == IoMode::Direct,
            statistics_enabled: true,
            stats: DirectIoStats {
                direct_active: has_direct,
                direct_operations: 0,
                direct_bytes: 0,
                buffered_operations: 0,
                buffered_bytes: 0,
            },
        }
    }

    /// Picks the descriptor for a request.
    pub fn select_path(&self, address: usize, length: usize, offset: u64, allow_direct: bool) -> (path: RuntimeIoPath)
        ensures
            path == self.path_for(address, length, offset, allow_direct),
    {
        if !allow_direct || !self.has_direct || !self.stats.direct_active {
            return RuntimeIoPath::Buffered;
        }
        if direct_io_aligned(address, length, offset) {
            RuntimeIoPath::Direct
        } else {
            RuntimeIoPath::Buffered
        }
    }

    /// Counts a transfer.
    pub fn record(&mut self, path: RuntimeIoPath, length: usize)
        ensures
            *final(self) == old(self).counted(path, length as u64),
    {
        if !self.statistics_enabled {
            return;
        }
        let bytes = length as u64;
        match path {
            RuntimeIoPath::Direct => {
                self.stats.direct_operations = self.stats.direct_operations.wrapping_add(1);
                self.stats.direct_bytes = self.stats.direct_bytes.wrapping_add(bytes);
            },
            RuntimeIoPath::Buffered => {
                self.stats.buffered_operations = self.stats.buffered_operations.wrapping_add(1);
                self.stats.buffered_bytes = self.stats.buffered_bytes.wrapping_add(bytes);
            },
        }
    }

    /// Decides whether a failed request is repeated on the buffered descriptor;
    /// if so, direct I/O is given up.
    pub fn should_fallback(&mut self, path: RuntimeIoPath, unavailable: bool) -> (fallback: bool)
        ensures
            fallback == old(self).falls_back(path, unavailable),
            *final(self) == if fallback {
                old(self).without_direct()
            } else {
                *old(self)
            },
    {
        let fallback = path == RuntimeIoPath::Direct && !self.direct_required && unavailable;
        if fallback {
            self.stats.direct_active = false;
        }
        fallback
    }

    /// Switches the counters on or off.
    pub fn set_statistics_enabled(&mut self, enabled: bool)
        ensures
            *final(self) == (RuntimeFileSet { statistics_enabled: enabled, ..*old(self) }),
    {
        self.statistics_enabled = enabled;
    }

    /// The counters.
    pub fn snapshot(&self) -> (stats: DirectIoStats)
        ensures
            stats == self.stats,
    {
        self.stats
    }

    /// Takes in what came of one positioned call on `path`: the number of
    /// transferred bytes, or a failure with or without direct I/O being
    /// unavailable. `true` asks for the same call on the buffered descriptor.
    pub fn settle(&mut self, path: RuntimeIoPath, outcome: Result<usize, bool>) -> (repeat: bool)
        ensures
            repeat == (outcome matches Err(unavailable) && old(self).falls_back(path, unavailable)),
            *final(self) == (match outcome {
                Ok(bytes) => if bytes != 0 {
                    old(self).counted(path, bytes as u64)
                } else {
                    *old(self)
                },
                Err(unavailable) => if old(self).falls_back(path, unavailable) {
                    old(self).without_direct()
                } else {
                    *old(self)
                },
            }),
    {
        match outcome {
            Ok(bytes) => {
                if bytes != 0 {
                    self.record(path, bytes);
                }
                false
            },
            Err(unavailable) => self.should_fallback(path, unavailable),
        }
    }
}

/// Whether a write may go to the direct descriptor: metadata and durability
/// controls stay on the buffered one.
pub fn allows_direct(point: WritePoint) -> (allowed: bool)
    ensures
        allowed == (point == WritePoint::Record),
{
    point == WritePoint::Record
}

// ---------------------------------------------------------------------------
// Exact transfers
// ---------------------------------------------------------------------------

/// Which way the bytes go.
#[derive(Clone, Copy, Debug, PartialEq, Eq, Structural)]
pub enum TransferDirection {
    Read,
    Write,
}

/// What came of one positioned call.
#[derive(Clone, Copy, Debug, PartialEq, Eq)]
pub enum TransferEvent {
    /// Some bytes, possibly none, were transferred.
    Transferred(usize),
    /// The call failed.
    Failed(IoFault),
}

/// What a transfer does next.
#[derive(Clone, Copy, Debug, PartialEq, Eq)]
pub enum TransferStep {
    /// Call for `length` bytes at `offset`, from byte `start` of the buffer on.
    Call { start: usize, length: usize, offset: u64 },
    /// Every byte was transferred.
    Complete,
    /// The transfer ends early.
    Failed(IoFault),
}

/// A transfer of a whole buffer, call by call. An interrupted call is repeated
/// a bounded number of times; a short one is followed by a call for the rest.
#[derive(Clone, Copy, Debug)]
pub struct ExactTransfer {
    pub direction: TransferDirection,
    pub length: usize,
    pub transferred: usize,
    pub offset: u64,
    pub retries: usize,
    pub fault: Option<IoFault>,
}

/// What a call that transferred nothing means.
pub open spec fn short_fault(direction: TransferDirection) -> IoFaultModel {
    match direction {
        TransferDirection::Read => IoFaultModel::plain(IoErrorKind::UnexpectedEof, "short positioned read"@),
        TransferDirection::Write => IoFaultModel::plain(IoErrorKind::WriteZero, "short positioned write"@),
    }
}

/// What a call that transferred more than asked for means.
pub open spec fn excess_fault(direction: TransferDirection) -> IoFaultModel {
    match direction {
        TransferDirection::Read => IoFaultModel::plain(
            IoErrorKind::InvalidData,
            "positioned read exceeds the supplied buffer"@,
        ),
        TransferDirection::Write => IoFaultModel::plain(
            IoErrorKind::InvalidData,
            "positioned write exceeds the supplied buffer"@,
        ),
    }
}

impl ExactTransfer {
    /// No more than the whole buffer was transferred, and no call was repeated
    /// more often than allowed.
    pub open spec fn wf(self) -> bool {
        &&& self.transferred <= self.length
        &&& self.retries <= MAX_INTERRUPTED_RETRIES
    }

    /// More calls are to be made.
    pub open spec fn running(self) -> bool {
        self.fault is None && self.transferred < self.length
    }

    /// A transfer of `length` bytes at `offset`.
    pub fn new(direction: TransferDirection, length: usize, offset: u64) -> (transfer: ExactTransfer)
        ensures
            transfer.wf(),
            transfer == (ExactTransfer { direction, length, transferred: 0, offset, retries: 0, fault: None }),
    {
        ExactTransfer { direction, length, transferred: 0, offset, retries: 0, fault: None }
    }

    /// What to do next.
    pub fn next(&self) -> (step: TransferStep)
        requires
            self.wf(),
        ensures
            match step {
                TransferStep::Call { start, length, offset } => {
                    &&& self.running()
                    &&& start == self.transferred
                    &&& length == self.length - self.transferred
                    &&& offset == self.offset
                },
                TransferStep::Complete => self.fault is None && self.transferred == self.length,
                TransferStep::Failed(fault) => self.fault == Some(fault),
            },
    {
        match self.fault {
            Some(fault) => TransferStep::Failed(fault),
            None => if self.transferred < self.length {
                TransferStep::Call {
                    start: self.transferred,
                    length: self.length - self.transferred,
                    offset: self.offset,
                }
            } else {
                TransferStep::Complete
            },
        }
    }

    /// What came of a call has been taken in: a failed call is repeated or ends
    /// the transfer, a short one moves it on, and one that transferred nothing or
    /// too much ends it.
    pub open spec fn took_in(self, event: TransferEvent, after: ExactTransfer) -> bool {
        &&& after.direction == self.direction
        &&& after.length == self.length
        &&& match event {
            TransferEvent::Failed(fault) => {
                &&& after.transferred == self.transferred
                &&& after.offset == self.offset
                &&& if fault.kind is Interrupted && self.retries < MAX_INTERRUPTED_RETRIES {
                    after.fault is None && after.retries == self.retries + 1
                } else {
                    after.fault == Some(fault) && after.retries == self.retries
                }
            },
            TransferEvent::Transferred(bytes) => if bytes == 0 {
                &&& after.fault is Some
                &&& after.fault->0@ == short_fault(self.direction)
                &&& after.transferred == self.transferred
                &&& after.offset == self.offset
                &&& after.retries == self.retries
            } else if bytes > self.length - self.transferred {
                &&& after.fault is Some
                &&& after.fault->0@ == excess_fault(self.direction)
                &&& after.transferred == self.transferred
                &&& after.offset == self.offset
                &&& after.retries == self.retries
            } else {
                &&& after.transferred == self.transferred + bytes
                &&& after.retries == 0
                &&& if self.offset + bytes > u64::MAX {
                    &&& after.fault is Some
                    &&& after.fault->0@ == IoFaultModel::plain(IoErrorKind::InvalidInput, "offset overflow"@)
                    &&& after.offset == self.offset
                } else {
                    after.fault is None && after.offset == self.offset + bytes
                }
            },
        }
    }

    /// Takes in what came of a call.
    pub fn advance(&mut self, event: TransferEvent)
        requires
            old(self).wf(),
            old(self).running(),
        ensures
            final(self).wf(),
            old(self).took_in(event, *final(self)),
    {
        match event {
            TransferEvent::Failed(fault) => {
                let interrupted = match fault.kind {
                    IoErrorKind::Interrupted => true,
                    _ => false,
                };
                if interrupted && self.retries < MAX_INTERRUPTED_RETRIES {
                    self.retries = self.retries + 1;
                } else {
                    self.fault = Some(fault);
                }
            },
            TransferEvent::Transferred(bytes) => {
                if bytes == 0 {
                    self.fault = Some(
                        match self.direction {
                            TransferDirection::Read => IoFault::new(IoErrorKind::UnexpectedEof, "short positioned read"),
                            TransferDirection::Write => IoFault::new(IoErrorKind::WriteZero, "short positioned write"),
                        },
                    );
                    return;
                }
                if bytes > self.length - self.transferred {
                    self.fault = Some(
                        match self.direction {
                            TransferDirection::Read => IoFault::new(
                                IoErrorKind::InvalidData,
                                "positioned read exceeds the supplied buffer",
                            ),
                            TransferDirection::Write => IoFault::new(
                                IoErrorKind::InvalidData,
                                "positioned write exceeds the supplied buffer",
                            ),
                        },
                    );
                    return;
                }
                self.transferred = self.transferred + bytes;
                self.retries = 0;
                match self.offset.checked_add(bytes as u64) {
                    Some(offset) => {
                        self.offset = offset;
                    },
                    None => {
                        self.fault = Some(IoFault::new(IoErrorKind::InvalidInput, "offset overflow"));
                    },
                }
            },
        }
    }
}

/// Calls that a transfer can still make: each one brings a byte, uses up a
/// retry or ends the transfer.
pub open spec fn calls_left(transfer: ExactTransfer) -> int {
    if transfer.running() {
        (transfer.length - transfer.transferred) * (MAX_INTERRUPTED_RETRIES + 1) - transfer.retries
    } else {
        0
    }
}

/// Every call brings a transfer closer to its end, however it turns out.
pub proof fn law_transfers_end(before: ExactTransfer, after: ExactTransfer)
    requires
        before.wf(),
        before.running(),
        after.wf(),
        after.length == before.length,
        ({
            ||| after.fault is Some
            ||| after.transferred == before.transferred && after.retries == before.retries + 1
            ||| after.transferred > before.transferred && after.retries == 0
        }),
    ensures
        0 <= calls_left(after) < calls_left(before),
{
    let rest = before.length - before.transferred;
    assert(rest * 5 - before.retries > 0) by (nonlinear_arith)
        requires
            rest >= 1,
            before.retries <= 4,
    ;
    if after.running() && after.transferred > before.transferred {
        let left = after.length - after.transferred;
        assert(left * 5 < rest * 5 - before.retries) by (nonlinear_arith)
            requires
                left <= rest - 1,
                before.retries <= 4,
        ;
    }
}

/// Direct I/O is used exactly where it is allowed and there, and address, length
/// and offset are all multiples of 4096, with something to transfer.
pub proof fn law_direct_io_needs_alignment(files: RuntimeFileSet, address: usize, length: usize, offset: u64, allow_direct: bool)
    ensures
        files.path_for(address, length, offset, allow_direct) == RuntimeIoPath::Direct <==> {
            &&& allow_direct
            &&& files.has_direct
            &&& files.stats.direct_active
            &&& address > 0 && exists|k: int| address == 4096 * #[trigger] times(k)
            &&& length > 0 && exists|k: int| length == 4096 * #[trigger] times(k)
            &&& exists|k: int| offset == 4096 * #[trigger] times(k)
        },
{
    lemma_multiple(address as int);
    lemma_multiple(length as int);
    lemma_multiple(offset as int);
}

/// A number, as the factor of a product.
pub open spec fn times(count: int) -> int {
    count
}

proof fn lemma_multiple(value: int)
    ensures
        value % 4096 == 0 <==> exists|k: int| value == 4096 * #[trigger] times(k),
{
    if value % 4096 == 0 {
        assert(value == 4096 * times(value / 4096));
    }
}

/// A request is repeated without direct I/O only if it went to the direct
/// descriptor, that does not work there, and direct I/O is not required; then no
/// later request goes there.
pub proof fn law_direct_io_is_given_up_once(files: RuntimeFileSet, path: RuntimeIoPath, unavailable: bool, address: usize, length: usize, offset: u64)
    ensures
        files.falls_back(path, unavailable) <==> path is Direct && unavailable && !files.direct_required,
        files.without_direct().path_for(address, length, offset, true) is Buffered,
        files.without_direct().direct_required == files.direct_required,
        files.without_direct().has_direct == files.has_direct,
        files.without_direct().stats.direct_bytes == files.stats.direct_bytes,
        files.without_direct().stats.buffered_bytes == files.stats.buffered_bytes,
{
}

/// A transfer counts once and with its bytes, for the descriptor that it went
/// to, as long as statistics are kept; counters start over at their end.
pub proof fn law_transfers_are_counted(files: RuntimeFileSet, path: RuntimeIoPath, length: u64)
    ensures
        ({
            let after = files.counted(path, length);
            let kept = files.statistics_enabled;
            &&& after.stats.direct_operations == (files.stats.direct_operations + (if kept && path is Direct { 1int } else { 0int }))
                % 0x1_0000_0000_0000_0000
            &&& after.stats.direct_bytes == (files.stats.direct_bytes + (if kept && path is Direct { length as int } else { 0int }))
                % 0x1_0000_0000_0000_0000
            &&& after.stats.buffered_operations == (files.stats.buffered_operations + (if kept && path is Buffered { 1int } else { 0int }))
                % 0x1_0000_0000_0000_0000
            &&& after.stats.buffered_bytes == (files.stats.buffered_bytes + (if kept && path is Buffered { length as int } else { 0int }))
                % 0x1_0000_0000_0000_0000
            &&& after.stats.direct_active == files.stats.direct_active
            &&& after.has_direct == files.has_direct
            &&& after.direct_required == files.direct_required
            &&& after.statistics_enabled == files.statistics_enabled
        }),
{
}

/// A file or system does no direct I/O if it says so by the kind of its error or
/// by one of the given numbers, and for no other error.
pub proof fn law_errors_that_rule_out_direct_io(kind: IoErrorKind, raw_os_error: Option<i32>, codes: Seq<i32>)
    ensures
        kind is Unsupported || kind is InvalidInput || kind is PermissionDenied ==> direct_unavailable(kind, raw_os_error, codes),
        raw_os_error matches Some(code) && codes.contains(code) ==> direct_unavailable(kind, raw_os_error, codes),
        !(kind is Unsupported) && !(kind is InvalidInput) && !(kind is PermissionDenied) && raw_os_error is None
            ==> !direct_unavailable(kind, raw_os_error, codes),
        !(kind is Unsupported) && !(kind is InvalidInput) && !(kind is PermissionDenied) && (forall|k: int|
            0 <= k < codes.len() ==> raw_os_error != Some(#[trigger] codes[k])) ==> !direct_unavailable(kind, raw_os_error, codes),
{
    if let Some(code) = raw_os_error {
        if codes.contains(code) {
            assert(codes[codes.index_of(code)] == code);
        }
    }
}

/// A transfer that is still running has not failed and lacks bytes.
pub proof fn law_running_transfer(transfer: ExactTransfer)
    requires
        transfer.wf(),
    ensures
        transfer.running() <==> transfer.fault is None && transfer.transferred != transfer.length,
        transfer.transferred <= transfer.length,
        transfer.retries <= 4,
{
}

/// What a transfer that ends too soon, or runs over, is called.
pub proof fn law_transfer_faults(direction: TransferDirection)
    ensures
        short_fault(direction).raw_os_error is None && excess_fault(direction).raw_os_error is None,
        direction is Read ==> short_fault(direction).kind is UnexpectedEof && short_fault(direction).message == "short positioned read"@,
        direction is Write ==> short_fault(direction).kind is WriteZero && short_fault(direction).message == "short positioned write"@,
        excess_fault(direction).kind is InvalidData,
        direction is Read ==> excess_fault(direction).message == "positioned read exceeds the supplied buffer"@,
        direction is Write ==> excess_fault(direction).message == "positioned write exceeds the supplied buffer"@,
{
}

/// Counters roll over at 2^64.
pub proof fn law_counters_roll_over(counter: u64, amount: u64)
    ensures
        rolled(counter, amount) as int == (counter + amount) % 0x1_0000_0000_0000_0000,
{
}

/// A transfer goes on behind what it has transferred: file offset and buffer
/// offset move together, by no more than was asked for, and it ends without a
/// fault only when every byte is there. An interrupted call is repeated up to
/// four times in a row; any other failure is the transfer's, and a call without
/// a byte or with too many is a fault.
pub proof fn law_transfers_go_on(before: ExactTransfer, event: TransferEvent, after: ExactTransfer)
    requires
        before.wf(),
        before.running(),
        before.took_in(event, after),
    ensures
        before.transferred <= after.transferred <= after.length,
        after.length == before.length && after.direction == before.direction,
        after.fault is None ==> after.offset - after.transferred == before.offset - before.transferred,
        after.fault is None && !after.running() ==> after.transferred == after.length,
        match event {
            TransferEvent::Failed(fault) => {
                &&& after.transferred == before.transferred && after.offset == before.offset
                &&& after.fault is None <==> fault.kind is Interrupted && before.retries < 4
                &&& after.fault is None ==> after.retries == before.retries + 1
                &&& after.fault matches Some(found) ==> found == fault
            },
            TransferEvent::Transferred(bytes) => {
                let usable = 0 < bytes <= before.length - before.transferred;
                &&& after.fault is None <==> usable && before.offset + bytes <= u64::MAX
                &&& usable ==> after.transferred == before.transferred + bytes && after.retries == 0
                &&& !usable ==> after.transferred == before.transferred
                &&& bytes == 0 ==> (after.fault matches Some(fault) && (fault.kind is UnexpectedEof || fault.kind is WriteZero) && (
                fault.kind is UnexpectedEof <==> before.direction is Read))
                &&& bytes > before.length - before.transferred ==> (after.fault matches Some(fault) && fault.kind is InvalidData)
                &&& usable && before.offset + bytes > u64::MAX ==> (after.fault matches Some(fault) && fault.kind is InvalidInput)
            },
        },
{
    if after.fault is Some {
        assert(after.fault->0@.kind == after.fault->0.kind);
    }
}

} // verus!
