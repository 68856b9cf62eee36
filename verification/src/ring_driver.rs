//! Decisions of the `io_uring` driver: which entries are queued, what a
//! completion means for its request, and what happens to requests when the
//! ring fails.
//!
//! The ring, its descriptors and the wake socket are the caller's. A cancel
//! completion is only the cancel request's outcome: a request and its buffer
//! stay with the driver until the target's own completion.

use std::collections::VecDeque;
use vstd::prelude::*;

use crate::io_backend::{IoErrorKind, IoFault, IoFaultModel, RuntimeFileSet, RuntimeIoPath, SyncMode, WritePoint};
use crate::io_engine::{
    CompletionStatus, DriverCommand, EngineCore, EngineCounters, IoBuffer, IoCompletion, IoOperation, OperationKind,
    RequestControl, RequestId, Task, MAX_REQUEST_BYTES,
};

verus! {

/// Marks the entries that cancel another one.
pub const CANCEL_CQE_BIT: u64 = 0x8000_0000_0000_0000;

/// Marks the driver's own entries.
pub const INTERNAL_CQE_BIT: u64 = 0x4000_0000_0000_0000;

/// The entry that waits for the wake socket.
pub const WAKE_REQUEST_ID: u64 = 0x4000_0000_0000_0001;

/// The entry that cancels the one that waits for the wake socket.
pub const WAKE_CANCEL_ID: u64 = 0xc000_0000_0000_0001;

/// Linux's number for an interrupted call.
pub const LINUX_EINTR: i32 = 4;

/// Linux's number for a cancelled entry.
pub const LINUX_ECANCELED: i32 = 125;

/// How often a failed ring is searched for completions.
pub const FATAL_DRAIN_ROUNDS: usize = 64;

/// Errors that mean an engine may be replaced by the positioned I/O engine
/// before any request has been accepted. Runtime I/O errors never do.
pub fn is_unavailable_error(kind: IoErrorKind, raw_os_error: Option<i32>) -> (unavailable: bool)
    ensures
        unavailable == ({
            ||| kind is Unsupported || kind is PermissionDenied
            ||| raw_os_error == Some(22i32) || raw_os_error == Some(38i32) || raw_os_error == Some(95i32)
        }),
{
    match kind {
        IoErrorKind::Unsupported | IoErrorKind::PermissionDenied => true,
        _ => match raw_os_error {
            Some(code) => code == 22 || code == 38 || code == 95,
            None => false,
        },
    }
}

/// A power of two.
pub open spec fn is_power(value: int, exponent: nat) -> bool {
    value == vstd::arithmetic::power2::pow2(exponent)
}

/// Sizes of the submission and completion queues for a queue depth: room for
/// every request, the wake entry and its cancellation.
pub fn ring_sizes(queue_depth: usize) -> (sizes: (u32, u32))
    requires
        1 <= queue_depth <= crate::io_engine::MAX_IO_QUEUE_DEPTH,
    ensures
        queue_depth + 2 <= sizes.0 < 2 * (queue_depth + 2),
        exists|exponent: nat| is_power(sizes.0 as int, exponent),
        sizes.1 == 2 * sizes.0,
{
    let mut entries: u32 = 1;
    let ghost mut exponent: nat = 0;
    proof {
        vstd::arithmetic::power2::lemma2_to64();
        assert(is_power(1, 0));
    }
    while (entries as usize) < queue_depth + 2
        invariant
            queue_depth <= crate::io_engine::MAX_IO_QUEUE_DEPTH,
            1 <= queue_depth,
            1 <= entries,
            entries < 2 * (queue_depth + 2),
            is_power(entries as int, exponent),
        decreases 2 * (queue_depth + 2) - entries,
    {
        proof {
            vstd::arithmetic::power2::lemma_pow2_unfold((exponent + 1) as nat);
            exponent = (exponent + 1) as nat;
        }
        entries = entries * 2;
    }
    assert(is_power(entries as int, exponent));
    (entries, entries * 2)
}

/// A request that the driver has taken on.
pub struct Flight {
    pub task: Task,
    pub transferred: usize,
    /// The ring holds an entry for it.
    pub active: bool,
    pub active_path: Option<RuntimeIoPath>,
    pub force_buffered: bool,
    pub cancel_submitted: bool,
}

impl Flight {
    /// No more than the whole buffer was transferred.
    pub open spec fn wf(&self) -> bool {
        &&& self.transferred <= self.task.operation.length_of()
        &&& self.task.operation.valid()
    }

    /// The path of the entry that the ring holds.
    pub open spec fn path(&self) -> RuntimeIoPath {
        match self.active_path {
            Some(path) => path,
            None => RuntimeIoPath::Buffered,
        }
    }

    /// The flight once its entry is back.
    pub open spec fn landed(self) -> Flight {
        Flight { active: false, active_path: None, ..self }
    }
}

/// How a request ends that is cancelled while the ring holds no entry for it. A
/// write that was partly done cannot be called cancelled.
pub open spec fn cancelled_status_of(flight: Flight) -> Result<(), IoFaultModel> {
    if flight.task.operation.kind_of() is Read || flight.transferred == 0 {
        Ok(())
    } else {
        Err(IoFaultModel::plain(IoErrorKind::Interrupted, "write cancellation raced with a partial completion"@))
    }
}

/// The status says so.
pub open spec fn is_cancelled_status(status: CompletionStatus, flight: Flight) -> bool {
    match cancelled_status_of(flight) {
        Ok(_) => status is Cancelled,
        Err(fault) => status matches CompletionStatus::Failed(found) && found@ == fault,
    }
}

/// How a request ends that is cancelled while the ring holds no entry for it.
fn cancelled_before_resubmit_status(flight: &Flight) -> (status: CompletionStatus)
    ensures
        is_cancelled_status(status, *flight),
{
    let read = match flight.task.operation.kind() {
        OperationKind::Read => true,
        _ => false,
    };
    if read || flight.transferred == 0 {
        CompletionStatus::Cancelled
    } else {
        CompletionStatus::Failed(
            IoFault::new(IoErrorKind::Interrupted, "write cancellation raced with a partial completion"),
        )
    }
}

/// An entry to be queued.
#[derive(Clone, Copy, Debug, PartialEq, Eq, Structural)]
pub enum PendingEntry {
    Target(RequestId),
    Cancel(RequestId),
    Wake,
    WakeCancel,
}

/// What a completion means for the request it belongs to.
pub enum Fate {
    /// It goes on: it is queued again.
    Again(Flight),
    /// It ends without success: cancelled while nothing was queued for it.
    CancelledBetween(Flight),
    /// It ends cancelled.
    Cancelled,
    /// It ends with what the system reported.
    SystemError,
    /// It ends with an error of the transfer.
    Failed(IoFaultModel),
    /// It ends successfully, with so many bytes.
    Completed(int),
}

/// A cancelled request's error numbers. An interrupted write may have been
/// done in part, so only a read, or a write of which nothing was done, ends
/// cancelled.
pub open spec fn ends_cancelled(flight: Flight, raw_error: int) -> bool {
    &&& raw_error == LINUX_EINTR || raw_error == LINUX_ECANCELED
    &&& flight.task.operation.kind_of() is Read || (raw_error == LINUX_ECANCELED && flight.transferred == 0)
}

/// What a completion with such a result means for its flight.
pub open spec fn fate_of(flight: Flight, result: i32, cancel_wanted: bool, falls_back: bool) -> Fate {
    let length = flight.task.operation.length_of();
    let remaining = length - flight.transferred;
    let kind = flight.task.operation.kind_of();
    if result < 0 {
        if !cancel_wanted && falls_back {
            Fate::Again(Flight { force_buffered: true, cancel_submitted: false, ..flight.landed() })
        } else if cancel_wanted && ends_cancelled(flight, -result) {
            Fate::Cancelled
        } else {
            Fate::SystemError
        }
    } else if kind is Flush {
        Fate::Completed(0)
    } else if result == 0 && remaining != 0 {
        Fate::Failed(
            IoFaultModel::plain(
                if kind is Read {
                    IoErrorKind::UnexpectedEof
                } else {
                    IoErrorKind::WriteZero
                },
                "short io_uring I/O"@,
            ),
        )
    } else if result > remaining {
        Fate::Failed(IoFaultModel::plain(IoErrorKind::InvalidData, "io_uring completion exceeds submitted length"@))
    } else if result == remaining {
        Fate::Completed(length as int)
    } else if cancel_wanted {
        Fate::CancelledBetween(Flight { transferred: (flight.transferred + result) as usize, ..flight.landed() })
    } else {
        Fate::Again(Flight { transferred: (flight.transferred + result) as usize, ..flight.landed() })
    }
}

/// The descriptors once a completion has been counted, or direct I/O given up.
pub open spec fn files_after(
    files: RuntimeFileSet,
    flight: Flight,
    result: i32,
    cancel_wanted: bool,
    unavailable: bool,
) -> RuntimeFileSet {
    let remaining = flight.task.operation.length_of() - flight.transferred;
    if result < 0 {
        if !cancel_wanted && files.falls_back(flight.path(), unavailable) {
            files.without_direct()
        } else {
            files
        }
    } else if !(flight.task.operation.kind_of() is Flush) && 0 < result <= remaining {
        files.counted(flight.path(), result as u64)
    } else {
        files
    }
}

/// Submissions among the commands.
pub open spec fn submissions(commands: Seq<DriverCommand>) -> nat
    decreases commands.len(),
{
    if commands.len() == 0 {
        0
    } else if commands.last() is Submit {
        submissions(commands.drop_last()) + 1
    } else {
        submissions(commands.drop_last())
    }
}

proof fn lemma_submissions_skip(commands: Seq<DriverCommand>)
    requires
        commands.len() > 0,
    ensures
        submissions(commands) == submissions(commands.skip(1)) + (if commands[0] is Submit {
            1nat
        } else {
            0nat
        }),
    decreases commands.len(),
{
    if commands.len() == 1 {
        assert(commands.skip(1) =~= Seq::<DriverCommand>::empty());
        assert(commands.drop_last() =~= Seq::<DriverCommand>::empty());
    } else {
        lemma_submissions_skip(commands.drop_last());
        assert(commands.drop_last().skip(1) =~= commands.skip(1).drop_last());
    }
}

/// The requests of the driver.
pub struct RingDriver {
    pub files: RuntimeFileSet,
    pub wake_active: bool,
    pub wake_cancel_submitted: bool,
    pub wake_cancel_completed: bool,
    pub flights: Vec<Flight>,
    pub pending_targets: VecDeque<RequestId>,
    pub pending_cancels: VecDeque<RequestId>,
    pub shutting_down: bool,
}

/// The flight of a request.
pub open spec fn flight_of(flights: Seq<Flight>, id: RequestId) -> Option<int> {
    if exists|k: int| 0 <= k < flights.len() && (#[trigger] flights[k]).task.request_id == id {
        Some(
            choose|k: int|
                {
                    &&& 0 <= k < flights.len()
                    &&& (#[trigger] flights[k]).task.request_id == id
                    &&& forall|j: int| 0 <= j < k ==> (#[trigger] flights[j]).task.request_id != id
                },
        )
    } else {
        None
    }
}

proof fn lemma_flight_of(flights: Seq<Flight>, id: RequestId, index: int)
    requires
        0 <= index < flights.len(),
        flights[index].task.request_id == id,
        forall|j: int| 0 <= j < index ==> (#[trigger] flights[j]).task.request_id != id,
    ensures
        flight_of(flights, id) == Some(index),
{
    let k = choose|k: int|
        {
            &&& 0 <= k < flights.len()
            &&& (#[trigger] flights[k]).task.request_id == id
            &&& forall|j: int| 0 <= j < k ==> (#[trigger] flights[j]).task.request_id != id
        };
    assert(flights[index].task.request_id == id);
    if k < index {
        assert(flights[k].task.request_id != id);
    }
    if index < k {
        assert(flights[index].task.request_id != id);
    }
}

impl RingDriver {
    /// Every flight is well-formed.
    pub open spec fn wf(&self) -> bool {
        forall|k: int| 0 <= k < self.flights@.len() ==> (#[trigger] self.flights@[k]).wf()
    }

    /// Every request in flight is either still in the command queue, or in the
    /// hands of the driver, of which `in_hand` have no flight yet.
    pub open spec fn accounts_for(&self, core: &EngineCore, in_hand: nat) -> bool {
        &&& core.wf()
        &&& core.in_flight == submissions(core.commands@) + self.flights@.len() + in_hand
        &&& forall|k: int| 0 <= k < core.commands@.len() ==> (#[trigger] core.commands@[k] matches DriverCommand::Submit(task) ==> task.operation.valid())
    }

    /// A driver without requests.
    pub fn new(files: RuntimeFileSet) -> (driver: RingDriver)
        ensures
            driver.wf(),
            driver.files == files,
            !driver.wake_active && !driver.wake_cancel_submitted && !driver.wake_cancel_completed,
            driver.flights@.len() == 0,
            driver.pending_targets@.len() == 0,
            driver.pending_cancels@.len() == 0,
            !driver.shutting_down,
    {
        RingDriver {
            files,
            wake_active: false,
            wake_cancel_submitted: false,
            wake_cancel_completed: false,
            flights: Vec::new(),
            pending_targets: VecDeque::new(),
            pending_cancels: VecDeque::new(),
            shutting_down: false,
        }
    }

    /// The flight of a request.
    fn find(&self, id: RequestId) -> (found: Option<usize>)
        ensures
            match found {
                Some(index) => {
                    &&& index < self.flights@.len()
                    &&& self.flights@[index as int].task.request_id == id
                    &&& flight_of(self.flights@, id) == Some(index as int)
                },
                None => flight_of(self.flights@, id) is None,
            },
    {
        let mut index: usize = 0;
        while index < self.flights.len()
            invariant
                index <= self.flights@.len(),
                forall|j: int| 0 <= j < index ==> (#[trigger] self.flights@[j]).task.request_id != id,
            decreases self.flights@.len() - index,
        {
            if self.flights[index].task.request_id == id {
                proof {
                    lemma_flight_of(self.flights@, id, index as int);
                }
                return Some(index);
            }
            index = index + 1;
        }
        None
    }

    /// All but the flights and the queues is the same.
    pub open spec fn same_wake(&self, other: &RingDriver) -> bool {
        &&& self.wake_active == other.wake_active
        &&& self.wake_cancel_submitted == other.wake_cancel_submitted
        &&& self.wake_cancel_completed == other.wake_cancel_completed
        &&& self.shutting_down == other.shutting_down
    }

    /// What becomes of a request that the driver takes up: one that was cancelled
    /// or has nothing to transfer ends at once, any other takes flight.
    pub open spec fn acceptance(
        self,
        core: EngineCore,
        task: Task,
        now_ns: u64,
        after: RingDriver,
        core_after: EngineCore,
        completion: Option<IoCompletion>,
    ) -> bool {
        let cancelled = core.cancel_wanted(task.request_id.0);
        let empty = task.operation.length_of() == 0 && !(task.operation.kind_of() is Flush);
        if cancelled || empty {
            let status = if cancelled {
                CompletionStatus::Cancelled
            } else {
                CompletionStatus::Completed
            };
            &&& completion == Some(
                IoCompletion {
                    request_id: task.request_id,
                    kind: task.operation.kind_of(),
                    status,
                    bytes_transferred: 0,
                    buffer: task.operation.buffer_of(),
                },
            )
            &&& after.flights@ == self.flights@
            &&& after.pending_targets@ == self.pending_targets@
            &&& core_after.is_after_finish(
                &core,
                task.request_id,
                status,
                elapsed(task.submitted_ns, now_ns),
            )
        } else {
            &&& completion is None
            &&& core_after == core
            &&& after.flights@ == self.flights@.push(
                Flight {
                    task,
                    transferred: 0,
                    active: false,
                    active_path: None,
                    force_buffered: false,
                    cancel_submitted: false,
                },
            )
            &&& after.pending_targets@ == self.pending_targets@.push(task.request_id)
        }
    }

    /// Takes on a submitted request. A cancelled or empty one ends at once.
    pub fn accept_task(&mut self, core: &mut EngineCore, task: Task, now_ns: u64) -> (completion: Option<IoCompletion>)
        requires
            old(self).wf(),
            old(self).accounts_for(old(core), 1),
            task.operation.valid(),
        ensures
            final(self).wf(),
            final(self).accounts_for(final(core), 0),
            final(self).same_wake(old(self)),
            final(self).files == old(self).files,
            final(self).pending_cancels@ == old(self).pending_cancels@,
            old(self).acceptance(*old(core), task, now_ns, *final(self), *final(core), completion),
    {
        let elapsed_ns = now_ns.saturating_sub(task.submitted_ns);
        if core.is_cancel_requested(task.request_id) {
            return Some(core.finish(task, CompletionStatus::Cancelled, 0, elapsed_ns));
        }
        let flush = match task.operation.kind() {
            OperationKind::Flush => true,
            _ => false,
        };
        if !flush && task.operation.length() == 0 {
            return Some(core.finish(task, CompletionStatus::Completed, 0, elapsed_ns));
        }
        let id = task.request_id;
        self.flights.push(
            Flight {
                task,
                transferred: 0,
                active: false,
                active_path: None,
                force_buffered: false,
                cancel_submitted: false,
            },
        );
        self.pending_targets.push_back(id);
        None
    }

    /// A flight whose cancellation is to be queued.
    pub open spec fn cancellable(flight: Flight) -> bool {
        flight.active && !flight.cancel_submitted
    }

    /// Queues the cancellation of a request that the ring holds, once.
    pub fn queue_cancel_if_active(&mut self, id: RequestId)
        requires
            old(self).wf(),
        ensures
            final(self).wf(),
            final(self).same_wake(old(self)),
            final(self).files == old(self).files,
            final(self).pending_targets@ == old(self).pending_targets@,
            final(self).flights@.len() == old(self).flights@.len(),
            match flight_of(old(self).flights@, id) {
                Some(index) => if RingDriver::cancellable(old(self).flights@[index]) {
                    &&& final(self).flights@ == old(self).flights@.update(
                        index,
                        Flight { cancel_submitted: true, ..old(self).flights@[index] },
                    )
                    &&& final(self).pending_cancels@ == old(self).pending_cancels@.push(id)
                } else {
                    &&& final(self).flights@ == old(self).flights@
                    &&& final(self).pending_cancels@ == old(self).pending_cancels@
                },
                None => {
                    &&& final(self).flights@ == old(self).flights@
                    &&& final(self).pending_cancels@ == old(self).pending_cancels@
                },
            },
    {
        let index: usize = match self.find(id) {
            Some(index) => index,
            None => {
                return;
            },
        };
        if self.flights[index].active && !self.flights[index].cancel_submitted {
            self.mark_cancel_submitted(index);
            self.pending_cancels.push_back(id);
        }
    }

    fn mark_cancel_submitted(&mut self, index: usize)
        requires
            index < old(self).flights@.len(),
            old(self).wf(),
        ensures
            final(self).wf(),
            final(self).same_wake(old(self)),
            final(self).files == old(self).files,
            final(self).pending_targets@ == old(self).pending_targets@,
            final(self).pending_cancels@ == old(self).pending_cancels@,
            final(self).flights@ == old(self).flights@.update(
                index as int,
                Flight { cancel_submitted: true, ..old(self).flights@[index as int] },
            ),
    {
        let flight = &mut self.flights[index];
        flight.cancel_submitted = true;
    }

    /// The cancellations to be queued of the first `count` flights.
    pub open spec fn wanted_cancels(flights: Seq<Flight>, core: &EngineCore, count: nat) -> Seq<RequestId>
        decreases count,
    {
        if count == 0 {
            Seq::empty()
        } else {
            let rest = RingDriver::wanted_cancels(flights, core, (count - 1) as nat);
            let flight = flights[count - 1];
            if core.cancel_wanted(flight.task.request_id.0) && RingDriver::cancellable(flight) {
                rest.push(flight.task.request_id)
            } else {
                rest
            }
        }
    }

    /// Queues the cancellation of every request that the ring holds and whose
    /// owner has asked for it.
    pub fn queue_requested_cancels(&mut self, core: &EngineCore)
        requires
            old(self).wf(),
        ensures
            final(self).wf(),
            final(self).same_wake(old(self)),
            final(self).files == old(self).files,
            final(self).pending_targets@ == old(self).pending_targets@,
            final(self).pending_cancels@ == old(self).pending_cancels@ + RingDriver::wanted_cancels(
                old(self).flights@,
                core,
                old(self).flights@.len(),
            ),
            final(self).flights@.len() == old(self).flights@.len(),
            forall|k: int|
                0 <= k < old(self).flights@.len() ==> #[trigger] final(self).flights@[k] == (Flight {
                    cancel_submitted: old(self).flights@[k].cancel_submitted || (core.cancel_wanted(
                        old(self).flights@[k].task.request_id.0,
                    ) && old(self).flights@[k].active),
                    ..old(self).flights@[k]
                }),
    {
        let ghost before = self.flights@;
        let ghost queue = self.pending_cancels@;
        let mut index: usize = 0;
        while index < self.flights.len()
            invariant
                before == old(self).flights@,
                queue == old(self).pending_cancels@,
                index <= self.flights@.len(),
                self.flights@.len() == before.len(),
                self.wf(),
                self.same_wake(old(self)),
                self.files == old(self).files,
                self.pending_targets@ == old(self).pending_targets@,
                self.pending_cancels@ == queue + RingDriver::wanted_cancels(before, core, index as nat),
                forall|k: int|
                    0 <= k < index ==> #[trigger] self.flights@[k] == (Flight {
                        cancel_submitted: before[k].cancel_submitted || (core.cancel_wanted(before[k].task.request_id.0)
                            && before[k].active),
                        ..before[k]
                    }),
                forall|k: int| index <= k < before.len() ==> #[trigger] self.flights@[k] == before[k],
            decreases self.flights@.len() - index,
        {
            let id = self.flights[index].task.request_id;
            let active = self.flights[index].active;
            let submitted = self.flights[index].cancel_submitted;
            assert(self.flights@[index as int] == before[index as int]);
            if core.is_cancel_requested(id) && active && !submitted {
                self.mark_cancel_submitted(index);
                self.pending_cancels.push_back(id);
                assert(queue + RingDriver::wanted_cancels(before, core, (index + 1) as nat) =~= (queue + RingDriver::wanted_cancels(
                    before,
                    core,
                    index as nat,
                )).push(id));
            }
            index = index + 1;
        }
    }

    /// Takes a flight out.
    fn remove_flight(&mut self, index: usize) -> (flight: Flight)
        requires
            old(self).wf(),
            index < old(self).flights@.len(),
        ensures
            final(self).wf(),
            final(self).same_wake(old(self)),
            final(self).files == old(self).files,
            final(self).pending_targets@ == old(self).pending_targets@,
            final(self).pending_cancels@ == old(self).pending_cancels@,
            flight == old(self).flights@[index as int],
            final(self).flights@ == old(self).flights@.remove(index as int),
    {
        self.flights.remove(index)
    }

    /// Takes in the completion of a request's entry. `fault` is what a negative
    /// result stands for, and `unavailable` whether that means that direct I/O
    /// does not work.
    #[verifier::rlimit(60)]
    #[verifier::spinoff_prover]
    pub fn complete_target(
        &mut self,
        core: &mut EngineCore,
        id: RequestId,
        result: i32,
        fault: IoFault,
        unavailable: bool,
        now_ns: u64,
    ) -> (completion: Option<IoCompletion>)
        requires
            old(self).wf(),
            old(self).accounts_for(old(core), 0),
        ensures
            final(self).wf(),
            final(self).accounts_for(final(core), 0),
            final(self).same_wake(old(self)),
            final(self).pending_cancels@ == old(self).pending_cancels@,
            match flight_of(old(self).flights@, id) {
                None => {
                    &&& completion is None
                    &&& *final(core) == *old(core)
                    &&& final(self).flights@ == old(self).flights@
                    &&& final(self).pending_targets@ == old(self).pending_targets@
                    &&& final(self).files == old(self).files
                },
                Some(index) => {
                    let flight = old(self).flights@[index];
                    let wanted = old(core).cancel_wanted(id.0);
                    let fate = fate_of(flight, result, wanted, old(self).files.falls_back(flight.path(), unavailable));
                    &&& final(self).files == files_after(old(self).files, flight, result, wanted, unavailable)
                    &&& match fate {
                        Fate::Again(next) => {
                            &&& completion is None
                            &&& *final(core) == *old(core)
                            &&& final(self).flights@ == old(self).flights@.update(index, next)
                            &&& final(self).pending_targets@ == old(self).pending_targets@.push(id)
                        },
                        _ => {
                            &&& completion is Some
                            &&& final(self).flights@ == old(self).flights@.remove(index)
                            &&& final(self).pending_targets@ == old(self).pending_targets@
                            &&& completion->0.request_id == id
                            &&& completion->0.kind == flight.task.operation.kind_of()
                            &&& completion->0.buffer == flight.task.operation.buffer_of()
                            &&& fate_reported(fate, flight, fault, completion->0)
                            &&& final(core).is_after_finish(
                                old(core),
                                id,
                                completion->0.status,
                                elapsed(flight.task.submitted_ns, now_ns),
                            )
                        },
                    }
                },
            },
    {
        let index: usize = match self.find(id) {
            Some(index) => index,
            None => {
                return None;
            },
        };
        let path: RuntimeIoPath = match self.flights[index].active_path {
            Some(path) => path,
            None => RuntimeIoPath::Buffered,
        };
        let wanted = core.is_cancel_requested(id);
        let kind = self.flights[index].task.operation.kind();
        let length = self.flights[index].task.operation.length();
        let transferred = self.flights[index].transferred;
        let elapsed_ns = now_ns.saturating_sub(self.flights[index].task.submitted_ns);
        if result < 0 {
            if !wanted && self.files.should_fallback(path, unavailable) {
                let flight = &mut self.flights[index];
                flight.active = false;
                flight.active_path = None;
                flight.force_buffered = true;
                flight.cancel_submitted = false;
                self.pending_targets.push_back(id);
                return None;
            }
            let interrupted = result == -LINUX_EINTR;
            let cancelled_code = result == -LINUX_ECANCELED;
            let read = kind == OperationKind::Read;
            let status = if wanted && (interrupted || cancelled_code) && (read || (cancelled_code && transferred == 0)) {
                CompletionStatus::Cancelled
            } else {
                CompletionStatus::Failed(fault)
            };
            let flight = self.remove_flight(index);
            return Some(core.finish(flight.task, status, transferred, elapsed_ns));
        }
        if kind == OperationKind::Flush {
            let flight = self.remove_flight(index);
            return Some(core.finish(flight.task, CompletionStatus::Completed, 0, elapsed_ns));
        }
        let remaining = length - transferred;
        let completed = result as usize;
        if completed != 0 && completed <= remaining {
            self.files.record(path, completed);
        }
        if completed == 0 && remaining != 0 {
            let short_kind = if kind == OperationKind::Read {
                IoErrorKind::UnexpectedEof
            } else {
                IoErrorKind::WriteZero
            };
            let flight = self.remove_flight(index);
            let status = CompletionStatus::Failed(IoFault::new(short_kind, "short io_uring I/O"));
            return Some(core.finish(flight.task, status, transferred, elapsed_ns));
        }
        if completed > remaining {
            let flight = self.remove_flight(index);
            let status = CompletionStatus::Failed(
                IoFault::new(IoErrorKind::InvalidData, "io_uring completion exceeds submitted length"),
            );
            return Some(core.finish(flight.task, status, transferred, elapsed_ns));
        }
        let progress = transferred + completed;
        if progress == length {
            let flight = self.remove_flight(index);
            return Some(core.finish(flight.task, CompletionStatus::Completed, progress, elapsed_ns));
        }
        if wanted {
            let mut flight = self.remove_flight(index);
            flight.transferred = progress;
            let status = cancelled_before_resubmit_status(&flight);
            return Some(core.finish(flight.task, status, progress, elapsed_ns));
        }
        let flight = &mut self.flights[index];
        flight.active = false;
        flight.active_path = None;
        flight.transferred = progress;
        self.pending_targets.push_back(id);
        None
    }
}

/// Time between two readings of the clock.
pub open spec fn elapsed(start_ns: u64, now_ns: u64) -> u64 {
    if now_ns >= start_ns {
        (now_ns - start_ns) as u64
    } else {
        0
    }
}

/// The completion reports the fate.
pub open spec fn fate_reported(fate: Fate, flight: Flight, fault: IoFault, completion: IoCompletion) -> bool {
    match fate {
        Fate::Again(_) => false,
        Fate::CancelledBetween(last) => {
            &&& is_cancelled_status(completion.status, last)
            &&& completion.bytes_transferred == last.transferred
        },
        Fate::Cancelled => completion.status is Cancelled && completion.bytes_transferred == flight.transferred,
        Fate::SystemError => completion.status == CompletionStatus::Failed(fault) && completion.bytes_transferred
            == flight.transferred,
        Fate::Failed(model) => {
            &&& completion.status matches CompletionStatus::Failed(found) && found@ == model
            &&& completion.bytes_transferred == flight.transferred
        },
        Fate::Completed(bytes) => completion.status is Completed && completion.bytes_transferred == bytes,
    }
}

// ---------------------------------------------------------------------------
// Queueing entries
// ---------------------------------------------------------------------------

/// What one pop of the target queue leads to.
pub enum TargetStep {
    /// The queue is empty.
    Empty,
    /// The request is gone.
    Skipped,
    /// The request was cancelled before it was queued, and ends.
    Finished(IoCompletion),
    /// The request is to be queued.
    Entry(RequestId),
}

/// A request's entry: what is transferred, where, and on which descriptor.
#[derive(Clone, Copy, Debug, PartialEq, Eq, Structural)]
pub struct TargetEntry {
    pub request_id: RequestId,
    pub kind: OperationKind,
    pub path: RuntimeIoPath,
    /// First byte of the buffer that is transferred.
    pub start: usize,
    pub length: u32,
    pub offset: u64,
    /// What a flush covers.
    pub flush: Option<SyncMode>,
}

/// The operation may go to the direct descriptor: reads and records may.
pub open spec fn operation_allows_direct(operation: IoOperation) -> bool {
    match operation {
        IoOperation::Read { .. } => true,
        IoOperation::Write { point, .. } => point == WritePoint::Record,
        IoOperation::Flush { .. } => false,
    }
}

/// The descriptor for the rest of a flight whose buffer lies at `address`.
/// Durability controls stay on the buffered descriptor; a barrier on either
/// one covers the same file.
pub open spec fn flight_path(flight: Flight, files: RuntimeFileSet, address: usize) -> RuntimeIoPath {
    if flight.force_buffered || flight.task.operation.kind_of() is Flush {
        RuntimeIoPath::Buffered
    } else {
        files.path_for(
            address,
            (flight.task.operation.length_of() - flight.transferred) as usize,
            (flight.task.operation.offset_of() + flight.transferred) as u64,
            operation_allows_direct(flight.task.operation),
        )
    }
}

/// Where the rest of a flight's bytes lies.
pub open spec fn flight_address(flight: Flight) -> usize {
    match flight.task.operation {
        IoOperation::Read { buffer, .. } => buffer.address_of().wrapping_add(flight.transferred),
        IoOperation::Write { buffer, .. } => buffer.address_of().wrapping_add(flight.transferred),
        IoOperation::Flush { .. } => 0,
    }
}

/// Picks the descriptor for the rest of a flight whose bytes lie at `address`.
pub fn runtime_io_path(flight: &Flight, files: &RuntimeFileSet, address: usize) -> (path: RuntimeIoPath)
    requires
        flight.wf(),
    ensures
        path == flight_path(*flight, *files, address),
{
    if flight.force_buffered {
        return RuntimeIoPath::Buffered;
    }
    let allow_direct = match &flight.task.operation {
        IoOperation::Read { .. } => true,
        IoOperation::Write { point, .. } => *point == WritePoint::Record,
        IoOperation::Flush { .. } => {
            return RuntimeIoPath::Buffered;
        },
    };
    let length = flight.task.operation.length() - flight.transferred;
    let offset = flight.task.operation.offset() + flight.transferred as u64;
    files.select_path(address, length, offset, allow_direct)
}

/// What a completion belongs to.
#[derive(Clone, Copy, Debug, PartialEq, Eq, Structural)]
pub enum CompletionTarget {
    Wake,
    WakeCancel,
    /// The outcome of a cancel entry, which says nothing about its target.
    Cancel,
    Internal,
    Request(RequestId),
}

/// What a completion with such user data belongs to.
pub open spec fn target_of(user_data: u64) -> CompletionTarget {
    if user_data == WAKE_REQUEST_ID {
        CompletionTarget::Wake
    } else if user_data == WAKE_CANCEL_ID {
        CompletionTarget::WakeCancel
    } else if user_data >= CANCEL_CQE_BIT {
        CompletionTarget::Cancel
    } else if user_data >= INTERNAL_CQE_BIT {
        CompletionTarget::Internal
    } else {
        CompletionTarget::Request(RequestId(user_data))
    }
}

/// Tells what a completion belongs to.
pub fn classify_completion(user_data: u64) -> (target: CompletionTarget)
    ensures
        target == target_of(user_data),
{
    if user_data == WAKE_REQUEST_ID {
        CompletionTarget::Wake
    } else if user_data == WAKE_CANCEL_ID {
        CompletionTarget::WakeCancel
    } else if user_data >= CANCEL_CQE_BIT {
        CompletionTarget::Cancel
    } else if user_data >= INTERNAL_CQE_BIT {
        CompletionTarget::Internal
    } else {
        CompletionTarget::Request(RequestId(user_data))
    }
}

/// User data of the entry that cancels a request.
pub fn cancel_user_data(id: RequestId) -> (user_data: u64)
    requires
        id.0 <= crate::io_engine::MAX_REQUEST_ID,
    ensures
        user_data == CANCEL_CQE_BIT + id.0,
{
    CANCEL_CQE_BIT + id.0
}

/// A request's own completion is told from every other: its user data is its
/// identifier, which no internal and no cancel entry uses.
pub proof fn law_request_completions_are_unambiguous(id: u64)
    requires
        1 <= id <= crate::io_engine::MAX_REQUEST_ID,
    ensures
        target_of(id) == CompletionTarget::Request(RequestId(id)),
        target_of((CANCEL_CQE_BIT + id) as u64) == CompletionTarget::Cancel,
{
}

/// A submission that is being planned.
pub struct SubmissionPlan {
    pub entries: Seq<PendingEntry>,
    pub cancels: Seq<RequestId>,
    pub targets: Seq<RequestId>,
    pub flights: Seq<Flight>,
    pub registry: Map<u64, RequestControl>,
    /// Flights that ended because they were cancelled before they were queued.
    pub ended: Seq<Flight>,
}

/// The plan once the room or the queues are used up.
pub open spec fn planned(plan: SubmissionPlan, available: int) -> SubmissionPlan
    decreases plan.cancels.len() + plan.targets.len(),
{
    if plan.entries.len() >= available {
        plan
    } else if plan.cancels.len() > 0 {
        let id = plan.cancels[0];
        let rest = SubmissionPlan { cancels: plan.cancels.skip(1), ..plan };
        planned(
            if flight_of(plan.flights, id) is Some {
                SubmissionPlan { entries: plan.entries.push(PendingEntry::Cancel(id)), ..rest }
            } else {
                rest
            },
            available,
        )
    } else if plan.targets.len() > 0 {
        let id = plan.targets[0];
        let rest = SubmissionPlan { targets: plan.targets.skip(1), ..plan };
        planned(
            match flight_of(plan.flights, id) {
                None => rest,
                Some(index) => if plan.registry.contains_key(id.0) && plan.registry[id.0].cancel_requested
                    && !plan.flights[index].active {
                    SubmissionPlan {
                        flights: plan.flights.remove(index),
                        registry: plan.registry.remove(id.0),
                        ended: plan.ended.push(plan.flights[index]),
                        ..rest
                    }
                } else {
                    SubmissionPlan { entries: plan.entries.push(PendingEntry::Target(id)), ..rest }
                },
            },
            available,
        )
    } else {
        plan
    }
}

/// A flight that ended because it was cancelled before it was queued is
/// reported like this, with its buffer.
pub open spec fn reports_cancel(completion: IoCompletion, flight: Flight) -> bool {
    &&& completion.request_id == flight.task.request_id
    &&& completion.kind == flight.task.operation.kind_of()
    &&& completion.buffer == flight.task.operation.buffer_of()
    &&& completion.bytes_transferred == flight.transferred
    &&& is_cancelled_status(completion.status, flight)
}

/// When the flights were submitted.
pub open spec fn submission_times(flights: Seq<Flight>) -> Seq<u64> {
    flights.map_values(|flight: Flight| flight.task.submitted_ns)
}

/// The counters once requests, submitted at these times, have ended like this.
pub open spec fn tallied(counters: EngineCounters, completions: Seq<IoCompletion>, submitted: Seq<u64>, now_ns: u64) -> EngineCounters
    decreases completions.len(),
{
    if completions.len() == 0 {
        counters
    } else {
        tallied(counters, completions.drop_last(), submitted.drop_last(), now_ns).finished(
            completions.last().status,
            elapsed(submitted.last(), now_ns),
        )
    }
}

impl RingDriver {
    /// Takes the next request out of the target queue.
    pub fn next_target(&mut self, core: &mut EngineCore, now_ns: u64) -> (step: TargetStep)
        requires
            old(self).wf(),
            old(self).accounts_for(old(core), 0),
        ensures
            final(self).wf(),
            final(self).accounts_for(final(core), 0),
            final(self).same_wake(old(self)),
            final(self).files == old(self).files,
            final(self).pending_cancels@ == old(self).pending_cancels@,
            if old(self).pending_targets@.len() == 0 {
                &&& step is Empty
                &&& *final(core) == *old(core)
                &&& final(self).flights@ == old(self).flights@
                &&& final(self).pending_targets@ == old(self).pending_targets@
            } else {
                let id = old(self).pending_targets@[0];
                &&& final(self).pending_targets@ == old(self).pending_targets@.skip(1)
                &&& match flight_of(old(self).flights@, id) {
                    None => step is Skipped && *final(core) == *old(core) && final(self).flights@ == old(self).flights@,
                    Some(index) => {
                        let flight = old(self).flights@[index];
                        if old(core).cancel_wanted(id.0) && !flight.active {
                            &&& final(self).flights@ == old(self).flights@.remove(index)
                            &&& step matches TargetStep::Finished(completion)
                            &&& completion.request_id == id
                            &&& completion.kind == flight.task.operation.kind_of()
                            &&& completion.buffer == flight.task.operation.buffer_of()
                            &&& completion.bytes_transferred == flight.transferred
                            &&& is_cancelled_status(completion.status, flight)
                            &&& final(core).is_after_finish(
                                old(core),
                                id,
                                completion.status,
                                elapsed(flight.task.submitted_ns, now_ns),
                            )
                        } else {
                            &&& step == TargetStep::Entry(id)
                            &&& *final(core) == *old(core)
                            &&& final(self).flights@ == old(self).flights@
                        }
                    },
                }
            },
    {
        let ghost queue = self.pending_targets@;
        let id: RequestId = match self.pending_targets.pop_front() {
            Some(id) => id,
            None => {
                return TargetStep::Empty;
            },
        };
        assert(self.pending_targets@ =~= queue.skip(1));
        let index: usize = match self.find(id) {
            Some(index) => index,
            None => {
                return TargetStep::Skipped;
            },
        };
        if core.is_cancel_requested(id) && !self.flights[index].active {
            let flight = self.remove_flight(index);
            let status = cancelled_before_resubmit_status(&flight);
            let elapsed_ns = now_ns.saturating_sub(flight.task.submitted_ns);
            let transferred = flight.transferred;
            return TargetStep::Finished(core.finish(flight.task, status, transferred, elapsed_ns));
        }
        TargetStep::Entry(id)
    }

    /// Where planning starts: with the wake entry if the ring lacks it.
    pub open spec fn plan_start(&self, core: &EngineCore, available: usize) -> SubmissionPlan {
        SubmissionPlan {
            entries: if available > 0 && !self.shutting_down && !self.wake_active {
                seq![PendingEntry::Wake]
            } else {
                seq![]
            },
            cancels: self.pending_cancels@,
            targets: self.pending_targets@,
            flights: self.flights@,
            registry: core.registry@,
            ended: Seq::empty(),
        }
    }

    /// Picks the entries for the next submission, in order: the wake entry if
    /// the ring lacks it, then cancellations of requests that are still there,
    /// then requests. Requests that were cancelled before they were queued end,
    /// and their completions are added to `completions`.
    pub fn plan_submission(
        &mut self,
        core: &mut EngineCore,
        available: usize,
        now_ns: u64,
        completions: &mut Vec<IoCompletion>,
    ) -> (entries: Vec<PendingEntry>)
        requires
            old(self).wf(),
            old(self).accounts_for(old(core), 0),
        ensures
            final(self).wf(),
            final(self).accounts_for(final(core), 0),
            final(self).same_wake(old(self)),
            final(self).files == old(self).files,
            final(core).same_setup(old(core)),
            entries@.len() <= available,
            ({
                let plan = planned(old(self).plan_start(old(core), available), available as int);
                &&& entries@ == plan.entries
                &&& final(self).pending_cancels@ == plan.cancels
                &&& final(self).pending_targets@ == plan.targets
                &&& final(self).flights@ == plan.flights
                &&& final(core).registry@ == plan.registry
                &&& final(completions)@.len() == old(completions)@.len() + plan.ended.len()
                &&& forall|k: int|
                    0 <= k < plan.ended.len() ==> reports_cancel(
                        #[trigger] final(completions)@.skip(old(completions)@.len() as int)[k],
                        plan.ended[k],
                    )
                &&& final(core).counters == tallied(
                    old(core).counters,
                    final(completions)@.skip(old(completions)@.len() as int),
                    submission_times(plan.ended),
                    now_ns,
                )
            }),
            final(core).same_ids(old(core)),
            final(core).commands@ == old(core).commands@,
            old(completions)@.is_prefix_of(final(completions)@),
    {
        let ghost first = completions@;
        let ghost mut added: Seq<IoCompletion> = Seq::empty();
        let ghost mut ended: Seq<Flight> = Seq::empty();
        proof {
            assert(first + added =~= first);
            assert(submission_times(ended) =~= Seq::<u64>::empty());
        }
        let mut entries: Vec<PendingEntry> = Vec::new();
        if available > 0 && !self.shutting_down && !self.wake_active {
            entries.push(PendingEntry::Wake);
        }
        let ghost start = self.plan_start(core, available);
        assert(entries@ =~= start.entries);
        let mut more = true;
        while more && entries.len() < available
            invariant
                self.wf(),
                self.accounts_for(core, 0),
                self.same_wake(old(self)),
                self.files == old(self).files,
                core.same_setup(old(core)),
                entries@.len() <= available,
                start == old(self).plan_start(old(core), available),
                planned(start, available as int) == planned(
                    SubmissionPlan {
                        entries: entries@,
                        cancels: self.pending_cancels@,
                        targets: self.pending_targets@,
                        flights: self.flights@,
                        registry: core.registry@,
                        ended,
                    },
                    available as int,
                ),
                first == old(completions)@,
                completions@ == first + added,
                added.len() == ended.len(),
                forall|k: int| 0 <= k < ended.len() ==> reports_cancel(#[trigger] added[k], ended[k]),
                core.counters == tallied(old(core).counters, added, submission_times(ended), now_ns),
                core.same_ids(old(core)),
                core.commands@ == old(core).commands@,
                !more ==> self.pending_cancels@.len() == 0 && self.pending_targets@.len() == 0,
            decreases (if more { 1int } else { 0int }), self.pending_cancels@.len() + self.pending_targets@.len(),
        {
            let ghost cancels = self.pending_cancels@;
            match self.pending_cancels.pop_front() {
                Some(id) => {
                    assert(self.pending_cancels@ =~= cancels.skip(1));
                    if self.find(id).is_some() {
                        entries.push(PendingEntry::Cancel(id));
                    }
                },
                None => {
                    let ghost flights = self.flights@;
                    let ghost targets = self.pending_targets@;
                    match self.next_target(core, now_ns) {
                        TargetStep::Empty => {
                            more = false;
                        },
                        TargetStep::Skipped => {},
                        TargetStep::Finished(completion) => {
                            completions.push(completion);
                            proof {
                                lemma_flight_in_range(flights, targets[0]);
                                let flight = flights[flight_of(flights, targets[0])->0];
                                let before = ended;
                                ended = before.push(flight);
                                assert(added.push(completion).drop_last() =~= added);
                                assert(submission_times(ended).drop_last() =~= submission_times(before));
                                assert(submission_times(ended).last() == flight.task.submitted_ns);
                                added = added.push(completion);
                                assert(first + added =~= completions@);
                            }
                        },
                        TargetStep::Entry(id) => {
                            entries.push(PendingEntry::Target(id));
                        },
                    }
                },
            }
        }
        proof {
            assert(completions@.skip(first.len() as int) =~= added);
            assert(first =~= completions@.take(first.len() as int));
        }
        entries
    }

    /// Marks a request as queued and says what its entry transfers; `None` if
    /// the request is gone.
    pub fn prepare_target(&mut self, id: RequestId) -> (entry: Option<TargetEntry>)
        requires
            old(self).wf(),
        ensures
            final(self).wf(),
            final(self).same_wake(old(self)),
            final(self).files == old(self).files,
            final(self).pending_targets@ == old(self).pending_targets@,
            final(self).pending_cancels@ == old(self).pending_cancels@,
            match flight_of(old(self).flights@, id) {
                None => entry is None && final(self).flights@ == old(self).flights@,
                Some(index) => {
                    let flight = old(self).flights@[index];
                    &&& entry is Some
                    &&& entry->0.request_id == id
                    &&& entry->0.kind == flight.task.operation.kind_of()
                    &&& entry->0.start == flight.transferred
                    &&& entry->0.length == flight.task.operation.length_of() - flight.transferred
                    &&& entry->0.offset == flight.task.operation.offset_of() + flight.transferred
                    &&& entry->0.flush == (match flight.task.operation {
                        IoOperation::Flush { mode, .. } => Some(mode),
                        _ => None,
                    })
                    &&& entry->0.path == flight_path(flight, old(self).files, flight_address(flight))
                    &&& final(self).flights@ == old(self).flights@.update(
                        index,
                        Flight { active: true, active_path: Some(entry->0.path), ..flight },
                    )
                },
            },
    {
        let index: usize = match self.find(id) {
            Some(index) => index,
            None => {
                return None;
            },
        };
        let flight = &self.flights[index];
        let transferred = flight.transferred;
        let address: usize = match &flight.task.operation {
            IoOperation::Read { buffer, .. } => buffer.address().wrapping_add(transferred),
            IoOperation::Write { buffer, .. } => buffer.address().wrapping_add(transferred),
            IoOperation::Flush { .. } => 0,
        };
        let path = runtime_io_path(flight, &self.files, address);
        assert(address == flight_address(self.flights@[index as int]));
        let entry = TargetEntry {
            request_id: id,
            kind: flight.task.operation.kind(),
            path,
            start: transferred,
            length: (flight.task.operation.length() - transferred) as u32,
            offset: flight.task.operation.offset() + transferred as u64,
            flush: match &flight.task.operation {
                IoOperation::Flush { mode, .. } => Some(*mode),
                _ => None,
            },
        };
        let queued = &mut self.flights[index];
        queued.active = true;
        queued.active_path = Some(path);
        Some(entry)
    }

    /// The ring holds the wake entry now.
    pub fn wake_queued(&mut self)
        ensures
            *final(self) == (RingDriver { wake_active: true, ..*old(self) }),
    {
        self.wake_active = true;
    }

    /// The wake entry is back; `true` asks to empty the wake socket.
    pub fn wake_completed(&mut self, result: i32) -> (drain: bool)
        ensures
            *final(self) == (RingDriver { wake_active: false, ..*old(self) }),
            drain == (!old(self).shutting_down && result >= 0),
    {
        self.wake_active = false;
        !self.shutting_down && result >= 0
    }

    /// The wake entry's cancellation is back.
    pub fn wake_cancel_done(&mut self)
        ensures
            *final(self) == (RingDriver { wake_cancel_completed: true, ..*old(self) }),
    {
        self.wake_cancel_completed = true;
    }

    /// The ring holds nothing of the driver any more.
    pub open spec fn done(&self) -> bool {
        &&& self.shutting_down
        &&& self.flights@.len() == 0
        &&& !self.wake_active
        &&& !self.wake_cancel_submitted || self.wake_cancel_completed
    }

    /// Whether the driver may stop: it shuts down and the ring holds nothing of
    /// it any more.
    pub fn is_done(&self) -> (done: bool)
        ensures
            done == self.done(),
    {
        self.shutting_down && self.flights.len() == 0 && !self.wake_active && (!self.wake_cancel_submitted
            || self.wake_cancel_completed)
    }

    /// Whether the wake entry is to be cancelled now, which is asked once: when
    /// the last request has ended during shutdown.
    pub fn begin_wake_cancel(&mut self) -> (cancel: bool)
        ensures
            cancel == (old(self).shutting_down && old(self).flights@.len() == 0 && old(self).wake_active
                && !old(self).wake_cancel_submitted),
            *final(self) == (if cancel {
                RingDriver { wake_cancel_submitted: true, ..*old(self) }
            } else {
                *old(self)
            }),
    {
        if self.shutting_down && self.flights.len() == 0 && self.wake_active && !self.wake_cancel_submitted {
            self.wake_cancel_submitted = true;
            true
        } else {
            false
        }
    }

    /// Whether there is a completion to wait for.
    pub fn must_wait(&self) -> (wait: bool)
        ensures
            wait == (self.wake_active || self.flights@.len() != 0 || (self.wake_cancel_submitted && !self.wake_cancel_completed)),
    {
        self.wake_active || self.flights.len() != 0 || (self.wake_cancel_submitted && !self.wake_cancel_completed)
    }
}

// ---------------------------------------------------------------------------
// Commands
// ---------------------------------------------------------------------------

/// What the driver did with the command queue.
pub enum CommandStep {
    /// The queue is empty: there is nothing to do.
    Empty,
    /// The command was taken in.
    Handled,
    /// The command's request has ended at once.
    Finished(IoCompletion),
}

impl RingDriver {
    /// Takes in the oldest command. Once the engine accepts no more requests,
    /// an empty queue means shutdown.
    pub fn drain_command(&mut self, core: &mut EngineCore, now_ns: u64) -> (step: CommandStep)
        requires
            old(self).wf(),
            old(self).accounts_for(old(core), 0),
        ensures
            final(self).wf(),
            final(self).accounts_for(final(core), 0),
            final(core).same_setup(old(core)),
            final(self).files == old(self).files,
            final(self).wake_active == old(self).wake_active,
            final(self).wake_cancel_submitted == old(self).wake_cancel_submitted,
            final(self).wake_cancel_completed == old(self).wake_cancel_completed,
            if old(core).commands@.len() == 0 {
                &&& step is Empty
                &&& *final(core) == *old(core)
                &&& final(self).shutting_down == (old(self).shutting_down || !old(core).accepting)
                &&& final(self).flights@ == old(self).flights@
                &&& final(self).pending_targets@ == old(self).pending_targets@
                &&& final(self).pending_cancels@ == old(self).pending_cancels@
            } else {
                &&& final(core).commands@ == old(core).commands@.skip(1)
                &&& match old(core).commands@[0] {
                    DriverCommand::Submit(task) => {
                        let cancelled = old(core).cancel_wanted(task.request_id.0);
                        let empty = task.operation.length_of() == 0 && !(task.operation.kind_of() is Flush);
                        &&& final(self).shutting_down == old(self).shutting_down
                        &&& final(self).pending_cancels@ == old(self).pending_cancels@
                        &&& if cancelled || empty {
                            &&& step matches CommandStep::Finished(completion)
                            &&& completion.request_id == task.request_id
                            &&& completion.kind == task.operation.kind_of()
                            &&& completion.status == (if cancelled {
                                CompletionStatus::Cancelled
                            } else {
                                CompletionStatus::Completed
                            })
                            &&& completion.bytes_transferred == 0
                            &&& completion.buffer == task.operation.buffer_of()
                            &&& final(self).flights@ == old(self).flights@
                            &&& final(self).pending_targets@ == old(self).pending_targets@
                            &&& final(core).has_closed(
                                old(core),
                                task.request_id,
                                completion.status,
                                elapsed(task.submitted_ns, now_ns),
                            )
                        } else {
                            &&& step is Handled
                            &&& final(core).same_books(old(core))
                            &&& final(self).flights@ == old(self).flights@.push(
                                Flight {
                                    task,
                                    transferred: 0,
                                    active: false,
                                    active_path: None,
                                    force_buffered: false,
                                    cancel_submitted: false,
                                },
                            )
                            &&& final(self).pending_targets@ == old(self).pending_targets@.push(task.request_id)
                        }
                    },
                    DriverCommand::Cancel(id) => {
                        &&& step is Handled
                        &&& final(self).shutting_down == old(self).shutting_down
                        &&& final(self).pending_targets@ == old(self).pending_targets@
                        &&& final(core).same_books(old(core))
                        &&& match flight_of(old(self).flights@, id) {
                            Some(index) => if RingDriver::cancellable(old(self).flights@[index]) {
                                &&& final(self).flights@ == old(self).flights@.update(
                                    index,
                                    Flight { cancel_submitted: true, ..old(self).flights@[index] },
                                )
                                &&& final(self).pending_cancels@ == old(self).pending_cancels@.push(id)
                            } else {
                                &&& final(self).flights@ == old(self).flights@
                                &&& final(self).pending_cancels@ == old(self).pending_cancels@
                            },
                            None => {
                                &&& final(self).flights@ == old(self).flights@
                                &&& final(self).pending_cancels@ == old(self).pending_cancels@
                            },
                        }
                    },
                    DriverCommand::Shutdown => {
                        &&& step is Handled
                        &&& final(core).same_books(old(core))
                        &&& final(self).shutting_down
                        &&& final(self).flights@ == old(self).flights@
                        &&& final(self).pending_targets@ == old(self).pending_targets@
                        &&& final(self).pending_cancels@ == old(self).pending_cancels@
                    },
                }
            },
    {
        let ghost commands = core.commands@;
        if core.commands.len() == 0 {
            if !core.accepting {
                self.shutting_down = true;
            }
            return CommandStep::Empty;
        }
        proof {
            lemma_submissions_skip(commands);
        }
        let command = core.take_command();
        assert forall|k: int| 0 <= k < core.commands@.len() implies (#[trigger] core.commands@[k] matches DriverCommand::Submit(
            task,
        ) ==> task.operation.valid()) by {
            assert(core.commands@[k] == commands[k + 1]);
        }
        match command {
            Some(DriverCommand::Submit(task)) => {
                assert(commands[0] matches DriverCommand::Submit(first) && first.operation.valid());
                match self.accept_task(core, task, now_ns) {
                    Some(completion) => CommandStep::Finished(completion),
                    None => CommandStep::Handled,
                }
            },
            Some(DriverCommand::Cancel(id)) => {
                self.queue_cancel_if_active(id);
                CommandStep::Handled
            },
            Some(DriverCommand::Shutdown) => {
                self.shutting_down = true;
                CommandStep::Handled
            },
            None => CommandStep::Empty,
        }
    }
}

// ---------------------------------------------------------------------------
// Failure of the ring
// ---------------------------------------------------------------------------

/// The ring holds an entry of some flight.
pub open spec fn some_active(flights: Seq<Flight>) -> bool {
    exists|k: int| 0 <= k < flights.len() && (#[trigger] flights[k]).active
}

/// An issued write or flush that no completion has fenced.
pub open spec fn some_unfenced(flights: Seq<Flight>) -> bool {
    exists|k: int|
        0 <= k < flights.len() && (#[trigger] flights[k]).active && flights[k].task.operation.kind_of().mutates()
}

/// A buffer that the kernel might still access.
pub open spec fn withheld(flight: Flight) -> bool {
    flight.active && !(flight.task.operation.kind_of() is Flush)
}

/// How a flight is reported when the ring has failed: without its buffer if the
/// kernel might still access that.
pub open spec fn flight_failed(flight: Flight, fault: IoFault) -> IoCompletion {
    IoCompletion {
        request_id: flight.task.request_id,
        kind: flight.task.operation.kind_of(),
        status: CompletionStatus::Failed(fault),
        bytes_transferred: flight.transferred,
        buffer: if withheld(flight) {
            None
        } else {
            flight.task.operation.buffer_of()
        },
    }
}

/// How the flights are reported when the ring has failed, the last first.
pub open spec fn flights_failed(flights: Seq<Flight>, fault: IoFault) -> Seq<IoCompletion>
    decreases flights.len(),
{
    if flights.len() == 0 {
        Seq::empty()
    } else {
        seq![flight_failed(flights.last(), fault)] + flights_failed(flights.drop_last(), fault)
    }
}

/// When the flights were submitted, the last first.
pub open spec fn flight_times(flights: Seq<Flight>) -> Seq<u64>
    decreases flights.len(),
{
    if flights.len() == 0 {
        Seq::empty()
    } else {
        seq![flights.last().task.submitted_ns] + flight_times(flights.drop_last())
    }
}

/// The buffers that the kernel might still access, the last flight's first.
pub open spec fn withheld_buffers(flights: Seq<Flight>) -> Seq<IoBuffer>
    decreases flights.len(),
{
    if flights.len() == 0 {
        Seq::empty()
    } else {
        let rest = withheld_buffers(flights.drop_last());
        match flights.last().task.operation.buffer_of() {
            Some(buffer) => if withheld(flights.last()) {
                seq![buffer] + rest
            } else {
                rest
            },
            None => rest,
        }
    }
}

/// How a request that the driver has not seen is reported when the ring has
/// failed: with its buffer, and nothing transferred.
pub open spec fn command_failed(task: Task, fault: IoFault) -> IoCompletion {
    IoCompletion {
        request_id: task.request_id,
        kind: task.operation.kind_of(),
        status: CompletionStatus::Failed(fault),
        bytes_transferred: 0,
        buffer: task.operation.buffer_of(),
    }
}

/// How the requests among the commands are reported when the ring has failed.
pub open spec fn commands_failed(commands: Seq<DriverCommand>, fault: IoFault) -> Seq<IoCompletion>
    decreases commands.len(),
{
    if commands.len() == 0 {
        Seq::empty()
    } else {
        let rest = commands_failed(commands.skip(1), fault);
        match commands[0] {
            DriverCommand::Submit(task) => seq![command_failed(task, fault)] + rest,
            _ => rest,
        }
    }
}

/// When the requests among the commands were submitted.
pub open spec fn command_times(commands: Seq<DriverCommand>) -> Seq<u64>
    decreases commands.len(),
{
    if commands.len() == 0 {
        Seq::empty()
    } else {
        let rest = command_times(commands.skip(1));
        match commands[0] {
            DriverCommand::Submit(task) => seq![task.submitted_ns] + rest,
            _ => rest,
        }
    }
}

/// The registry once these requests have ended.
pub open spec fn unregistered(registry: Map<u64, RequestControl>, completions: Seq<IoCompletion>) -> Map<u64, RequestControl>
    decreases completions.len(),
{
    if completions.len() == 0 {
        registry
    } else {
        unregistered(registry, completions.drop_last()).remove(completions.last().request_id.0)
    }
}

/// The entries whose cancellation is asked for when the ring fails: those of
/// the first `count` flights.
pub open spec fn fatal_targets(flights: Seq<Flight>, count: nat) -> Seq<u64>
    decreases count,
{
    if count == 0 {
        seq![]
    } else {
        let rest = fatal_targets(flights, (count - 1) as nat);
        if flights[count - 1].active {
            rest.push(flights[count - 1].task.request_id.0)
        } else {
            rest
        }
    }
}

impl RingDriver {
    /// The ring holds an entry with such user data.
    pub open spec fn holds(&self, user_data: u64) -> bool {
        if user_data == WAKE_REQUEST_ID {
            self.wake_active
        } else {
            match flight_of(self.flights@, RequestId(user_data)) {
                Some(index) => self.flights@[index].active,
                None => false,
            }
        }
    }

    /// Whether the ring holds an entry with such user data.
    pub fn is_target_active(&self, user_data: u64) -> (active: bool)
        ensures
            active == self.holds(user_data),
    {
        if user_data == WAKE_REQUEST_ID {
            return self.wake_active;
        }
        match self.find(RequestId(user_data)) {
            Some(index) => self.flights[index].active,
            None => false,
        }
    }

    /// Whether the ring holds any entry whose completion is a fence.
    pub fn has_active_target(&self) -> (active: bool)
        ensures
            active == (self.wake_active || some_active(self.flights@)),
    {
        if self.wake_active {
            return true;
        }
        let mut index: usize = 0;
        while index < self.flights.len()
            invariant
                index <= self.flights@.len(),
                forall|k: int| 0 <= k < index ==> !(#[trigger] self.flights@[k]).active,
            decreases self.flights@.len() - index,
        {
            if self.flights[index].active {
                return true;
            }
            index = index + 1;
        }
        false
    }

    /// User data of every entry whose cancellation is asked for when the ring
    /// fails; the wake entry comes last.
    pub fn fatal_cancels(&self) -> (targets: Vec<u64>)
        ensures
            targets@ == (if self.wake_active {
                fatal_targets(self.flights@, self.flights@.len()).push(WAKE_REQUEST_ID)
            } else {
                fatal_targets(self.flights@, self.flights@.len())
            }),
    {
        let mut targets: Vec<u64> = Vec::new();
        let mut index: usize = 0;
        while index < self.flights.len()
            invariant
                index <= self.flights@.len(),
                targets@ == fatal_targets(self.flights@, index as nat),
            decreases self.flights@.len() - index,
        {
            if self.flights[index].active {
                targets.push(self.flights[index].task.request_id.0);
            }
            index = index + 1;
        }
        if self.wake_active {
            targets.push(WAKE_REQUEST_ID);
        }
        targets
    }

    /// The cancellations that fit into the room, of entries that the ring still
    /// holds, and the rest of the queue.
    pub open spec fn fatal_batch(&self, picked: Seq<u64>, queue: Seq<u64>, available: int) -> (Seq<u64>, Seq<u64>)
        decreases queue.len(),
    {
        if picked.len() >= available || queue.len() == 0 {
            (picked, queue)
        } else if self.holds(queue[0]) {
            self.fatal_batch(picked.push(queue[0]), queue.skip(1), available)
        } else {
            self.fatal_batch(picked, queue.skip(1), available)
        }
    }

    /// Takes the next cancellations out of the queue, as far as there is room
    /// for them and the ring still holds what they cancel.
    pub fn next_fatal_cancels(&self, queue: &mut VecDeque<u64>, available: usize) -> (picked: Vec<u64>)
        ensures
            (picked@, final(queue)@) == self.fatal_batch(seq![], old(queue)@, available as int),
    {
        let mut picked: Vec<u64> = Vec::new();
        let mut more = true;
        while more && picked.len() < available
            invariant
                self.fatal_batch(picked@, queue@, available as int) == self.fatal_batch(
                    seq![],
                    old(queue)@,
                    available as int,
                ),
                !more ==> queue@.len() == 0,
            decreases (if more { 1int } else { 0int }), queue@.len(),
        {
            let ghost before = queue@;
            match queue.pop_front() {
                None => {
                    more = false;
                },
                Some(target) => {
                    assert(queue@ =~= before.skip(1));
                    if self.is_target_active(target) {
                        picked.push(target);
                    }
                },
            }
        }
        picked
    }

    /// Takes in a completion after the ring has failed. A request's own
    /// completion fences its buffer, which goes back with the failure; a
    /// cancellation's fences nothing.
    #[verifier::spinoff_prover]
    #[verifier::rlimit(30)]
    pub fn fatal_completion(&mut self, core: &mut EngineCore, user_data: u64, fault: IoFault, now_ns: u64) -> (completion:
        Option<IoCompletion>)
        requires
            old(self).wf(),
            old(self).accounts_for(old(core), 0),
        ensures
            final(self).wf(),
            final(self).accounts_for(final(core), 0),
            final(core).same_setup(old(core)),
            final(self).files == old(self).files,
            final(self).shutting_down == old(self).shutting_down,
            final(self).wake_active == (old(self).wake_active && !(target_of(user_data) is Wake)),
            final(self).wake_cancel_submitted == old(self).wake_cancel_submitted,
            final(self).wake_cancel_completed == old(self).wake_cancel_completed,
            final(self).pending_targets@ == old(self).pending_targets@,
            final(self).pending_cancels@ == old(self).pending_cancels@,
            completion is None ==> *final(core) == *old(core),
            match target_of(user_data) {
                CompletionTarget::Request(id) => match flight_of(old(self).flights@, id) {
                    Some(index) => {
                        let flight = old(self).flights@[index];
                        &&& final(self).flights@ == old(self).flights@.remove(index)
                        &&& completion == Some(
                            IoCompletion {
                                request_id: id,
                                kind: flight.task.operation.kind_of(),
                                status: CompletionStatus::Failed(fault),
                                bytes_transferred: flight.transferred,
                                buffer: flight.task.operation.buffer_of(),
                            },
                        )
                        &&& final(core).is_after_finish(
                            old(core),
                            id,
                            CompletionStatus::Failed(fault),
                            elapsed(flight.task.submitted_ns, now_ns),
                        )
                    },
                    None => completion is None && final(self).flights@ == old(self).flights@,
                },
                _ => completion is None && final(self).flights@ == old(self).flights@,
            },
    {
        match classify_completion(user_data) {
            CompletionTarget::Wake => {
                self.wake_active = false;
                None
            },
            CompletionTarget::Request(id) => match self.find(id) {
                Some(index) => {
                    let flight = self.remove_flight(index);
                    let elapsed_ns = now_ns.saturating_sub(flight.task.submitted_ns);
                    let transferred = flight.transferred;
                    Some(core.finish(flight.task, CompletionStatus::Failed(fault), transferred, elapsed_ns))
                },
                None => None,
            },
            _ => None,
        }
    }

    /// Whether some issued write or flush is not fenced.
    fn has_unfenced_mutation(&self) -> (unfenced: bool)
        ensures
            unfenced == some_unfenced(self.flights@),
    {
        let mut index: usize = 0;
        while index < self.flights.len()
            invariant
                index <= self.flights@.len(),
                forall|k: int|
                    0 <= k < index ==> !((#[trigger] self.flights@[k]).active
                        && self.flights@[k].task.operation.kind_of().mutates()),
            decreases self.flights@.len() - index,
        {
            if self.flights[index].active && self.flights[index].task.operation.kind().is_mutation() {
                return true;
            }
            index = index + 1;
        }
        false
    }

    /// Fails every request after the ring has failed, and stops the engine from
    /// accepting requests. Buffers that the kernel might still access go to
    /// `quarantine`, to be kept alive for good. `true` means that an issued
    /// write or flush could not be fenced: the file, and with it the lock on it,
    /// is to be kept for the life of the process.
    pub fn fail_all(
        &mut self,
        core: &mut EngineCore,
        fault: IoFault,
        now_ns: u64,
        completions: &mut Vec<IoCompletion>,
        quarantine: &mut Vec<IoBuffer>,
    ) -> (keep_files: bool)
        requires
            old(self).wf(),
            old(self).accounts_for(old(core), 0),
        ensures
            final(self).wf(),
            final(self).accounts_for(final(core), 0),
            final(self).flights@.len() == 0,
            final(self).same_wake(old(self)),
            final(self).files == old(self).files,
            final(self).pending_targets@ == old(self).pending_targets@,
            final(self).pending_cancels@ == old(self).pending_cancels@,
            !final(core).accepting,
            final(core).commands@.len() == 0,
            final(core).in_flight == 0,
            keep_files == some_unfenced(old(self).flights@),
            final(core).unfenced_mutations == (old(core).unfenced_mutations || keep_files),
            final(core).same_ids(old(core)),
            final(core).queue_depth == old(core).queue_depth,
            final(core).driver_alive == old(core).driver_alive,
            final(core).phase == old(core).phase,
            ({
                let failed = flights_failed(old(self).flights@, fault) + commands_failed(old(core).commands@, fault);
                &&& failed.len() == old(core).in_flight
                &&& final(completions)@ == old(completions)@ + failed
                &&& final(core).registry@ == unregistered(old(core).registry@, failed)
                &&& final(core).counters == tallied(
                    old(core).counters,
                    failed,
                    flight_times(old(self).flights@) + command_times(old(core).commands@),
                    now_ns,
                )
            }),
            final(quarantine)@ == old(quarantine)@ + withheld_buffers(old(self).flights@),
    {
        core.stop_accepting();
        let keep_files = self.has_unfenced_mutation();
        if keep_files {
            core.mark_unfenced_mutations();
        }
        let ghost before = self.flights@;
        let ghost commands = core.commands@;
        let ghost first = completions@;
        let ghost kept = quarantine@;
        let ghost in_flight = core.in_flight as int;
        let ghost mut added: Seq<IoCompletion> = Seq::empty();
        let ghost mut times: Seq<u64> = Seq::empty();
        let ghost mut held: Seq<IoBuffer> = Seq::empty();
        proof {
            assert(first + added =~= first);
            assert(kept + held =~= kept);
            assert(added + flights_failed(before, fault) =~= flights_failed(before, fault));
            assert(times + flight_times(before) =~= flight_times(before));
            assert(held + withheld_buffers(before) =~= withheld_buffers(before));
        }
        while self.flights.len() > 0
            invariant
                self.wf(),
                self.accounts_for(core, 0),
                before == old(self).flights@,
                commands == old(core).commands@,
                core.commands@ == commands,
                self.same_wake(old(self)),
                self.files == old(self).files,
                self.pending_targets@ == old(self).pending_targets@,
                self.pending_cancels@ == old(self).pending_cancels@,
                core.same_ids(old(core)),
                core.queue_depth == old(core).queue_depth,
                core.driver_alive == old(core).driver_alive,
                core.phase == old(core).phase,
                !core.accepting,
                core.unfenced_mutations == (old(core).unfenced_mutations || keep_files),
                core.in_flight == in_flight - added.len(),
                in_flight == old(core).in_flight,
                first == old(completions)@,
                completions@ == first + added,
                kept == old(quarantine)@,
                quarantine@ == kept + held,
                added.len() == times.len(),
                added + flights_failed(self.flights@, fault) == flights_failed(before, fault),
                times + flight_times(self.flights@) == flight_times(before),
                held + withheld_buffers(self.flights@) == withheld_buffers(before),
                core.registry@ == unregistered(old(core).registry@, added),
                core.counters == tallied(old(core).counters, added, times, now_ns),
            decreases self.flights@.len(),
        {
            let ghost flights = self.flights@;
            let last: usize = self.flights.len() - 1;
            let flight = self.remove_flight(last);
            assert(flight == flights.last());
            assert(self.flights@ =~= flights.drop_last());
            let elapsed_ns = now_ns.saturating_sub(flight.task.submitted_ns);
            let transferred = flight.transferred;
            let flush = match flight.task.operation.kind() {
                OperationKind::Flush => true,
                _ => false,
            };
            let status = CompletionStatus::Failed(fault);
            let ghost ended = flight;
            let ghost more = added.push(flight_failed(ended, fault));
            let ghost later = times.push(ended.task.submitted_ns);
            proof {
                assert(more.drop_last() =~= added);
                assert(later.drop_last() =~= times);
                assert(more + flights_failed(flights.drop_last(), fault) =~= added + flights_failed(flights, fault));
                assert(later + flight_times(flights.drop_last()) =~= times + flight_times(flights));
            }
            if flight.active && !flush {
                let (completion, buffer) = core.finish_quarantined(flight.task, status, transferred, elapsed_ns);
                completions.push(completion);
                if let Some(buffer) = buffer {
                    quarantine.push(buffer);
                }
                proof {
                    let ghost_held = if ended.task.operation.buffer_of() is Some {
                        held.push(ended.task.operation.buffer_of()->0)
                    } else {
                        held
                    };
                    assert(ghost_held + withheld_buffers(flights.drop_last()) =~= held + withheld_buffers(flights));
                    assert(quarantine@ =~= kept + ghost_held);
                    held = ghost_held;
                }
            } else {
                completions.push(core.finish(flight.task, status, transferred, elapsed_ns));
                assert(withheld_buffers(flights) =~= withheld_buffers(flights.drop_last()));
            }
            proof {
                added = more;
                times = later;
                assert(first + added =~= completions@);
            }
        }
        proof {
            assert(self.flights@ =~= Seq::<Flight>::empty());
            assert(added =~= flights_failed(before, fault));
            assert(times =~= flight_times(before));
            assert(held =~= withheld_buffers(before));
        }
        while core.commands.len() > 0
            invariant
                self.wf(),
                self.accounts_for(core, 0),
                self.flights@.len() == 0,
                before == old(self).flights@,
                self.same_wake(old(self)),
                self.files == old(self).files,
                self.pending_targets@ == old(self).pending_targets@,
                self.pending_cancels@ == old(self).pending_cancels@,
                commands == old(core).commands@,
                core.same_ids(old(core)),
                core.queue_depth == old(core).queue_depth,
                core.driver_alive == old(core).driver_alive,
                core.phase == old(core).phase,
                !core.accepting,
                core.unfenced_mutations == (old(core).unfenced_mutations || keep_files),
                core.in_flight == in_flight - added.len(),
                in_flight == old(core).in_flight,
                first == old(completions)@,
                completions@ == first + added,
                added.len() == times.len(),
                added + commands_failed(core.commands@, fault) == flights_failed(before, fault) + commands_failed(commands, fault),
                times + command_times(core.commands@) == flight_times(before) + command_times(commands),
                core.registry@ == unregistered(old(core).registry@, added),
                core.counters == tallied(old(core).counters, added, times, now_ns),
            decreases core.commands@.len(),
        {
            let ghost queue = core.commands@;
            proof {
                lemma_submissions_skip(queue);
            }
            let command = core.take_command();
            assert forall|k: int| 0 <= k < core.commands@.len() implies (#[trigger] core.commands@[k] matches DriverCommand::Submit(
                task,
            ) ==> task.operation.valid()) by {
                assert(core.commands@[k] == queue[k + 1]);
            }
            if let Some(DriverCommand::Submit(task)) = command {
                let elapsed_ns = now_ns.saturating_sub(task.submitted_ns);
                proof {
                    let more = added.push(command_failed(task, fault));
                    let later = times.push(task.submitted_ns);
                    assert(more.drop_last() =~= added);
                    assert(later.drop_last() =~= times);
                    assert(more + commands_failed(queue.skip(1), fault) =~= added + commands_failed(queue, fault));
                    assert(later + command_times(queue.skip(1)) =~= times + command_times(queue));
                    added = more;
                    times = later;
                }
                completions.push(core.finish(task, CompletionStatus::Failed(fault), 0, elapsed_ns));
                assert(first + added =~= completions@);
            } else {
                assert(commands_failed(queue.skip(1), fault) =~= commands_failed(queue, fault));
                assert(command_times(queue.skip(1)) =~= command_times(queue));
            }
        }
        proof {
            assert(added =~= flights_failed(before, fault) + commands_failed(commands, fault));
            assert(times =~= flight_times(before) + command_times(commands));
        }
        keep_files
    }
}

/// A request that is cancelled while it was written in part is never reported
/// as cancelled: what was written stays written.
pub proof fn law_partial_writes_are_not_cancelled(flight: Flight, result: i32, falls_back: bool)
    requires
        flight.wf(),
        flight.task.operation.length_of() <= MAX_REQUEST_BYTES,
        flight.task.operation.kind_of() is Write,
        flight.transferred > 0,
    ensures
        !(fate_of(flight, result, true, falls_back) is Cancelled),
        cancelled_status_of(flight) is Err,
        fate_of(flight, result, true, falls_back) matches Fate::CancelledBetween(last) ==> cancelled_status_of(last) is Err,
{
}

/// A request that goes on has made progress, or goes on without direct I/O:
/// completions cannot send it round for ever.
pub proof fn law_requests_make_progress(flight: Flight, result: i32, cancel_wanted: bool, falls_back: bool)
    requires
        flight.wf(),
        flight.task.operation.length_of() <= MAX_REQUEST_BYTES,
        falls_back ==> flight.path() is Direct,
        flight.force_buffered ==> flight.path() is Buffered,
    ensures
        fate_of(flight, result, cancel_wanted, falls_back) matches Fate::Again(next) ==> {
            &&& next.wf()
            &&& !next.active
            &&& next.task == flight.task
            &&& next.transferred > flight.transferred || (next.force_buffered && !flight.force_buffered)
        },
{
}

proof fn lemma_flight_in_range(flights: Seq<Flight>, id: RequestId)
    ensures
        flight_of(flights, id) matches Some(index) ==> 0 <= index < flights.len() && flights[index].task.request_id
            == id,
{
    if flight_of(flights, id) is Some {
        let found = choose|k: int| 0 <= k < flights.len() && (#[trigger] flights[k]).task.request_id == id;
        lemma_first_flight(flights, id, found);
    }
}

proof fn lemma_first_flight(flights: Seq<Flight>, id: RequestId, found: int)
    requires
        0 <= found < flights.len(),
        flights[found].task.request_id == id,
    ensures
        flight_of(flights, id) matches Some(index) && 0 <= index < flights.len() && flights[index].task.request_id == id,
    decreases found,
{
    if exists|j: int| 0 <= j < found && (#[trigger] flights[j]).task.request_id == id {
        let earlier = choose|j: int| 0 <= j < found && (#[trigger] flights[j]).task.request_id == id;
        lemma_first_flight(flights, id, earlier);
    } else {
        lemma_flight_of(flights, id, found);
    }
}

/// A request whose entry the ring holds stays with the driver, and its buffer
/// with it, whatever is planned: only its own completion ends it.
pub proof fn law_active_requests_keep_their_buffers(plan: SubmissionPlan, available: int, flight: Flight)
    requires
        plan.flights.contains(flight),
        flight.active,
    ensures
        planned(plan, available).flights.contains(flight),
    decreases plan.cancels.len() + plan.targets.len(),
{
    if plan.entries.len() >= available {
    } else if plan.cancels.len() > 0 {
        let id = plan.cancels[0];
        let rest = SubmissionPlan { cancels: plan.cancels.skip(1), ..plan };
        if flight_of(plan.flights, id) is Some {
            law_active_requests_keep_their_buffers(
                SubmissionPlan { entries: plan.entries.push(PendingEntry::Cancel(id)), ..rest },
                available,
                flight,
            );
        } else {
            law_active_requests_keep_their_buffers(rest, available, flight);
        }
    } else if plan.targets.len() > 0 {
        let id = plan.targets[0];
        let rest = SubmissionPlan { targets: plan.targets.skip(1), ..plan };
        match flight_of(plan.flights, id) {
            None => law_active_requests_keep_their_buffers(rest, available, flight),
            Some(index) => {
                lemma_flight_in_range(plan.flights, id);
                if plan.registry.contains_key(id.0) && plan.registry[id.0].cancel_requested && !plan.flights[index].active {
                    let shorter = plan.flights.remove(index);
                    let at = choose|at: int| 0 <= at < plan.flights.len() && plan.flights[at] == flight;
                    let to = if at < index {
                        at
                    } else {
                        at - 1
                    };
                    assert(shorter[to] == flight);
                    law_active_requests_keep_their_buffers(
                        SubmissionPlan {
                            flights: shorter,
                            registry: plan.registry.remove(id.0),
                            ended: plan.ended.push(plan.flights[index]),
                            ..rest
                        },
                        available,
                        flight,
                    );
                } else {
                    law_active_requests_keep_their_buffers(
                        SubmissionPlan { entries: plan.entries.push(PendingEntry::Target(id)), ..rest },
                        available,
                        flight,
                    );
                }
            },
        }
    }
}

// ---------------------------------------------------------------------------
// What completions and failures report
// ---------------------------------------------------------------------------

/// A request is reported as completed exactly if its entry came back without an
/// error and every byte is transferred, or for a flush without an error. An
/// error that is not accepted as a cancellation always ends the request with the
/// system's error and the bytes from before. A cancellation is reported only to
/// an owner who asked for one, and never of a write that was done in part.
pub proof fn law_completion_reports_what_happened(
    flight: Flight,
    result: i32,
    cancel_wanted: bool,
    falls_back: bool,
    fault: IoFault,
    completion: IoCompletion,
)
    requires
        flight.wf(),
        flight.task.operation.length_of() <= usize::MAX,
        fate_reported(fate_of(flight, result, cancel_wanted, falls_back), flight, fault, completion),
    ensures
        ({
            let flush = flight.task.operation is Flush;
            let read = flight.task.operation is Read;
            let length = flight.task.operation.length_of();
            let before = flight.transferred;
            let sum = before + result;
            let status = completion.status;
            let accepted = cancel_wanted && ((result == -125 && (read || before == 0)) || (result == -4 && read));
            &&& status is Completed <==> result >= 0 && (flush || sum == length)
            &&& status is Completed ==> completion.bytes_transferred == length
            &&& result < 0 ==> completion.bytes_transferred == before && !(falls_back && !cancel_wanted)
            &&& result < 0 && accepted ==> status == CompletionStatus::Cancelled
            &&& result < 0 && !accepted ==> status == CompletionStatus::Failed(fault)
            &&& status == CompletionStatus::Cancelled ==> cancel_wanted && (read || completion.bytes_transferred == 0)
            &&& result >= 0 && !flush && sum > length ==> (status matches CompletionStatus::Failed(found) && found.kind is InvalidData
                && completion.bytes_transferred == before)
            &&& result == 0 && !flush && before < length ==> (status matches CompletionStatus::Failed(found) && (if read {
                found.kind is UnexpectedEof
            } else {
                found.kind is WriteZero
            }) && completion.bytes_transferred == before)
            &&& result > 0 && !flush && sum < length ==> cancel_wanted && completion.bytes_transferred == sum && (if read {
                status == CompletionStatus::Cancelled
            } else {
                status matches CompletionStatus::Failed(found) && found.kind is Interrupted
            })
        }),
{
}

/// A request goes on exactly if part of it was transferred and nobody wants it
/// cancelled, or if the direct descriptor does not work; it goes on where it
/// stopped, and in the second case from where it was without direct I/O.
pub proof fn law_request_goes_on_where_it_stopped(flight: Flight, result: i32, cancel_wanted: bool, falls_back: bool)
    requires
        flight.wf(),
        flight.task.operation.length_of() <= usize::MAX,
    ensures
        ({
            let sum = flight.transferred + result;
            let partial = result > 0 && !(flight.task.operation is Flush) && sum < flight.task.operation.length_of();
            let again = !cancel_wanted && (partial || (result < 0 && falls_back));
            match fate_of(flight, result, cancel_wanted, falls_back) {
                Fate::Again(next) => {
                    &&& again
                    &&& next.task == flight.task
                    &&& !next.active
                    &&& next.active_path is None
                    &&& next.transferred == if result < 0 { flight.transferred as int } else { sum }
                    &&& next.force_buffered == (flight.force_buffered || result < 0)
                },
                _ => !again,
            }
        }),
{
}

/// Bytes are counted as they are transferred: those of a read or write that came
/// back with no more than was asked for.
pub proof fn law_transferred_bytes_are_counted(
    files: RuntimeFileSet,
    flight: Flight,
    result: i32,
    cancel_wanted: bool,
    unavailable: bool,
)
    requires
        flight.wf(),
    ensures
        ({
            let after = files_after(files, flight, result, cancel_wanted, unavailable);
            let moved = !(flight.task.operation is Flush) && 0 < result <= flight.task.operation.length_of() - flight.transferred;
            let given_up = result < 0 && !cancel_wanted && flight.active_path == Some(RuntimeIoPath::Direct) && unavailable
                && !files.direct_required;
            &&& moved ==> after == files.counted(flight.path(), result as u64)
            &&& given_up ==> after == files.without_direct()
            &&& !moved && !given_up ==> after == files
            &&& flight.active_path is None ==> flight.path() is Buffered
            &&& flight.active_path matches Some(path) ==> flight.path() == path
        }),
{
}

/// The direct descriptor takes only reads and records, of requests that were not
/// sent back from it, and only with address, length and offset of the rest
/// aligned.
pub proof fn law_direct_descriptor_takes_aligned_data(flight: Flight, files: RuntimeFileSet, address: usize)
    requires
        flight.wf(),
        flight.task.operation.length_of() <= usize::MAX,
    ensures
        flight_path(flight, files, address) is Direct <==> {
            &&& !flight.force_buffered
            &&& flight.task.operation is Read || (flight.task.operation matches IoOperation::Write { point, .. } && point
                == WritePoint::Record)
            &&& files.has_direct
            &&& files.stats.direct_active
            &&& address > 0
            &&& address as int % 4096 == 0
            &&& flight.transferred < flight.task.operation.length_of()
            &&& (flight.task.operation.length_of() - flight.transferred) % 4096 == 0
            &&& (flight.task.operation.offset_of() + flight.transferred) % 4096 == 0
        },
{
}

/// Completions are told apart by their marks.
pub proof fn law_completion_marks(user_data: u64)
    ensures
        user_data < 0x4000_0000_0000_0000 ==> target_of(user_data) == CompletionTarget::Request(RequestId(user_data)),
        user_data == 0x4000_0000_0000_0001 ==> target_of(user_data) is Wake,
        user_data == 0xc000_0000_0000_0001 ==> target_of(user_data) is WakeCancel,
        0x4000_0000_0000_0000 <= user_data < 0x8000_0000_0000_0000 && user_data != 0x4000_0000_0000_0001 ==> target_of(user_data) is Internal,
        0x8000_0000_0000_0000 <= user_data && user_data != 0xc000_0000_0000_0001 ==> target_of(user_data) is Cancel,
{
}

/// A request that is cancelled while the ring holds no entry for it ends
/// cancelled, unless it is a write of which something was done.
pub proof fn law_cancelled_before_it_was_queued(completion: IoCompletion, flight: Flight)
    requires
        reports_cancel(completion, flight),
    ensures
        completion.request_id == flight.task.request_id,
        completion.buffer == flight.task.operation.buffer_of(),
        completion.bytes_transferred == flight.transferred,
        !(completion.status is Completed),
        completion.status == CompletionStatus::Cancelled <==> flight.task.operation is Read || flight.transferred == 0,
        completion.status matches CompletionStatus::Failed(found) ==> found.kind is Interrupted,
{
}

/// Planning takes as much as there is room for.
#[verifier::rlimit(60)]
#[verifier::spinoff_prover]
pub proof fn law_plan_uses_the_room(plan: SubmissionPlan, available: int)
    ensures
        ({
            let after = planned(plan, available);
            &&& after.entries.len() >= available || (after.cancels.len() == 0 && after.targets.len() == 0)
            &&& after.entries.len() <= available || after.entries == plan.entries
            &&& plan.entries.is_prefix_of(after.entries)
            &&& after.entries.len() >= available && plan.entries.len() >= available ==> after == plan
        }),
    decreases plan.cancels.len() + plan.targets.len(),
{
    if plan.entries.len() >= available {
        assert(plan.entries =~= plan.entries.subrange(0, plan.entries.len() as int));
    } else if plan.cancels.len() > 0 {
        let id = plan.cancels[0];
        let rest = SubmissionPlan { cancels: plan.cancels.skip(1), ..plan };
        let more = SubmissionPlan { entries: plan.entries.push(PendingEntry::Cancel(id)), ..rest };
        let next = if flight_of(plan.flights, id) is Some { more } else { rest };
        law_plan_uses_the_room(next, available);
        lemma_entries_go_on(plan.entries, next.entries, planned(plan, available).entries);
    } else if plan.targets.len() > 0 {
        let id = plan.targets[0];
        let rest = SubmissionPlan { targets: plan.targets.skip(1), ..plan };
        let next = match flight_of(plan.flights, id) {
            None => rest,
            Some(index) => if plan.registry.contains_key(id.0) && plan.registry[id.0].cancel_requested && !plan.flights[index].active {
                SubmissionPlan {
                    flights: plan.flights.remove(index),
                    registry: plan.registry.remove(id.0),
                    ended: plan.ended.push(plan.flights[index]),
                    ..rest
                }
            } else {
                SubmissionPlan { entries: plan.entries.push(PendingEntry::Target(id)), ..rest }
            },
        };
        law_plan_uses_the_room(next, available);
        lemma_entries_go_on(plan.entries, next.entries, planned(plan, available).entries);
    } else {
        assert(plan.entries =~= plan.entries.subrange(0, plan.entries.len() as int));
    }
}

proof fn lemma_entries_go_on(first: Seq<PendingEntry>, second: Seq<PendingEntry>, third: Seq<PendingEntry>)
    requires
        first.len() <= second.len(),
        forall|k: int| 0 <= k < first.len() ==> first[k] == #[trigger] second[k],
        second.is_prefix_of(third),
    ensures
        first.is_prefix_of(third),
{
    assert(first =~= third.subrange(0, first.len() as int)) by {
        assert forall|k: int| 0 <= k < first.len() implies first[k] == third[k] by {
            assert(second[k] == third.subrange(0, second.len() as int)[k]);
        }
    }
}

/// The oldest cancellation of a request that is there is queued first; with none
/// waiting, the oldest request, unless its owner wants it cancelled and the ring
/// holds no entry for it.
pub proof fn law_oldest_is_queued_first(plan: SubmissionPlan, available: int, index: int)
    requires
        plan.entries.len() < available,
        0 <= index < plan.flights.len(),
        forall|j: int| 0 <= j < index ==> (#[trigger] plan.flights[j]).task.request_id != plan.flights[index].task.request_id,
    ensures
        ({
            let id = plan.flights[index].task.request_id;
            let after = planned(plan, available);
            let wanted = plan.registry.contains_key(id.0) && plan.registry[id.0].cancel_requested;
            &&& plan.cancels.len() > 0 && plan.cancels[0] == id ==> after.entries.len() > plan.entries.len()
                && after.entries[plan.entries.len() as int] == PendingEntry::Cancel(id)
            &&& plan.cancels.len() == 0 && plan.targets.len() > 0 && plan.targets[0] == id && !(wanted && !plan.flights[index].active)
                ==> after.entries.len() > plan.entries.len() && after.entries[plan.entries.len() as int] == PendingEntry::Target(id)
        }),
{
    let id = plan.flights[index].task.request_id;
    lemma_flight_of(plan.flights, id, index);
    if plan.cancels.len() > 0 && plan.cancels[0] == id {
        let next = SubmissionPlan {
            entries: plan.entries.push(PendingEntry::Cancel(id)),
            cancels: plan.cancels.skip(1),
            ..plan
        };
        law_plan_uses_the_room(next, available);
        assert(next.entries[plan.entries.len() as int] == PendingEntry::Cancel(id));
        assert(planned(next, available).entries.subrange(0, next.entries.len() as int)[plan.entries.len() as int]
            == PendingEntry::Cancel(id));
    } else if plan.cancels.len() == 0 && plan.targets.len() > 0 && plan.targets[0] == id {
        let next = SubmissionPlan {
            entries: plan.entries.push(PendingEntry::Target(id)),
            targets: plan.targets.skip(1),
            ..plan
        };
        law_plan_uses_the_room(next, available);
        assert(next.entries[plan.entries.len() as int] == PendingEntry::Target(id));
        assert(planned(next, available).entries.subrange(0, next.entries.len() as int)[plan.entries.len() as int]
            == PendingEntry::Target(id));
    }
}

/// Only requests that their owners want cancelled end while planning.
#[verifier::rlimit(60)]
#[verifier::spinoff_prover]
pub proof fn law_plan_ends_only_cancelled_requests(plan: SubmissionPlan, available: int, flight: Flight)
    requires
        plan.flights.contains(flight),
        !(plan.registry.contains_key(flight.task.request_id.0) && plan.registry[flight.task.request_id.0].cancel_requested),
    ensures
        planned(plan, available).flights.contains(flight),
    decreases plan.cancels.len() + plan.targets.len(),
{
    if plan.entries.len() >= available {
    } else if plan.cancels.len() > 0 {
        let id = plan.cancels[0];
        let rest = SubmissionPlan { cancels: plan.cancels.skip(1), ..plan };
        if flight_of(plan.flights, id) is Some {
            law_plan_ends_only_cancelled_requests(
                SubmissionPlan { entries: plan.entries.push(PendingEntry::Cancel(id)), ..rest },
                available,
                flight,
            );
        } else {
            law_plan_ends_only_cancelled_requests(rest, available, flight);
        }
    } else if plan.targets.len() > 0 {
        let id = plan.targets[0];
        let rest = SubmissionPlan { targets: plan.targets.skip(1), ..plan };
        match flight_of(plan.flights, id) {
            None => law_plan_ends_only_cancelled_requests(rest, available, flight),
            Some(index) => {
                lemma_flight_in_range(plan.flights, id);
                if plan.registry.contains_key(id.0) && plan.registry[id.0].cancel_requested && !plan.flights[index].active {
                    let shorter = plan.flights.remove(index);
                    let at = choose|at: int| 0 <= at < plan.flights.len() && plan.flights[at] == flight;
                    let to = if at < index {
                        at
                    } else {
                        at - 1
                    };
                    assert(shorter[to] == flight);
                    law_plan_ends_only_cancelled_requests(
                        SubmissionPlan {
                            flights: shorter,
                            registry: plan.registry.remove(id.0),
                            ended: plan.ended.push(plan.flights[index]),
                            ..rest
                        },
                        available,
                        flight,
                    );
                } else {
                    law_plan_ends_only_cancelled_requests(
                        SubmissionPlan { entries: plan.entries.push(PendingEntry::Target(id)), ..rest },
                        available,
                        flight,
                    );
                }
            },
        }
    }
}

/// A failed ring reports every request that it had taken on, as failed with the
/// ring's error and with the bytes that were transferred; its buffer comes back
/// unless the kernel might still access it.
pub proof fn law_failed_ring_reports_every_flight(flights: Seq<Flight>, fault: IoFault, k: int)
    requires
        0 <= k < flights.len(),
    ensures
        flights_failed(flights, fault).len() == flights.len(),
        ({
            let report = flights_failed(flights, fault)[flights.len() - 1 - k];
            let live = flights[k].active && !(flights[k].task.operation is Flush);
            &&& report.request_id == flights[k].task.request_id
            &&& report.status == CompletionStatus::Failed(fault)
            &&& report.bytes_transferred == flights[k].transferred
            &&& report.kind == flights[k].task.operation.kind_of()
            &&& report.buffer == if live { None } else { flights[k].task.operation.buffer_of() }
            &&& live ==> (flights[k].task.operation.buffer_of() matches Some(buffer) && withheld_buffers(flights).contains(buffer))
        }),
    decreases flights.len(),
{
    lemma_failed_count(flights.drop_last(), fault);
    let rest = withheld_buffers(flights.drop_last());
    let last = flights.last();
    if k < flights.len() - 1 {
        law_failed_ring_reports_every_flight(flights.drop_last(), fault, k);
        assert(flights_failed(flights, fault)[flights.len() - 1 - k] == flights_failed(flights.drop_last(), fault)[flights.len() - 2 - k]);
        if flights[k].active && !(flights[k].task.operation is Flush) {
            let buffer = flights[k].task.operation.buffer_of()->0;
            let at = rest.index_of(buffer);
            if withheld(last) && last.task.operation.buffer_of() is Some {
                assert(withheld_buffers(flights)[at + 1] == buffer);
            } else {
                assert(withheld_buffers(flights) == rest);
            }
        }
    } else if last.active && !(last.task.operation is Flush) {
        assert(withheld_buffers(flights)[0] == last.task.operation.buffer_of()->0);
    }
}

proof fn lemma_failed_count(flights: Seq<Flight>, fault: IoFault)
    ensures
        flights_failed(flights, fault).len() == flights.len(),
    decreases flights.len(),
{
    if flights.len() > 0 {
        lemma_failed_count(flights.drop_last(), fault);
    }
}

/// A failed ring reports every request that was still waiting as failed, with
/// nothing transferred and with its buffer.
pub proof fn law_failed_ring_reports_every_command(commands: Seq<DriverCommand>, fault: IoFault, k: int)
    requires
        0 <= k < commands.len(),
    ensures
        commands[k] matches DriverCommand::Submit(task) ==> commands_failed(commands, fault).contains(
            IoCompletion {
                request_id: task.request_id,
                kind: task.operation.kind_of(),
                status: CompletionStatus::Failed(fault),
                bytes_transferred: 0,
                buffer: task.operation.buffer_of(),
            },
        ),
    decreases commands.len(),
{
    let rest = commands_failed(commands.skip(1), fault);
    if commands[k] is Submit {
        let report = command_failed(commands[k]->Submit_0, fault);
        if k == 0 {
            assert(commands_failed(commands, fault)[0] == report);
        } else {
            law_failed_ring_reports_every_command(commands.skip(1), fault, k - 1);
            assert(commands.skip(1)[k - 1] == commands[k]);
            let at = rest.index_of(report);
            assert(rest[at] == report);
            if commands[0] is Submit {
                assert(commands_failed(commands, fault)[at + 1] == report);
            } else {
                assert(commands_failed(commands, fault) == rest);
            }
        }
    }
}

/// Reported requests are out of the registry, and no other one is.
pub proof fn law_reported_requests_leave_the_registry(registry: Map<u64, RequestControl>, completions: Seq<IoCompletion>, id: u64)
    ensures
        unregistered(registry, completions).contains_key(id) <==> registry.contains_key(id) && forall|k: int|
            0 <= k < completions.len() ==> (#[trigger] completions[k]).request_id.0 != id,
        unregistered(registry, completions).contains_key(id) ==> unregistered(registry, completions)[id] == registry[id],
    decreases completions.len(),
{
    if completions.len() > 0 {
        let fewer = completions.drop_last();
        law_reported_requests_leave_the_registry(registry, fewer, id);
        assert forall|k: int| 0 <= k < fewer.len() implies (#[trigger] fewer[k]) == completions[k] by {}
        if forall|k: int| 0 <= k < fewer.len() ==> (#[trigger] fewer[k]).request_id.0 != id {
            assert forall|k: int| 0 <= k < completions.len() && completions.last().request_id.0 != id implies (
            #[trigger] completions[k]).request_id.0 != id by {
                if k < fewer.len() {
                    assert(fewer[k] == completions[k]);
                }
            }
        } else {
            let k = choose|k: int| 0 <= k < fewer.len() && (#[trigger] fewer[k]).request_id.0 == id;
            assert(completions[k].request_id.0 == id);
        }
        assert(completions[completions.len() - 1] == completions.last());
    }
}

/// The cancellations that are wanted are those of requests that the ring holds,
/// whose owners ask for it and that have not been cancelled yet.
pub proof fn law_wanted_cancels(flights: Seq<Flight>, core: EngineCore, count: nat, k: int)
    requires
        count <= flights.len(),
        0 <= k < count,
        flights[k].active,
        !flights[k].cancel_submitted,
        core.registry@.contains_key(flights[k].task.request_id.0),
        core.registry@[flights[k].task.request_id.0].cancel_requested,
    ensures
        RingDriver::wanted_cancels(flights, &core, count).contains(flights[k].task.request_id),
    decreases count,
{
    let rest = RingDriver::wanted_cancels(flights, &core, (count - 1) as nat);
    let id = flights[k].task.request_id;
    let all = RingDriver::wanted_cancels(flights, &core, count);
    if k == count - 1 {
        assert(all[rest.len() as int] == id);
    } else {
        law_wanted_cancels(flights, core, (count - 1) as nat, k);
        let at = rest.index_of(id);
        assert(all[at] == id);
    }
}

/// No other request is cancelled.
pub proof fn law_unwanted_requests_are_not_cancelled(flights: Seq<Flight>, core: EngineCore, count: nat, id: RequestId)
    requires
        count <= flights.len(),
        RingDriver::wanted_cancels(flights, &core, count).contains(id),
    ensures
        exists|k: int|
            {
                &&& 0 <= k < count
                &&& (#[trigger] flights[k]).task.request_id == id
                &&& flights[k].active
                &&& !flights[k].cancel_submitted
                &&& core.registry@.contains_key(id.0)
                &&& core.registry@[id.0].cancel_requested
            },
    decreases count,
{
    if count > 0 {
        let rest = RingDriver::wanted_cancels(flights, &core, (count - 1) as nat);
        let all = RingDriver::wanted_cancels(flights, &core, count);
        let at = all.index_of(id);
        assert(all[at] == id);
        if at < rest.len() {
            assert(rest[at] == id);
            law_unwanted_requests_are_not_cancelled(flights, core, (count - 1) as nat, id);
        } else {
            assert(flights[count - 1].task.request_id == id);
        }
    }
}

/// A failed ring tries to cancel exactly the requests that it holds.
pub proof fn law_fatal_cancels_cover_the_ring(flights: Seq<Flight>, count: nat, user_data: u64)
    requires
        count <= flights.len(),
    ensures
        fatal_targets(flights, count).contains(user_data) <==> exists|k: int|
            0 <= k < count && (#[trigger] flights[k]).active && flights[k].task.request_id.0 == user_data,
    decreases count,
{
    if count > 0 {
        let rest = fatal_targets(flights, (count - 1) as nat);
        let all = fatal_targets(flights, count);
        law_fatal_cancels_cover_the_ring(flights, (count - 1) as nat, user_data);
        if rest.contains(user_data) {
            assert(all[rest.index_of(user_data)] == user_data);
        }
        if flights[count - 1].active {
            assert(all[rest.len() as int] == flights[count - 1].task.request_id.0);
        }
        if all.contains(user_data) {
            let at = all.index_of(user_data);
            if at < rest.len() {
                assert(rest[at] == user_data);
            }
        }
    }
}

/// A write or flush that the ring holds when it fails is not fenced.
pub proof fn law_unfenced_mutations(flights: Seq<Flight>)
    ensures
        some_unfenced(flights) <==> exists|k: int|
            0 <= k < flights.len() && (#[trigger] flights[k]).active && !(flights[k].task.operation is Read),
{
    if some_unfenced(flights) {
        let k = choose|k: int|
            0 <= k < flights.len() && (#[trigger] flights[k]).active && flights[k].task.operation.kind_of().mutates();
        assert(flights[k].active);
    }
    if exists|k: int| 0 <= k < flights.len() && (#[trigger] flights[k]).active && !(flights[k].task.operation is Read) {
        let k = choose|k: int| 0 <= k < flights.len() && (#[trigger] flights[k]).active && !(flights[k].task.operation is Read);
        assert(flights[k].task.operation.kind_of().mutates());
    }
}

/// A request's time runs from its submission; a clock that has gone back gives
/// none.
pub proof fn law_elapsed_time(start_ns: u64, now_ns: u64)
    ensures
        now_ns > start_ns ==> elapsed(start_ns, now_ns) + start_ns == now_ns,
        now_ns <= start_ns ==> elapsed(start_ns, now_ns) == 0,
{
}

/// Requests that end together are counted one by one, each with its own time.
pub proof fn law_ended_together_are_counted_one_by_one(
    counters: EngineCounters,
    completions: Seq<IoCompletion>,
    submitted: Seq<u64>,
    completion: IoCompletion,
    start_ns: u64,
    now_ns: u64,
)
    requires
        submitted.len() == completions.len(),
    ensures
        tallied(counters, Seq::empty(), Seq::empty(), now_ns) == counters,
        ({
            let before = tallied(counters, completions, submitted, now_ns);
            let after = tallied(counters, completions.push(completion), submitted.push(start_ns), now_ns);
            &&& after.completed as int == (before.completed + 1) % 0x1_0000_0000_0000_0000
            &&& after.cancelled as int == (before.cancelled + if completion.status is Cancelled { 1int } else { 0int })
                % 0x1_0000_0000_0000_0000
            &&& after.errors as int == (before.errors + if completion.status is Failed { 1int } else { 0int }) % 0x1_0000_0000_0000_0000
            &&& now_ns >= start_ns && before.completion_ns + (now_ns - start_ns) <= u64::MAX ==> after.completion_ns
                == before.completion_ns + (now_ns - start_ns)
        }),
{
    assert(completions.push(completion).drop_last() =~= completions);
    assert(submitted.push(start_ns).drop_last() =~= submitted);
}

/// The times of failed flights and commands stand in the order of their reports.
pub proof fn law_failed_requests_keep_their_times(flights: Seq<Flight>, flight: Flight, commands: Seq<DriverCommand>, command: DriverCommand)
    ensures
        flight_times(Seq::empty()) == Seq::<u64>::empty(),
        flight_times(flights.push(flight)) == seq![flight.task.submitted_ns] + flight_times(flights),
        command_times(Seq::empty()) == Seq::<u64>::empty(),
        command_times(seq![command] + commands) == (match command {
            DriverCommand::Submit(task) => seq![task.submitted_ns],
            _ => Seq::<u64>::empty(),
        }) + command_times(commands),
{
    assert(flights.push(flight).drop_last() =~= flights);
    assert((seq![command] + commands).skip(1) =~= commands);
    assert(Seq::<u64>::empty() + command_times(commands) =~= command_times(commands));
}

/// Submissions are those commands that hold a request.
pub proof fn law_submissions_are_counted(commands: Seq<DriverCommand>, command: DriverCommand)
    ensures
        submissions(Seq::empty()) == 0,
        submissions(commands.push(command)) == submissions(commands) + if command is Submit { 1nat } else { 0nat },
{
    assert(commands.push(command).drop_last() =~= commands);
}

/// A flight is found by its identifier exactly if there is one, and then the
/// first.
pub proof fn law_flights_are_found(flights: Seq<Flight>, id: RequestId)
    ensures
        flight_of(flights, id) matches Some(k) ==> {
            &&& 0 <= k < flights.len()
            &&& flights[k].task.request_id == id
            &&& forall|j: int| 0 <= j < k ==> (#[trigger] flights[j]).task.request_id != id
        },
        flight_of(flights, id) is None ==> forall|k: int| 0 <= k < flights.len() ==> (#[trigger] flights[k]).task.request_id != id,
{
    if flight_of(flights, id) is Some {
        lemma_some_flight_is_first(flights, id, choose|k: int| 0 <= k < flights.len() && (#[trigger] flights[k]).task.request_id == id);
    }
}

proof fn lemma_some_flight_is_first(flights: Seq<Flight>, id: RequestId, k: int)
    requires
        0 <= k < flights.len(),
        flights[k].task.request_id == id,
    ensures
        exists|first: int|
            {
                &&& 0 <= first < flights.len()
                &&& (#[trigger] flights[first]).task.request_id == id
                &&& forall|j: int| 0 <= j < first ==> (#[trigger] flights[j]).task.request_id != id
            },
    decreases k,
{
    if exists|j: int| 0 <= j < k && (#[trigger] flights[j]).task.request_id == id {
        let j = choose|j: int| 0 <= j < k && (#[trigger] flights[j]).task.request_id == id;
        lemma_some_flight_is_first(flights, id, j);
    }
}

/// A batch of cancels takes from the queue, in order, the marks of what the ring
/// still holds, until there is no more room; marks of others are dropped.
pub proof fn law_fatal_batches(driver: RingDriver, picked: Seq<u64>, mark: u64, rest: Seq<u64>, available: int)
    ensures
        driver.fatal_batch(picked, Seq::empty(), available) == (picked, Seq::<u64>::empty()),
        picked.len() >= available ==> driver.fatal_batch(picked, seq![mark] + rest, available) == (picked, seq![mark] + rest),
        picked.len() < available && driver.holds(mark) ==> driver.fatal_batch(picked, seq![mark] + rest, available)
            == driver.fatal_batch(picked + seq![mark], rest, available),
        picked.len() < available && !driver.holds(mark) ==> driver.fatal_batch(picked, seq![mark] + rest, available)
            == driver.fatal_batch(picked, rest, available),
{
    assert((seq![mark] + rest).skip(1) =~= rest);
    assert(picked.push(mark) =~= picked + seq![mark]);
    assert((seq![mark] + rest)[0] == mark);
}

/// A request's data stands behind what was transferred of its buffer.
pub proof fn law_flight_addresses(flight: Flight)
    ensures
        match flight.task.operation {
            IoOperation::Read { buffer, .. } => buffer.address_of() + flight.transferred <= usize::MAX ==> flight_address(flight)
                == buffer.address_of() + flight.transferred,
            IoOperation::Write { buffer, .. } => buffer.address_of() + flight.transferred <= usize::MAX ==> flight_address(flight)
                == buffer.address_of() + flight.transferred,
            IoOperation::Flush { .. } => flight_address(flight) == 0,
        },
{
}

/// A request that is taken up ends at once exactly if it was cancelled or has
/// nothing to transfer, with nothing transferred and its buffer back; else it
/// takes flight behind the others, from its start, and waits for its entry.
pub proof fn law_acceptances(
    before: RingDriver,
    core: EngineCore,
    task: Task,
    now_ns: u64,
    after: RingDriver,
    core_after: EngineCore,
    completion: Option<IoCompletion>,
)
    requires
        before.acceptance(core, task, now_ns, after, core_after, completion),
    ensures
        ({
            let cancelled = core.registry@.contains_key(task.request_id.0) && core.registry@[task.request_id.0].cancel_requested;
            let nothing = task.operation.length_of() == 0 && !(task.operation is Flush);
            &&& completion is Some <==> cancelled || nothing
            &&& completion matches Some(report) ==> {
                &&& report.request_id == task.request_id && report.bytes_transferred == 0
                &&& report.buffer == task.operation.buffer_of() && report.kind == task.operation.kind_of()
                &&& cancelled ==> report.status is Cancelled
                &&& !cancelled ==> report.status is Completed
                &&& after.flights@ == before.flights@ && after.pending_targets@ == before.pending_targets@
                &&& core_after.in_flight == core.in_flight - 1 && !core_after.registry@.contains_key(task.request_id.0)
            }
            &&& completion is None ==> {
                &&& core_after == core
                &&& after.flights@.len() == before.flights@.len() + 1
                &&& forall|k: int| 0 <= k < before.flights@.len() ==> after.flights@[k] == before.flights@[k]
                &&& after.flights@.last().task == task && after.flights@.last().transferred == 0
                &&& !after.flights@.last().active && !after.flights@.last().cancel_submitted && !after.flights@.last().force_buffered
                &&& after.pending_targets@ == before.pending_targets@ + seq![task.request_id]
            }
        }),
{
    assert(before.pending_targets@.push(task.request_id) =~= before.pending_targets@ + seq![task.request_id]);
}

/// A plan starts with what waits, and with a wake-up in front exactly if there
/// is room, the ring has none and the driver is not shutting down.
pub proof fn law_plans_keep_a_wake_up_in_the_ring(driver: RingDriver, core: &EngineCore, available: usize)
    ensures
        ({
            let start = driver.plan_start(core, available);
            let wanted = available > 0 && !driver.wake_active && !driver.shutting_down;
            &&& start.entries.len() == if wanted { 1int } else { 0int }
            &&& wanted ==> start.entries[0] is Wake
            &&& start.cancels == driver.pending_cancels@ && start.targets == driver.pending_targets@
            &&& start.flights == driver.flights@ && start.registry == core.registry@ && start.ended.len() == 0
        }),
{
}

/// A plan takes up cancels before requests, oldest first: a cancel of a request
/// that is still there gets an entry, and so does a request, unless it was
/// cancelled before the ring had it.
pub proof fn law_plans_step_by_step(plan: SubmissionPlan, available: int)
    ensures
        plan.entries.len() >= available ==> planned(plan, available) == plan,
        plan.entries.len() < available && plan.cancels.len() > 0 ==> ({
            let id = plan.cancels[0];
            let rest = SubmissionPlan { cancels: plan.cancels.skip(1), ..plan };
            &&& flight_of(plan.flights, id) is None ==> planned(plan, available) == planned(rest, available)
            &&& flight_of(plan.flights, id) is Some ==> planned(plan, available) == planned(
                (SubmissionPlan { entries: plan.entries.push(PendingEntry::Cancel(id)), ..rest }),
                available,
            )
        }),
        plan.entries.len() < available && plan.cancels.len() == 0 && plan.targets.len() > 0 ==> ({
            let id = plan.targets[0];
            let rest = SubmissionPlan { targets: plan.targets.skip(1), ..plan };
            let cancelled = plan.registry.contains_key(id.0) && plan.registry[id.0].cancel_requested;
            match flight_of(plan.flights, id) {
                None => planned(plan, available) == planned(rest, available),
                Some(k) => {
                    &&& !cancelled || plan.flights[k].active ==> planned(plan, available) == planned(
                        (SubmissionPlan { entries: plan.entries.push(PendingEntry::Target(id)), ..rest }),
                        available,
                    )
                    &&& cancelled && !plan.flights[k].active ==> planned(plan, available) == planned(
                        (SubmissionPlan {
                            flights: plan.flights.remove(k),
                            registry: plan.registry.remove(id.0),
                            ended: plan.ended.push(plan.flights[k]),
                            ..rest
                        }),
                        available,
                    )
                },
            }
        }),
        plan.cancels.len() == 0 && plan.targets.len() == 0 ==> planned(plan, available) == plan,
{
}

} // verus!
