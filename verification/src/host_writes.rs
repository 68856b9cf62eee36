//! Host-write accounting, the daily write budget and write amplification.

use vstd::prelude::*;

use crate::policy::PolicyBuildError;

verus! {

/// Seconds in one UTC day.
pub const SECONDS_PER_UTC_DAY: u64 = 86_400;

/// The UTC day that a Unix time in seconds falls on.
pub fn utc_day_of(unix_seconds: u64) -> (day: u64)
    ensures
        day == unix_seconds / SECONDS_PER_UTC_DAY,
{
    unix_seconds / SECONDS_PER_UTC_DAY
}

/// `counter + amount`, sticking at the maximum.
pub open spec fn counted(counter: u64, amount: u64) -> u64 {
    if counter + amount <= u64::MAX {
        (counter + amount) as u64
    } else {
        u64::MAX
    }
}

/// `counter - amount`, sticking at zero.
pub open spec fn uncounted(counter: u64, amount: u64) -> u64 {
    if amount <= counter {
        (counter - amount) as u64
    } else {
        0
    }
}

/// Source of submitted host-write bytes.
#[non_exhaustive]
#[derive(Clone, Copy, Debug, PartialEq, Eq, Structural)]
pub enum HostWriteKind {
    ForegroundRecord,
    Reinsertion,
    /// Background reclaim data copies other than ordinary hit reinsertion.
    Reclaimer,
    /// Correctness-required tombstone copies performed before victim reuse.
    ForcedTombstone,
    Metadata,
    Checkpoint,
}

/// Host-write totals at one time.
#[derive(Clone, Copy, Debug, PartialEq, Eq, Structural)]
pub struct HostWriteSnapshot {
    pub host_write_operations: u64,
    pub host_write_bytes: u64,
    pub foreground_record_bytes: u64,
    pub reinsertion_bytes: u64,
    pub reclaimer_bytes: u64,
    pub forced_tombstone_bytes: u64,
    pub metadata_bytes: u64,
    pub checkpoint_bytes: u64,
    pub admitted_value_bytes: u64,
    /// Total submitted host bytes per 1,000 admitted logical value bytes.
    pub write_amplification_milli: u64,
    pub failed_write_operations: u64,
    pub utc_day: u64,
    pub daily_host_write_bytes: u64,
    pub daily_budget_used_bytes: u64,
    pub daily_budget_reserved_bytes: u64,
    pub daily_budget_bytes: Option<u64>,
    pub daily_budget_remaining_bytes: Option<u64>,
    pub daily_budget_rejections: u64,
    pub daily_budget_exceeded: bool,
}

impl Default for HostWriteSnapshot {
    fn default() -> (snapshot: HostWriteSnapshot)
        ensures
            snapshot == HostWriteTracker::fresh(None, 0, 0).snapshot_spec(0),
    {
        HostWriteSnapshot {
            host_write_operations: 0,
            host_write_bytes: 0,
            foreground_record_bytes: 0,
            reinsertion_bytes: 0,
            reclaimer_bytes: 0,
            forced_tombstone_bytes: 0,
            metadata_bytes: 0,
            checkpoint_bytes: 0,
            admitted_value_bytes: 0,
            write_amplification_milli: 0,
            failed_write_operations: 0,
            utc_day: 0,
            daily_host_write_bytes: 0,
            daily_budget_used_bytes: 0,
            daily_budget_reserved_bytes: 0,
            daily_budget_bytes: None,
            daily_budget_remaining_bytes: None,
            daily_budget_rejections: 0,
            daily_budget_exceeded: false,
        }
    }
}

/// A request exceeds what is left of the day's host-write budget.
#[derive(Clone, Copy, Debug, PartialEq, Eq, Structural)]
pub struct DailyWriteBudgetExceeded;

impl DailyWriteBudgetExceeded {
    /// The error in words.
    pub fn message(&self) -> (message: &'static str)
        ensures
            message@ == "daily host-write budget is exhausted"@,
    {
        "daily host-write budget is exhausted"
    }
}

/// What has been written, used and reserved on one UTC day.
#[derive(Clone, Copy, Debug, PartialEq, Eq, Structural)]
pub struct DailyWriteWindow {
    pub utc_day: u64,
    pub host_write_bytes: u64,
    pub budget_used_bytes: u64,
    pub budget_reserved_bytes: u64,
    pub budget_rejections: u64,
}

impl DailyWriteWindow {
    /// The window seen on a day: an empty one if it belongs to another day.
    pub open spec fn on(self, utc_day: u64) -> DailyWriteWindow {
        if self.utc_day != utc_day {
            DailyWriteWindow {
                utc_day,
                host_write_bytes: 0,
                budget_used_bytes: 0,
                budget_reserved_bytes: 0,
                budget_rejections: 0,
            }
        } else {
            self
        }
    }

    /// Bytes that count against the budget, without those still reserved.
    pub open spec fn spent(self) -> u64 {
        if self.host_write_bytes >= self.budget_used_bytes {
            self.host_write_bytes
        } else {
            self.budget_used_bytes
        }
    }

    fn reset_if_needed(&mut self, utc_day: u64)
        ensures
            *final(self) == old(self).on(utc_day),
    {
        if self.utc_day != utc_day {
            self.utc_day = utc_day;
            self.host_write_bytes = 0;
            self.budget_used_bytes = 0;
            self.budget_reserved_bytes = 0;
            self.budget_rejections = 0;
        }
    }
}

/// Expected record bytes held against one day's budget.
#[derive(Debug, PartialEq, Eq, Structural)]
pub struct DailyWriteReservation {
    pub bytes: u64,
    pub utc_day: u64,
}

/// Host-write and write-amplification accounting since cache open.
///
/// The optional limit is a fixed UTC-day budget. Foreground code reserves its
/// expected record bytes before marking the cache dirty. Metadata needed to
/// complete an already accepted durability transition is always recorded and
/// may set `daily_budget_exceeded`; it is never rejected mid-commit.
#[derive(Clone, Copy, Debug, PartialEq, Eq, Structural)]
pub struct HostWriteTracker {
    pub daily_budget_bytes: Option<u64>,
    pub host_write_operations: u64,
    pub host_write_bytes: u64,
    pub foreground_record_bytes: u64,
    pub reinsertion_bytes: u64,
    pub reclaimer_bytes: u64,
    pub forced_tombstone_bytes: u64,
    pub metadata_bytes: u64,
    pub checkpoint_bytes: u64,
    pub admitted_value_bytes: u64,
    pub failed_write_operations: u64,
    pub daily: DailyWriteWindow,
}

/// `1000 * numerator / denominator`, sticking at the maximum; zero over zero
/// admitted bytes.
pub open spec fn milli_ratio(numerator: u64, denominator: u64) -> u64 {
    if denominator == 0 {
        0
    } else if (numerator * 1000) / (denominator as int) <= u64::MAX {
        ((numerator * 1000) / (denominator as int)) as u64
    } else {
        u64::MAX
    }
}

/// Total submitted bytes per 1,000 admitted bytes.
pub fn ratio_milli(numerator: u64, denominator: u64) -> (ratio: u64)
    ensures
        ratio == milli_ratio(numerator, denominator),
{
    if denominator == 0 {
        return 0;
    }
    assert(numerator * 1000 <= 0x1_0000_0000_0000_0000 * 1000);
    let quotient: u128 = (numerator as u128 * 1000) / (denominator as u128);
    if quotient > u64::MAX as u128 {
        u64::MAX
    } else {
        quotient as u64
    }
}

impl HostWriteTracker {
    /// A tracker that has recorded nothing but a baseline for the day.
    pub open spec fn fresh(daily_budget_bytes: Option<u64>, utc_day: u64, baseline_bytes: u64) -> HostWriteTracker {
        HostWriteTracker {
            daily_budget_bytes,
            host_write_operations: 0,
            host_write_bytes: 0,
            foreground_record_bytes: 0,
            reinsertion_bytes: 0,
            reclaimer_bytes: 0,
            forced_tombstone_bytes: 0,
            metadata_bytes: 0,
            checkpoint_bytes: 0,
            admitted_value_bytes: 0,
            failed_write_operations: 0,
            daily: DailyWriteWindow {
                utc_day,
                host_write_bytes: baseline_bytes,
                budget_used_bytes: baseline_bytes,
                budget_reserved_bytes: 0,
                budget_rejections: 0,
            },
        }
    }

    /// Spent, reserved and requested bytes stay within the day's budget.
    pub open spec fn affords(self, bytes: u64, utc_day: u64) -> bool {
        let daily = self.daily.on(utc_day);
        let prospective = daily.spent() + daily.budget_reserved_bytes + bytes;
        prospective <= u64::MAX && match self.daily_budget_bytes {
            Some(budget) => prospective <= budget,
            None => true,
        }
    }

    /// The tracker once the bytes have been reserved.
    pub open spec fn reserved(self, bytes: u64, utc_day: u64) -> HostWriteTracker {
        let daily = self.daily.on(utc_day);
        HostWriteTracker {
            daily: DailyWriteWindow {
                budget_reserved_bytes: (daily.budget_reserved_bytes + bytes) as u64,
                ..daily
            },
            ..self
        }
    }

    /// The tracker once the reservation has been given back.
    pub open spec fn released(self, reservation: DailyWriteReservation, utc_day: u64) -> HostWriteTracker {
        let daily = self.daily.on(utc_day);
        HostWriteTracker {
            daily: DailyWriteWindow {
                budget_reserved_bytes: if utc_day == reservation.utc_day {
                    uncounted(daily.budget_reserved_bytes, reservation.bytes)
                } else {
                    daily.budget_reserved_bytes
                },
                ..daily
            },
            ..self
        }
    }

    /// The tracker once the reservation has been turned into used bytes.
    pub open spec fn used(self, reservation: DailyWriteReservation, utc_day: u64) -> HostWriteTracker {
        let released = self.released(reservation, utc_day);
        HostWriteTracker {
            daily: DailyWriteWindow {
                budget_used_bytes: counted(released.daily.budget_used_bytes, reservation.bytes),
                ..released.daily
            },
            ..released
        }
    }

    /// The tracker once a submitted write has been counted.
    pub open spec fn recorded(self, kind: HostWriteKind, bytes: u64, utc_day: u64) -> HostWriteTracker {
        let daily = self.daily.on(utc_day);
        let total = HostWriteTracker {
            host_write_operations: counted(self.host_write_operations, 1),
            host_write_bytes: counted(self.host_write_bytes, bytes),
            daily: DailyWriteWindow { host_write_bytes: counted(daily.host_write_bytes, bytes), ..daily },
            ..self
        };
        match kind {
            HostWriteKind::ForegroundRecord => HostWriteTracker {
                foreground_record_bytes: counted(self.foreground_record_bytes, bytes),
                ..total
            },
            HostWriteKind::Reinsertion => HostWriteTracker {
                reinsertion_bytes: counted(self.reinsertion_bytes, bytes),
                ..total
            },
            HostWriteKind::Reclaimer => HostWriteTracker {
                reclaimer_bytes: counted(self.reclaimer_bytes, bytes),
                ..total
            },
            HostWriteKind::ForcedTombstone => HostWriteTracker {
                forced_tombstone_bytes: counted(self.forced_tombstone_bytes, bytes),
                ..total
            },
            HostWriteKind::Metadata => HostWriteTracker { metadata_bytes: counted(self.metadata_bytes, bytes), ..total },
            HostWriteKind::Checkpoint => HostWriteTracker {
                checkpoint_bytes: counted(self.checkpoint_bytes, bytes),
                ..total
            },
        }
    }

    /// The bytes of all kinds of writes together.
    pub open spec fn bytes_by_kind(self) -> int {
        self.foreground_record_bytes + self.reinsertion_bytes + self.reclaimer_bytes + self.forced_tombstone_bytes
            + self.metadata_bytes + self.checkpoint_bytes
    }

    /// The totals on a day.
    pub open spec fn snapshot_spec(self, utc_day: u64) -> HostWriteSnapshot {
        let daily = self.daily.on(utc_day);
        HostWriteSnapshot {
            host_write_operations: self.host_write_operations,
            host_write_bytes: self.host_write_bytes,
            foreground_record_bytes: self.foreground_record_bytes,
            reinsertion_bytes: self.reinsertion_bytes,
            reclaimer_bytes: self.reclaimer_bytes,
            forced_tombstone_bytes: self.forced_tombstone_bytes,
            metadata_bytes: self.metadata_bytes,
            checkpoint_bytes: self.checkpoint_bytes,
            admitted_value_bytes: self.admitted_value_bytes,
            write_amplification_milli: milli_ratio(self.host_write_bytes, self.admitted_value_bytes),
            failed_write_operations: self.failed_write_operations,
            utc_day,
            daily_host_write_bytes: daily.host_write_bytes,
            daily_budget_used_bytes: daily.budget_used_bytes,
            daily_budget_reserved_bytes: daily.budget_reserved_bytes,
            daily_budget_bytes: self.daily_budget_bytes,
            daily_budget_remaining_bytes: match self.daily_budget_bytes {
                Some(budget) => Some(uncounted(budget, daily.spent())),
                None => None,
            },
            daily_budget_rejections: daily.budget_rejections,
            daily_budget_exceeded: match self.daily_budget_bytes {
                Some(budget) => daily.spent() > budget,
                None => false,
            },
        }
    }

    /// A tracker for the day, with the bytes that an earlier run of the same
    /// day has already used.
    pub fn try_new(
        daily_budget_bytes: Option<u64>,
        daily_baseline: Option<(u64, u64)>,
        utc_day: u64,
    ) -> (result: Result<HostWriteTracker, PolicyBuildError>)
        ensures
            match result {
                Ok(tracker) => daily_budget_bytes != Some(0u64) && tracker == HostWriteTracker::fresh(
                    daily_budget_bytes,
                    utc_day,
                    match daily_baseline {
                        Some((day, bytes)) => if day == utc_day {
                            bytes
                        } else {
                            0
                        },
                        None => 0,
                    },
                ),
                Err(PolicyBuildError::Invalid(message)) => {
                    &&& daily_budget_bytes == Some(0u64)
                    &&& message@ == "daily host-write budget must be greater than zero when enabled"@
                },
                Err(PolicyBuildError::Allocation) => false,
            },
    {
        if daily_budget_bytes == Some(0) {
            return Err(PolicyBuildError::Invalid("daily host-write budget must be greater than zero when enabled"));
        }
        let baseline_bytes: u64 = match daily_baseline {
            Some((baseline_day, bytes)) => if baseline_day == utc_day {
                bytes
            } else {
                0
            },
            None => 0,
        };
        Ok(HostWriteTracker::new_at(daily_budget_bytes, utc_day, baseline_bytes))
    }

    /// A tracker for the day that starts from a baseline.
    pub fn new_at(daily_budget_bytes: Option<u64>, utc_day: u64, baseline_bytes: u64) -> (tracker: HostWriteTracker)
        ensures
            tracker == HostWriteTracker::fresh(daily_budget_bytes, utc_day, baseline_bytes),
    {
        HostWriteTracker {
            daily_budget_bytes,
            host_write_operations: 0,
            host_write_bytes: 0,
            foreground_record_bytes: 0,
            reinsertion_bytes: 0,
            reclaimer_bytes: 0,
            forced_tombstone_bytes: 0,
            metadata_bytes: 0,
            checkpoint_bytes: 0,
            admitted_value_bytes: 0,
            failed_write_operations: 0,
            daily: DailyWriteWindow {
                utc_day,
                host_write_bytes: baseline_bytes,
                budget_used_bytes: baseline_bytes,
                budget_reserved_bytes: 0,
                budget_rejections: 0,
            },
        }
    }

    /// Reserves expected record bytes against the fixed UTC-day device budget.
    pub fn try_reserve_daily_at(&mut self, bytes: u64, utc_day: u64) -> (result: Result<
        DailyWriteReservation,
        DailyWriteBudgetExceeded,
    >)
        ensures
            match result {
                Ok(reservation) => {
                    &&& old(self).affords(bytes, utc_day)
                    &&& reservation == (DailyWriteReservation { bytes, utc_day })
                    &&& *final(self) == old(self).reserved(bytes, utc_day)
                },
                Err(_) => {
                    let daily = old(self).daily.on(utc_day);
                    &&& !old(self).affords(bytes, utc_day)
                    &&& *final(self) == (HostWriteTracker {
                        daily: DailyWriteWindow { budget_rejections: counted(daily.budget_rejections, 1), ..daily },
                        ..*old(self)
                    })
                },
            },
    {
        let mut daily = self.daily;
        daily.reset_if_needed(utc_day);
        let already_used = if daily.host_write_bytes >= daily.budget_used_bytes {
            daily.host_write_bytes
        } else {
            daily.budget_used_bytes
        };
        let prospective: Option<u64> = match already_used.checked_add(daily.budget_reserved_bytes) {
            Some(used) => used.checked_add(bytes),
            None => None,
        };
        let affordable = match prospective {
            Some(used) => match self.daily_budget_bytes {
                Some(budget) => used <= budget,
                None => true,
            },
            None => false,
        };
        if !affordable {
            daily.budget_rejections = daily.budget_rejections.saturating_add(1);
            self.daily = daily;
            return Err(DailyWriteBudgetExceeded);
        }
        daily.budget_reserved_bytes = daily.budget_reserved_bytes + bytes;
        self.daily = daily;
        Ok(DailyWriteReservation { bytes, utc_day })
    }

    /// Counts a submitted host write. Failed submissions may still have reached
    /// the device, so this is called at submission rather than completion.
    pub fn record_write_at(&mut self, kind: HostWriteKind, bytes: u64, utc_day: u64)
        ensures
            *final(self) == old(self).recorded(kind, bytes, utc_day),
    {
        self.host_write_operations = self.host_write_operations.saturating_add(1);
        self.host_write_bytes = self.host_write_bytes.saturating_add(bytes);
        match kind {
            HostWriteKind::ForegroundRecord => {
                self.foreground_record_bytes = self.foreground_record_bytes.saturating_add(bytes);
            },
            HostWriteKind::Reinsertion => {
                self.reinsertion_bytes = self.reinsertion_bytes.saturating_add(bytes);
            },
            HostWriteKind::Reclaimer => {
                self.reclaimer_bytes = self.reclaimer_bytes.saturating_add(bytes);
            },
            HostWriteKind::ForcedTombstone => {
                self.forced_tombstone_bytes = self.forced_tombstone_bytes.saturating_add(bytes);
            },
            HostWriteKind::Metadata => {
                self.metadata_bytes = self.metadata_bytes.saturating_add(bytes);
            },
            HostWriteKind::Checkpoint => {
                self.checkpoint_bytes = self.checkpoint_bytes.saturating_add(bytes);
            },
        }
        let mut daily = self.daily;
        daily.reset_if_needed(utc_day);
        daily.host_write_bytes = daily.host_write_bytes.saturating_add(bytes);
        self.daily = daily;
    }

    /// Counts the bytes of an admitted value.
    pub fn record_admitted_value(&mut self, bytes: u64)
        ensures
            *final(self) == (HostWriteTracker {
                admitted_value_bytes: counted(old(self).admitted_value_bytes, bytes),
                ..*old(self)
            }),
    {
        self.admitted_value_bytes = self.admitted_value_bytes.saturating_add(bytes);
    }

    /// Counts a failed write.
    pub fn record_write_failure(&mut self)
        ensures
            *final(self) == (HostWriteTracker {
                failed_write_operations: counted(old(self).failed_write_operations, 1),
                ..*old(self)
            }),
    {
        self.failed_write_operations = self.failed_write_operations.saturating_add(1);
    }

    /// The totals on a day.
    pub fn snapshot_at(&mut self, utc_day: u64) -> (snapshot: HostWriteSnapshot)
        ensures
            snapshot == old(self).snapshot_spec(utc_day),
            *final(self) == (HostWriteTracker { daily: old(self).daily.on(utc_day), ..*old(self) }),
    {
        let mut daily = self.daily;
        daily.reset_if_needed(utc_day);
        self.daily = daily;
        let daily_used = if daily.host_write_bytes >= daily.budget_used_bytes {
            daily.host_write_bytes
        } else {
            daily.budget_used_bytes
        };
        HostWriteSnapshot {
            host_write_operations: self.host_write_operations,
            host_write_bytes: self.host_write_bytes,
            foreground_record_bytes: self.foreground_record_bytes,
            reinsertion_bytes: self.reinsertion_bytes,
            reclaimer_bytes: self.reclaimer_bytes,
            forced_tombstone_bytes: self.forced_tombstone_bytes,
            metadata_bytes: self.metadata_bytes,
            checkpoint_bytes: self.checkpoint_bytes,
            admitted_value_bytes: self.admitted_value_bytes,
            write_amplification_milli: ratio_milli(self.host_write_bytes, self.admitted_value_bytes),
            failed_write_operations: self.failed_write_operations,
            utc_day: daily.utc_day,
            daily_host_write_bytes: daily.host_write_bytes,
            daily_budget_used_bytes: daily.budget_used_bytes,
            daily_budget_reserved_bytes: daily.budget_reserved_bytes,
            daily_budget_bytes: self.daily_budget_bytes,
            daily_budget_remaining_bytes: match self.daily_budget_bytes {
                Some(budget) => Some(budget.saturating_sub(daily_used)),
                None => None,
            },
            daily_budget_rejections: daily.budget_rejections,
            daily_budget_exceeded: match self.daily_budget_bytes {
                Some(budget) => daily_used > budget,
                None => false,
            },
        }
    }

    /// Turns reserved bytes into used bytes. A reservation of an earlier day
    /// counts on the day of the commit.
    pub fn commit_daily(&mut self, reservation: DailyWriteReservation, current_day: u64)
        ensures
            *final(self) == old(self).used(reservation, current_day),
    {
        let mut daily = self.daily;
        daily.reset_if_needed(current_day);
        if daily.utc_day == reservation.utc_day {
            daily.budget_reserved_bytes = daily.budget_reserved_bytes.saturating_sub(reservation.bytes);
        }
        daily.budget_used_bytes = daily.budget_used_bytes.saturating_add(reservation.bytes);
        self.daily = daily;
    }

    /// Gives reserved bytes back.
    pub fn release_daily(&mut self, reservation: DailyWriteReservation, current_day: u64)
        ensures
            *final(self) == old(self).released(reservation, current_day),
    {
        let mut daily = self.daily;
        daily.reset_if_needed(current_day);
        if daily.utc_day == reservation.utc_day {
            daily.budget_reserved_bytes = daily.budget_reserved_bytes.saturating_sub(reservation.bytes);
        }
        self.daily = daily;
    }
}

/// A reservation that is given back on the same day leaves no trace.
pub proof fn law_released_reservation_leaves_no_trace(tracker: HostWriteTracker, bytes: u64, utc_day: u64)
    requires
        tracker.affords(bytes, utc_day),
    ensures
        tracker.reserved(bytes, utc_day).released(DailyWriteReservation { bytes, utc_day }, utc_day) == (HostWriteTracker {
            daily: tracker.daily.on(utc_day),
            ..tracker
        }),
{
}

/// No granted reservation takes the day's spent and reserved bytes over the
/// budget.
pub proof fn law_reservations_stay_within_budget(tracker: HostWriteTracker, bytes: u64, utc_day: u64)
    requires
        tracker.affords(bytes, utc_day),
    ensures
        tracker.daily_budget_bytes matches Some(budget) ==> tracker.reserved(bytes, utc_day).daily.spent()
            + tracker.reserved(bytes, utc_day).daily.budget_reserved_bytes <= budget,
{
}

/// Every submitted write is counted under exactly one kind: until a counter
/// sticks, the kinds add up to the total.
pub proof fn law_kinds_add_up_to_total(tracker: HostWriteTracker, kind: HostWriteKind, bytes: u64, utc_day: u64)
    requires
        tracker.bytes_by_kind() == tracker.host_write_bytes,
        tracker.host_write_bytes + bytes <= u64::MAX,
    ensures
        tracker.recorded(kind, bytes, utc_day).bytes_by_kind() == tracker.recorded(kind, bytes, utc_day).host_write_bytes,
{
}

/// A new day starts with nothing written, used, reserved or rejected, whatever
/// the totals since open are.
pub proof fn law_new_day_starts_empty(tracker: HostWriteTracker, utc_day: u64)
    requires
        tracker.daily.utc_day != utc_day,
    ensures
        tracker.snapshot_spec(utc_day).daily_host_write_bytes == 0,
        tracker.snapshot_spec(utc_day).daily_budget_used_bytes == 0,
        tracker.snapshot_spec(utc_day).daily_budget_reserved_bytes == 0,
        tracker.snapshot_spec(utc_day).daily_budget_rejections == 0,
        !tracker.snapshot_spec(utc_day).daily_budget_exceeded,
        tracker.snapshot_spec(utc_day).host_write_bytes == tracker.host_write_bytes,
{
}

/// Counters add up and stop at the largest number, and never go below zero.
pub proof fn law_write_counters(counter: u64, amount: u64)
    ensures
        counter + amount <= u64::MAX ==> counted(counter, amount) == counter + amount,
        counter + amount > u64::MAX ==> counted(counter, amount) == u64::MAX,
        amount <= counter ==> uncounted(counter, amount) == counter - amount,
        amount > counter ==> uncounted(counter, amount) == 0,
{
}

/// The day's window is kept through the day and starts over, empty, on any other.
pub proof fn law_windows_last_a_day(window: DailyWriteWindow, utc_day: u64)
    ensures
        window.on(utc_day).utc_day == utc_day,
        window.utc_day == utc_day ==> window.on(utc_day) == window,
        window.utc_day != utc_day ==> ({
            let fresh = window.on(utc_day);
            &&& fresh.host_write_bytes == 0 && fresh.budget_used_bytes == 0
            &&& fresh.budget_reserved_bytes == 0 && fresh.budget_rejections == 0
        }),
        window.on(utc_day).on(utc_day) == window.on(utc_day),
{
}

/// A write is afforded exactly if what was written or promised today, what is
/// reserved and the write itself stay within the budget; without a budget always,
/// as far as they can be added.
pub proof fn law_affordable_writes(tracker: HostWriteTracker, bytes: u64, utc_day: u64)
    ensures
        ({
            let today = tracker.daily.utc_day == utc_day;
            let written = if today { tracker.daily.host_write_bytes as int } else { 0 };
            let promised = if today { tracker.daily.budget_used_bytes as int } else { 0 };
            let reserved = if today { tracker.daily.budget_reserved_bytes as int } else { 0 };
            let limit = match tracker.daily_budget_bytes {
                Some(budget) => budget as int,
                None => u64::MAX as int,
            };
            tracker.affords(bytes, utc_day) <==> written + reserved + bytes <= limit && promised + reserved + bytes <= limit
        }),
{
}

/// A reservation adds its bytes to those reserved today; giving it back takes
/// them off again on that day only; using it also adds them to those used.
pub proof fn law_reservations(tracker: HostWriteTracker, bytes: u64, reservation: DailyWriteReservation, utc_day: u64)
    ensures
        ({
            let day = tracker.daily.on(utc_day);
            let reserved = tracker.reserved(bytes, utc_day);
            let released = tracker.released(reservation, utc_day);
            let used = tracker.used(reservation, utc_day);
            &&& tracker.affords(bytes, utc_day) ==> reserved.daily.budget_reserved_bytes == day.budget_reserved_bytes + bytes
            &&& reserved.daily.utc_day == utc_day && reserved.daily.host_write_bytes == day.host_write_bytes
            &&& reserved.daily.budget_used_bytes == day.budget_used_bytes
            &&& reserved.daily.budget_rejections == day.budget_rejections
            &&& reserved == (HostWriteTracker { daily: reserved.daily, ..tracker })
            &&& utc_day != reservation.utc_day ==> released.daily == day
            &&& utc_day == reservation.utc_day && reservation.bytes <= day.budget_reserved_bytes
                ==> released.daily.budget_reserved_bytes == day.budget_reserved_bytes - reservation.bytes
            &&& utc_day == reservation.utc_day && reservation.bytes > day.budget_reserved_bytes
                ==> released.daily.budget_reserved_bytes == 0
            &&& released.daily.budget_used_bytes == day.budget_used_bytes && released.daily.host_write_bytes == day.host_write_bytes
            &&& released.daily.budget_rejections == day.budget_rejections
            &&& released == (HostWriteTracker { daily: released.daily, ..tracker })
            &&& used.daily.budget_reserved_bytes == released.daily.budget_reserved_bytes
            &&& day.budget_used_bytes + reservation.bytes <= u64::MAX ==> used.daily.budget_used_bytes == day.budget_used_bytes
                + reservation.bytes
            &&& used.daily.host_write_bytes == day.host_write_bytes
            &&& used == (HostWriteTracker { daily: used.daily, ..tracker })
        }),
{
}

/// A write is counted once, with its bytes, in total, for the day and under its
/// own kind.
pub proof fn law_writes_are_counted(tracker: HostWriteTracker, kind: HostWriteKind, bytes: u64, utc_day: u64)
    requires
        tracker.host_write_operations < u64::MAX,
        tracker.host_write_bytes + bytes <= u64::MAX,
        tracker.daily.host_write_bytes + bytes <= u64::MAX,
        tracker.foreground_record_bytes + bytes <= u64::MAX,
        tracker.reinsertion_bytes + bytes <= u64::MAX,
        tracker.reclaimer_bytes + bytes <= u64::MAX,
        tracker.forced_tombstone_bytes + bytes <= u64::MAX,
        tracker.metadata_bytes + bytes <= u64::MAX,
        tracker.checkpoint_bytes + bytes <= u64::MAX,
    ensures
        ({
            let after = tracker.recorded(kind, bytes, utc_day);
            let added = |chosen: bool| if chosen { bytes as int } else { 0int };
            &&& after.host_write_operations == tracker.host_write_operations + 1
            &&& after.host_write_bytes == tracker.host_write_bytes + bytes
            &&& after.daily.utc_day == utc_day
            &&& after.daily.host_write_bytes == bytes + if tracker.daily.utc_day == utc_day {
                tracker.daily.host_write_bytes as int
            } else {
                0int
            }
            &&& after.daily.budget_used_bytes == tracker.daily.on(utc_day).budget_used_bytes
            &&& after.daily.budget_reserved_bytes == tracker.daily.on(utc_day).budget_reserved_bytes
            &&& after.foreground_record_bytes == tracker.foreground_record_bytes + added(kind is ForegroundRecord)
            &&& after.reinsertion_bytes == tracker.reinsertion_bytes + added(kind is Reinsertion)
            &&& after.reclaimer_bytes == tracker.reclaimer_bytes + added(kind is Reclaimer)
            &&& after.forced_tombstone_bytes == tracker.forced_tombstone_bytes + added(kind is ForcedTombstone)
            &&& after.metadata_bytes == tracker.metadata_bytes + added(kind is Metadata)
            &&& after.checkpoint_bytes == tracker.checkpoint_bytes + added(kind is Checkpoint)
            &&& after.admitted_value_bytes == tracker.admitted_value_bytes
            &&& after.failed_write_operations == tracker.failed_write_operations
            &&& after.daily_budget_bytes == tracker.daily_budget_bytes
        }),
{
}

/// A ratio is given in thousandths, rounded down; there is none to nothing.
pub proof fn law_ratios_in_thousandths(numerator: u64, denominator: u64)
    ensures
        milli_ratio(numerator, 0) == 0,
        denominator > 0 && milli_ratio(numerator, denominator) < u64::MAX ==> milli_ratio(numerator, denominator) * denominator <= numerator
            * 1000 < (milli_ratio(numerator, denominator) + 1) * denominator,
        denominator > 0 && milli_ratio(numerator, denominator) == u64::MAX ==> u64::MAX * denominator <= numerator * 1000,
{
    if denominator > 0 {
        let product = numerator * 1000;
        let quotient = product / (denominator as int);
        vstd::arithmetic::div_mod::lemma_fundamental_div_mod(product, denominator as int);
        vstd::arithmetic::div_mod::lemma_mod_bound(product, denominator as int);
        assert(denominator * quotient == quotient * denominator) by (nonlinear_arith);
        assert((quotient + 1) * denominator == quotient * denominator + denominator) by (nonlinear_arith);
        if quotient > u64::MAX {
            assert(u64::MAX * denominator <= quotient * denominator) by (nonlinear_arith)
                requires
                    quotient > u64::MAX,
                    denominator > 0,
            ;
        }
    }
}

/// A snapshot shows the counters as they are, the day's as of its day, and what
/// is left of the budget: nothing once as much as it was written or promised.
pub proof fn law_write_snapshots(tracker: HostWriteTracker, utc_day: u64)
    ensures
        ({
            let shown = tracker.snapshot_spec(utc_day);
            let day = tracker.daily.on(utc_day);
            let spent = if day.host_write_bytes >= day.budget_used_bytes {
                day.host_write_bytes as int
            } else {
                day.budget_used_bytes as int
            };
            &&& shown.utc_day == utc_day
            &&& shown.host_write_operations == tracker.host_write_operations && shown.host_write_bytes == tracker.host_write_bytes
            &&& shown.foreground_record_bytes == tracker.foreground_record_bytes
            &&& shown.reinsertion_bytes == tracker.reinsertion_bytes && shown.reclaimer_bytes == tracker.reclaimer_bytes
            &&& shown.forced_tombstone_bytes == tracker.forced_tombstone_bytes && shown.metadata_bytes == tracker.metadata_bytes
            &&& shown.checkpoint_bytes == tracker.checkpoint_bytes && shown.admitted_value_bytes == tracker.admitted_value_bytes
            &&& shown.failed_write_operations == tracker.failed_write_operations
            &&& shown.write_amplification_milli == milli_ratio(tracker.host_write_bytes, tracker.admitted_value_bytes)
            &&& shown.daily_host_write_bytes == day.host_write_bytes && shown.daily_budget_used_bytes == day.budget_used_bytes
            &&& shown.daily_budget_reserved_bytes == day.budget_reserved_bytes
            &&& shown.daily_budget_rejections == day.budget_rejections
            &&& shown.daily_budget_bytes == tracker.daily_budget_bytes
            &&& tracker.daily_budget_bytes is None ==> shown.daily_budget_remaining_bytes is None && !shown.daily_budget_exceeded
            &&& tracker.daily_budget_bytes matches Some(budget) ==> {
                &&& shown.daily_budget_exceeded <==> spent > budget
                &&& shown.daily_budget_remaining_bytes matches Some(left) && left == (if spent >= budget {
                    0
                } else {
                    budget - spent
                })
            }
        }),
{
}

/// A new tracker has counted nothing, but takes what was written today before
/// it against the budget.
pub proof fn law_new_trackers(daily_budget_bytes: Option<u64>, utc_day: u64, baseline_bytes: u64)
    ensures
        ({
            let tracker = HostWriteTracker::fresh(daily_budget_bytes, utc_day, baseline_bytes);
            &&& tracker.daily_budget_bytes == daily_budget_bytes
            &&& tracker.host_write_operations == 0 && tracker.host_write_bytes == 0 && tracker.bytes_by_kind() == 0
            &&& tracker.admitted_value_bytes == 0 && tracker.failed_write_operations == 0
            &&& tracker.daily.utc_day == utc_day && tracker.daily.host_write_bytes == baseline_bytes
            &&& tracker.daily.budget_used_bytes == baseline_bytes
            &&& tracker.daily.budget_reserved_bytes == 0 && tracker.daily.budget_rejections == 0
        }),
{
}

} // verus!
