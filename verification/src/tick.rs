//! Fixed-rate tick clock with catch-up and stall clamping.
//!
//! The clock keeps a debt of simulation time that has passed but has not yet
//! been paid for by a tick. Every wake adds the measured wall time to the
//! debt, pays it off one period at a time, and says how long to sleep before
//! the next wake. The caller measures time, runs the ticks and sleeps.

use vstd::arithmetic::div_mod::lemma_fundamental_div_mod_converse;
use vstd::prelude::*;

verus! {

/// Length of one simulation tick, in milliseconds.
pub const TICK_PERIOD_MS: u64 = 50;

/// Longest stretch of wall time, in milliseconds, that one wake accounts for.
pub const STALL_THRESHOLD_MS: u64 = 2000;

/// Most ticks that a single wake can ask for.
pub const MAX_TICKS_PER_WAKE: u64 = 40;

/// Elapsed time that a wake accounts for: the measured time, capped at the
/// stall threshold.
pub open spec fn counted_elapsed(elapsed_ms: int) -> int {
    if elapsed_ms > STALL_THRESHOLD_MS as int {
        STALL_THRESHOLD_MS as int
    } else {
        elapsed_ms
    }
}

/// Ticks to run while the debt strictly exceeds one period.
pub open spec fn ticks_due(debt_ms: int) -> int {
    if debt_ms > TICK_PERIOD_MS as int {
        (debt_ms - 1) / (TICK_PERIOD_MS as int)
    } else {
        0
    }
}

/// Debt that is left once the due ticks have each paid one period.
pub open spec fn debt_after(debt_ms: int) -> int {
    debt_ms - (TICK_PERIOD_MS as int) * ticks_due(debt_ms)
}

/// Sleep before the next wake: what is missing to a full period, never less
/// than one millisecond.
pub open spec fn sleep_for(debt_left_ms: int) -> int {
    if (TICK_PERIOD_MS as int) - debt_left_ms > 1 {
        (TICK_PERIOD_MS as int) - debt_left_ms
    } else {
        1
    }
}

/// The tick count reported to the operator when a wake is clamped: the
/// measured time in whole periods. `None` when the wake was not clamped.
pub open spec fn skipped_ticks(elapsed_ms: int) -> Option<u128> {
    if elapsed_ms > STALL_THRESHOLD_MS as int {
        Some((elapsed_ms / (TICK_PERIOD_MS as int)) as u128)
    } else {
        None
    }
}

/// What one wake of the scheduler has to do.
#[derive(Clone, Copy, Debug, PartialEq, Eq)]
pub struct TickReport {
    /// Number of ticks to execute now.
    pub ticks: u64,
    /// Milliseconds to sleep afterwards.
    pub sleep_ms: u64,
    /// Milliseconds of wall time that were added to the debt.
    pub counted_ms: u64,
    /// Set when the wake was clamped: the number of ticks to name in the
    /// warning. A diagnostic, not the number of ticks dropped from the debt.
    pub skipped_ticks: Option<u128>,
}

/// Accumulated simulation time that no tick has consumed yet.
pub struct TickClock {
    debt_ms: u64,
}

impl TickClock {
    /// Between wakes the debt never exceeds one period.
    #[verifier::type_invariant]
    spec fn within_one_period(self) -> bool {
        self.debt_ms <= TICK_PERIOD_MS
    }

    /// The debt carried into the next wake, in milliseconds.
    pub closed spec fn debt(self) -> int {
        self.debt_ms as int
    }

    /// A clock without debt.
    pub fn new() -> (clock: TickClock)
        ensures
            clock.debt() == 0,
    {
        TickClock { debt_ms: 0 }
    }

    /// The debt carried into the next wake, in milliseconds.
    pub fn debt_ms(&self) -> (debt: u64)
        ensures
            debt == self.debt(),
            debt <= TICK_PERIOD_MS,
    {
        proof {
            use_type_invariant(self);
        }
        self.debt_ms
    }

    /// Accounts for `elapsed_ms` milliseconds of wall time since the last
    /// wake. Time beyond the stall threshold is dropped. The report says how
    /// many ticks to run and how long to sleep; the debt that stays is at most
    /// one period.
    pub fn advance(&mut self, elapsed_ms: u128) -> (report: TickReport)
        ensures
            report.counted_ms == counted_elapsed(elapsed_ms as int),
            report.ticks == ticks_due(old(self).debt() + counted_elapsed(elapsed_ms as int)),
            final(self).debt() == debt_after(old(self).debt() + counted_elapsed(elapsed_ms as int)),
            report.sleep_ms == sleep_for(final(self).debt()),
            report.skipped_ticks == skipped_ticks(elapsed_ms as int),
            report.ticks <= MAX_TICKS_PER_WAKE,
            0 <= final(self).debt() <= TICK_PERIOD_MS,
            1 <= report.sleep_ms <= TICK_PERIOD_MS,
    {
        proof {
            use_type_invariant(&*self);
        }
        let mut skipped: Option<u128> = None;
        let mut counted: u64 = STALL_THRESHOLD_MS;
        if elapsed_ms > STALL_THRESHOLD_MS as u128 {
            skipped = Some(elapsed_ms / (TICK_PERIOD_MS as u128));
        } else {
            counted = elapsed_ms as u64;
        }
        let total: u64 = self.debt_ms + counted;
        let mut debt: u64 = total;
        let mut ticks: u64 = 0;
        while debt > TICK_PERIOD_MS
            invariant
                total <= TICK_PERIOD_MS + STALL_THRESHOLD_MS,
                debt + TICK_PERIOD_MS * ticks == total,
                ticks > 0 ==> debt >= 1,
            decreases debt,
        {
            debt = debt - TICK_PERIOD_MS;
            ticks = ticks + 1;
        }
        proof {
            if total > TICK_PERIOD_MS {
                lemma_fundamental_div_mod_converse(
                    total - 1,
                    TICK_PERIOD_MS as int,
                    ticks as int,
                    debt - 1,
                );
            }
        }
        self.debt_ms = debt;
        let sleep_ms: u64 = if TICK_PERIOD_MS - debt > 1 {
            TICK_PERIOD_MS - debt
        } else {
            1
        };
        TickReport { ticks, sleep_ms, counted_ms: counted, skipped_ticks: skipped }
    }
}

/// A wake never asks for more ticks than fit into the stall threshold, and
/// what it leaves unpaid is at most one period: the elapsed time that was
/// counted is exactly the ticks that were run plus the change in debt.
pub proof fn lemma_wake_is_bounded(debt_before_ms: int, elapsed_ms: int)
    requires
        0 <= debt_before_ms <= TICK_PERIOD_MS,
        0 <= elapsed_ms,
    ensures
        MAX_TICKS_PER_WAKE == STALL_THRESHOLD_MS / TICK_PERIOD_MS,
        0 <= ticks_due(debt_before_ms + counted_elapsed(elapsed_ms)) <= MAX_TICKS_PER_WAKE,
        0 <= debt_after(debt_before_ms + counted_elapsed(elapsed_ms)) <= TICK_PERIOD_MS,
        debt_before_ms + counted_elapsed(elapsed_ms) == TICK_PERIOD_MS * ticks_due(
            debt_before_ms + counted_elapsed(elapsed_ms),
        ) + debt_after(debt_before_ms + counted_elapsed(elapsed_ms)),
        ticks_due(debt_before_ms + counted_elapsed(elapsed_ms)) > 0 ==> debt_after(
            debt_before_ms + counted_elapsed(elapsed_ms),
        ) >= 1,
{
}

} // verus!
