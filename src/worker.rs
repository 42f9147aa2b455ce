use vstd::prelude::*;
use std::sync::atomic::{AtomicU64, Ordering};
use crate::shred_filter::{FilterEntry, ShredFilter};

verus! {

/// Most shreds a worker takes from the queue between two polls.
pub const MAX_SHREDS_BATCH_SIZE: usize = 100;

/// Milliseconds that must pass between two rekeys of the shred filter.
pub const HASHER_REKEY_INTERVAL_MS: u64 = 1000;

/// Whether a rekey is due at `now_ms`, the last one having been at
/// `last_reset_ms`: more than the rekey interval has passed.
pub open spec fn rekey_due_spec(now_ms: u64, last_reset_ms: u64) -> bool {
    now_ms > last_reset_ms && now_ms - last_reset_ms > HASHER_REKEY_INTERVAL_MS
}

/// Whether a rekey is due at `now_ms`, the last one having been at
/// `last_reset_ms`.
pub fn rekey_due(now_ms: u64, last_reset_ms: u64) -> (r: bool)
    ensures
        r == rekey_due_spec(now_ms, last_reset_ms),
{
    now_ms.saturating_sub(last_reset_ms) > HASHER_REKEY_INTERVAL_MS
}

/// Empties the shred filter and rekeys its hasher where a rekey is due at
/// `now_ms` and this caller is the one that moves the shared stamp
/// `hasher_reset_ts` from its last value to `now_ms`; returns whether it
/// did. Otherwise the filter is left as it was.
pub fn maybe_reset_shreds_received_cache(
    shreds_received: &mut ShredFilter,
    hasher_reset_ts: &AtomicU64,
    now_ms: u64,
) -> (r: bool)
    requires
        old(shreds_received).wf(),
    ensures
        final(shreds_received).wf(),
        final(shreds_received).capacity() == old(shreds_received).capacity(),
        r ==> final(shreds_received).entries() == Seq::<FilterEntry>::empty(),
        !r ==> *final(shreds_received) == *old(shreds_received),
{
    let prev = hasher_reset_ts.load(Ordering::Acquire);
    if rekey_due(now_ms, prev) && hasher_reset_ts.compare_exchange(
        prev,
        now_ms,
        Ordering::AcqRel,
        Ordering::Acquire,
    ).is_ok() {
        shreds_received.reset();
        true
    } else {
        false
    }
}

/// Two rekeys that succeed one after the other, the second against the
/// stamp that the first set, are more than the rekey interval apart; so at
/// most one clears the filter within any such interval.
pub proof fn lemma_rekey_spacing(last_reset_ms: u64, first_ms: u64, second_ms: u64)
    requires
        rekey_due_spec(first_ms, last_reset_ms),
        rekey_due_spec(second_ms, first_ms),
    ensures
        second_ms > first_ms + HASHER_REKEY_INTERVAL_MS,
        first_ms > last_reset_ms + HASHER_REKEY_INTERVAL_MS,
{
}

/// Whether a batch of `len` shreds is full, so that the worker stops
/// draining the queue.
pub fn batch_is_full(len: usize) -> (r: bool)
    ensures
        r == (len >= MAX_SHREDS_BATCH_SIZE),
{
    len >= MAX_SHREDS_BATCH_SIZE
}

/// Why a worker iteration ended without work done.
#[derive(Clone, Copy, Debug, PartialEq, Eq, Structural)]
pub enum IterationError {
    /// No batch arrived within the receive timeout.
    RecvTimeout,
    /// Every sender of the queue is gone.
    RecvDisconnected,
    /// Any other failure of the iteration.
    Other,
}

/// What a worker does after an iteration that failed.
#[derive(Clone, Copy, Debug, PartialEq, Eq, Structural)]
pub enum WorkerAction {
    /// Leave the loop: the queue is closed.
    Exit,
    /// Go on with the next iteration.
    Continue,
    /// Count the error, then go on.
    CountErrorAndContinue,
}

/// A worker exits once the queue is closed, loops on a timeout, and counts
/// any other error and goes on.
pub fn on_iteration_error(e: IterationError) -> (r: WorkerAction)
    ensures
        e == IterationError::RecvDisconnected ==> r == WorkerAction::Exit,
        e == IterationError::RecvTimeout ==> r == WorkerAction::Continue,
        e == IterationError::Other ==> r == WorkerAction::CountErrorAndContinue,
{
    match e {
        IterationError::RecvTimeout => WorkerAction::Continue,
        IterationError::RecvDisconnected => WorkerAction::Exit,
        IterationError::Other => WorkerAction::CountErrorAndContinue,
    }
}

/// Running totals of one worker iteration over its batch.
#[derive(Clone, Copy, Debug, PartialEq, Eq, Structural)]
pub struct BatchTotals {
    /// Shreds that the filter skipped.
    pub num_shreds_skipped: u64,
    /// Highest slot of a shred that was not skipped, 0 if none.
    pub max_slot: u64,
    /// Microseconds spent selecting peers.
    pub compute_turbine_peers_total: u64,
    /// Microseconds spent sending.
    pub retransmit_total: u64,
}

impl BatchTotals {
    pub fn new() -> (r: BatchTotals)
        ensures
            r == (BatchTotals {
                num_shreds_skipped: 0,
                max_slot: 0,
                compute_turbine_peers_total: 0,
                retransmit_total: 0,
            }),
    {
        BatchTotals {
            num_shreds_skipped: 0,
            max_slot: 0,
            compute_turbine_peers_total: 0,
            retransmit_total: 0,
        }
    }

    /// Counts a skipped shred.
    pub fn note_skipped(&mut self)
        ensures
            *final(self) == (BatchTotals {
                num_shreds_skipped: if old(self).num_shreds_skipped == u64::MAX {
                    u64::MAX
                } else {
                    (old(self).num_shreds_skipped + 1) as u64
                },
                ..*old(self)
            }),
    {
        self.num_shreds_skipped = self.num_shreds_skipped.saturating_add(1);
    }

    /// Takes a shred of `slot` that goes on to be retransmitted into the
    /// highest slot.
    pub fn note_forwarded(&mut self, slot: u64)
        ensures
            *final(self) == (BatchTotals {
                max_slot: if slot > old(self).max_slot {
                    slot
                } else {
                    old(self).max_slot
                },
                ..*old(self)
            }),
    {
        if slot > self.max_slot {
            self.max_slot = slot;
        }
    }

    /// Adds the time spent on one shred's peer selection and sends.
    pub fn add_times(&mut self, compute_us: u64, send_us: u64)
        ensures
            final(self).num_shreds_skipped == old(self).num_shreds_skipped,
            final(self).max_slot == old(self).max_slot,
            final(self).compute_turbine_peers_total == if old(self).compute_turbine_peers_total
                + compute_us > u64::MAX {
                u64::MAX as int
            } else {
                old(self).compute_turbine_peers_total + compute_us
            },
            final(self).retransmit_total == if old(self).retransmit_total + send_us > u64::MAX {
                u64::MAX as int
            } else {
                old(self).retransmit_total + send_us
            },
    {
        self.compute_turbine_peers_total = self.compute_turbine_peers_total.saturating_add(
            compute_us,
        );
        self.retransmit_total = self.retransmit_total.saturating_add(send_us);
    }
}

} // verus!
