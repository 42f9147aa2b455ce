use vstd::prelude::*;

verus! {

/// Milliseconds between two flushes of the retransmit counters.
pub const STATS_FLUSH_INTERVAL_MS: u64 = 2000;

/// What one worker iteration adds to the counters.
#[derive(Clone, Copy, Debug, PartialEq, Eq, Structural)]
pub struct BatchStats {
    pub total_time: u64,
    pub num_shreds: u64,
    pub num_shreds_skipped: u64,
    pub retransmit_total: u64,
    pub compute_turbine_peers_total: u64,
    pub epoch_fetch: u64,
    pub epoch_cache_update: u64,
}

/// Counters of the retransmit workers, accumulated between two flushes.
#[derive(Clone, Copy, Debug, PartialEq, Eq, Structural)]
pub struct RetransmitStats {
    pub num_shreds: u64,
    pub num_shreds_skipped: u64,
    pub total_batches: u64,
    pub total_time: u64,
    pub epoch_fetch: u64,
    pub epoch_cache_update: u64,
    pub retransmit_total: u64,
    pub compute_turbine_peers_total: u64,
    /// When the counters were last flushed, in milliseconds.
    pub last_flush_ms: u64,
}

/// What a flush publishes: the counters since the previous flush and the
/// current number of cluster peers.
#[derive(Clone, Copy, Debug, PartialEq, Eq, Structural)]
pub struct StatsReport {
    pub num_nodes: u64,
    pub total_time: u64,
    pub epoch_fetch: u64,
    pub epoch_cache_update: u64,
    pub total_batches: u64,
    pub num_shreds: u64,
    pub num_shreds_skipped: u64,
    pub retransmit_total: u64,
    pub compute_turbine: u64,
}

/// `a + b` wrapped to 64 bits, as an atomic add does.
pub open spec fn wrap_add(a: u64, b: u64) -> u64 {
    ((a as int + b as int) % 0x1_0000_0000_0000_0000) as u64
}

/// The counters with one iteration's figures added.
pub open spec fn accumulate(s: RetransmitStats, b: BatchStats) -> RetransmitStats {
    RetransmitStats {
        num_shreds: wrap_add(s.num_shreds, b.num_shreds),
        num_shreds_skipped: wrap_add(s.num_shreds_skipped, b.num_shreds_skipped),
        total_batches: wrap_add(s.total_batches, 1),
        total_time: wrap_add(s.total_time, b.total_time),
        epoch_fetch: wrap_add(s.epoch_fetch, b.epoch_fetch),
        epoch_cache_update: wrap_add(s.epoch_cache_update, b.epoch_cache_update),
        retransmit_total: wrap_add(s.retransmit_total, b.retransmit_total),
        compute_turbine_peers_total: wrap_add(
            s.compute_turbine_peers_total,
            b.compute_turbine_peers_total,
        ),
        last_flush_ms: s.last_flush_ms,
    }
}

/// Whether a flush is due at `now_ms`: more than the flush interval since
/// the last one.
pub open spec fn flush_due(last_ms: u64, now_ms: u64) -> bool {
    now_ms > last_ms && now_ms - last_ms > STATS_FLUSH_INTERVAL_MS
}

impl RetransmitStats {
    /// Zeroed counters, last flushed at `now_ms`.
    pub fn new(now_ms: u64) -> (r: RetransmitStats)
        ensures
            r == (RetransmitStats {
                num_shreds: 0,
                num_shreds_skipped: 0,
                total_batches: 0,
                total_time: 0,
                epoch_fetch: 0,
                epoch_cache_update: 0,
                retransmit_total: 0,
                compute_turbine_peers_total: 0,
                last_flush_ms: now_ms,
            }),
    {
        RetransmitStats {
            num_shreds: 0,
            num_shreds_skipped: 0,
            total_batches: 0,
            total_time: 0,
            epoch_fetch: 0,
            epoch_cache_update: 0,
            retransmit_total: 0,
            compute_turbine_peers_total: 0,
            last_flush_ms: now_ms,
        }
    }
}

/// Adds one iteration's figures to the counters. Where a flush is due at
/// `now_ms`, returns the report of the counters so far, with `peers_len` as
/// the number of nodes, and zeroes them.
pub fn update_retransmit_stats(
    stats: &mut RetransmitStats,
    batch: &BatchStats,
    peers_len: u64,
    now_ms: u64,
) -> (r: Option<StatsReport>)
    ensures
        ({
            let s = accumulate(*old(stats), *batch);
            if flush_due(old(stats).last_flush_ms, now_ms) {
                &&& r == Some(
                    StatsReport {
                        num_nodes: peers_len,
                        total_time: s.total_time,
                        epoch_fetch: s.epoch_fetch,
                        epoch_cache_update: s.epoch_cache_update,
                        total_batches: s.total_batches,
                        num_shreds: s.num_shreds,
                        num_shreds_skipped: s.num_shreds_skipped,
                        retransmit_total: s.retransmit_total,
                        compute_turbine: s.compute_turbine_peers_total,
                    },
                )
                &&& *final(stats) == (RetransmitStats {
                    num_shreds: 0,
                    num_shreds_skipped: 0,
                    total_batches: 0,
                    total_time: 0,
                    epoch_fetch: 0,
                    epoch_cache_update: 0,
                    retransmit_total: 0,
                    compute_turbine_peers_total: 0,
                    last_flush_ms: now_ms,
                })
            } else {
                &&& r is None
                &&& *final(stats) == s
            }
        }),
{
    stats.total_time = stats.total_time.wrapping_add(batch.total_time);
    stats.num_shreds = stats.num_shreds.wrapping_add(batch.num_shreds);
    stats.num_shreds_skipped = stats.num_shreds_skipped.wrapping_add(batch.num_shreds_skipped);
    stats.retransmit_total = stats.retransmit_total.wrapping_add(batch.retransmit_total);
    stats.compute_turbine_peers_total = stats.compute_turbine_peers_total.wrapping_add(
        batch.compute_turbine_peers_total,
    );
    stats.total_batches = stats.total_batches.wrapping_add(1);
    stats.epoch_fetch = stats.epoch_fetch.wrapping_add(batch.epoch_fetch);
    stats.epoch_cache_update = stats.epoch_cache_update.wrapping_add(batch.epoch_cache_update);
    if now_ms > stats.last_flush_ms && now_ms - stats.last_flush_ms > STATS_FLUSH_INTERVAL_MS {
        let report = StatsReport {
            num_nodes: peers_len,
            total_time: stats.total_time,
            epoch_fetch: stats.epoch_fetch,
            epoch_cache_update: stats.epoch_cache_update,
            total_batches: stats.total_batches,
            num_shreds: stats.num_shreds,
            num_shreds_skipped: stats.num_shreds_skipped,
            retransmit_total: stats.retransmit_total,
            compute_turbine: stats.compute_turbine_peers_total,
        };
        *stats = RetransmitStats::new(now_ms);
        Some(report)
    } else {
        None
    }
}

} // verus!
