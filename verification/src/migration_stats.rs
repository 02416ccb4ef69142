//! Counters of the inlining migration.

use vstd::prelude::*;

verus! {

/// `count` raised by `by`; a counter stays at the largest value once it has
/// reached it.
pub open spec fn sat_add(count: u64, by: int) -> u64 {
    if count + by > u64::MAX {
        u64::MAX
    } else {
        (count + by) as u64
    }
}

/// Raising a counter twice is raising it by the sum.
pub proof fn lemma_sat_add_twice(count: u64, first: int, second: int)
    requires
        first >= 0,
        second >= 0,
    ensures
        sat_add(sat_add(count, first), second) == sat_add(count, first + second),
{
}

/// What the migration has counted.
#[derive(Clone, Copy, Debug, PartialEq, Eq, Structural)]
pub struct MigrationStats {
    /// Entries looked at.
    pub processed_count: u64,
    /// Bytes that the looked-at entries stand for.
    pub processed_total_values_size: u64,
    /// Entries rewritten from a reference into inlined bytes.
    pub inlined_count: u64,
    /// Bytes that the entries chosen for inlining stand for.
    pub inlined_total_values_size: u64,
    /// Entries and reads that were passed over because of an error.
    pub skipped_count: u64,
    /// Times that flat-state updates were switched off for a commit.
    pub paused_count: u64,
}

impl MigrationStats {
    /// All counters at zero.
    pub fn new() -> (stats: MigrationStats)
        ensures
            stats == MigrationStats::zero(),
    {
        MigrationStats {
            processed_count: 0,
            processed_total_values_size: 0,
            inlined_count: 0,
            inlined_total_values_size: 0,
            skipped_count: 0,
            paused_count: 0,
        }
    }

    /// All counters at zero.
    pub open spec fn zero() -> MigrationStats {
        MigrationStats {
            processed_count: 0,
            processed_total_values_size: 0,
            inlined_count: 0,
            inlined_total_values_size: 0,
            skipped_count: 0,
            paused_count: 0,
        }
    }

    /// The counters raised by the given numbers.
    pub open spec fn raised(
        self,
        processed: int,
        processed_size: int,
        inlined: int,
        inlined_size: int,
        skipped: int,
    ) -> MigrationStats {
        MigrationStats {
            processed_count: sat_add(self.processed_count, processed),
            processed_total_values_size: sat_add(self.processed_total_values_size, processed_size),
            inlined_count: sat_add(self.inlined_count, inlined),
            inlined_total_values_size: sat_add(self.inlined_total_values_size, inlined_size),
            skipped_count: sat_add(self.skipped_count, skipped),
            paused_count: self.paused_count,
        }
    }

    /// The counters after flat-state updates were switched off `times`
    /// times.
    pub open spec fn paused(self, times: int) -> MigrationStats {
        MigrationStats { paused_count: sat_add(self.paused_count, times), ..self }
    }
}

/// Counts one skipped entry or read.
pub fn log_skipped(stats: &mut MigrationStats)
    ensures
        *final(stats) == old(stats).raised(0, 0, 0, 0, 1),
{
    stats.skipped_count = stats.skipped_count.saturating_add(1);
}

} // verus!
