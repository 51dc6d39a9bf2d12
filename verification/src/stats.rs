//! The statistics snapshot a cache reports, and the arithmetic behind it.

use vstd::arithmetic::div_mod::{lemma_div_by_multiple, lemma_div_is_ordered};
use vstd::prelude::*;

use crate::model::CacheModel;

verus! {

/// The approximate number of bytes one stored record accounts for. The
/// reported memory size is the record count times this representative
/// footprint — a documented heuristic, not an exact byte accounting.
pub const ENTRY_FOOTPRINT_BYTES: usize = 64;

/// A fully formed, independent snapshot of a cache's counters and size.
///
/// The hit rate is reported in hundredths of a percent (an exact hit
/// rate of 100% reads 10000), rounded down.
#[derive(Debug, Clone, Copy, PartialEq, Eq, Structural)]
pub struct CacheStats {
    pub total_entries: usize,
    pub hits: u64,
    pub misses: u64,
    pub evictions: u64,
    pub hit_rate_hundredths: u64,
    pub memory_size_bytes: usize,
}

/// `hits / (hits + misses)` in hundredths of a percent, rounded down;
/// zero when no request has been recorded yet.
pub open spec fn spec_hit_rate_hundredths(hits: u64, misses: u64) -> int {
    if hits + misses == 0 {
        0
    } else {
        10000 * hits / (hits + misses)
    }
}

/// The approximate memory size of `total` records, saturated at the
/// largest representable value.
pub open spec fn spec_memory_size(total: nat) -> int {
    if total * ENTRY_FOOTPRINT_BYTES <= usize::MAX {
        total * ENTRY_FOOTPRINT_BYTES
    } else {
        usize::MAX as int
    }
}

/// The snapshot a cache in state `m` reports.
pub open spec fn spec_stats<T>(m: CacheModel<T>) -> CacheStats {
    CacheStats {
        total_entries: m.entries.len() as usize,
        hits: m.hits,
        misses: m.misses,
        evictions: m.evictions,
        hit_rate_hundredths: spec_hit_rate_hundredths(m.hits, m.misses) as u64,
        memory_size_bytes: spec_memory_size(m.entries.len()) as usize,
    }
}

/// Computes the hit rate in hundredths of a percent, rounded down.
pub(crate) fn compute_hit_rate_hundredths(hits: u64, misses: u64) -> (rate: u64)
    ensures
        rate == spec_hit_rate_hundredths(hits, misses),
{
    let total: u128 = hits as u128 + misses as u128;
    if total == 0 {
        0
    } else {
        let scaled: u128 = 10000u128 * (hits as u128);
        let rate_wide: u128 = scaled / total;
        proof {
            lemma_div_is_ordered(10000 * hits as int, 10000 * total as int, total as int);
            lemma_div_by_multiple(10000, total as int);
        }
        rate_wide as u64
    }
}

/// Computes the approximate memory size of `total` records.
pub(crate) fn compute_memory_size(total: usize) -> (bytes: usize)
    ensures
        bytes == spec_memory_size(total as nat),
{
    match total.checked_mul(ENTRY_FOOTPRINT_BYTES) {
        Some(b) => b,
        None => usize::MAX,
    }
}

} // verus!
