use vstd::prelude::*;
use crate::catalog::{resume_page, PAGE_SIZE};

verus! {

/// Seconds between two announcement cycles.
pub const CYCLE_INTERVAL_SECS: u64 = 3600;

/// Whether the next cycle is due, `elapsed_secs` after the last one began.
pub fn cycle_due(elapsed_secs: u64) -> (r: bool)
    ensures
        r == (elapsed_secs >= CYCLE_INTERVAL_SECS),
{
    elapsed_secs >= CYCLE_INTERVAL_SECS
}

/// The catalog page a cycle starts from when the store knows `count` packages.
pub fn start_page(count: usize) -> (r: u64)
    ensures
        r == (count as int) / (PAGE_SIZE as int) + 1,
{
    resume_page(count as u64, PAGE_SIZE)
}

} // verus!
