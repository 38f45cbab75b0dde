//! An eventually-consistent atomic container, modelled and verified.
//!
//! The container publishes a single current value; writers replace it and
//! readers copy it. Readers converge on the last written value once writes
//! stop. The design keeps a reference-counted cell per CPU, so the hot read
//! path touches only state owned by the reading CPU.

pub mod cache_line;
pub mod inner;
pub mod nmt;
pub mod num_cpus;
pub mod per_cpu_rc;
pub mod per_cpu_thread;
pub mod rseq;
pub mod slc;
pub mod versioning;

use vstd::prelude::*;

verus! {

/// Counters kept for observability of the per-CPU release scheme.
#[derive(Clone, Copy, PartialEq, Eq, Structural)]
pub struct Stats {
    /// How often a release ran on a CPU other than the owner of the cell and
    /// had to be re-scheduled onto the owning CPU's worker.
    ///
    /// This should usually happen in well under 0.1% of `get` calls.
    pub num_off_cpu_release: u64,
}

impl Stats {
    /// Fresh counters, all zero.
    pub fn new() -> (r: Stats)
        ensures
            r.num_off_cpu_release == 0,
    {
        Stats { num_off_cpu_release: 0 }
    }
}

/// How often objects had to be sent to a per-CPU worker to be released
/// because the releasing thread had migrated off the owning CPU.
pub fn num_off_cpu_release(stats: &Stats) -> (r: u64)
    ensures
        r == stats.num_off_cpu_release,
{
    stats.num_off_cpu_release
}

} // verus!
