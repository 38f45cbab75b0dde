//! The self-locally-cached handle: a per-handle copy with a version check.
//!
//! Each handle keeps the last value it observed together with that value's
//! version. A read first compares the published version with the cached one;
//! when nothing changed it returns the cached value without touching any
//! per-CPU state — a single load and a comparison. Only when the version
//! moved does it take the per-CPU read path and refresh the cache.
//!
//! A handle is meant to be owned by one reading thread; cloning the handle,
//! one clone per thread, is the sharing pattern in the running system.

use crate::inner::{lemma_published_version_bounded, residue_wf, twice_cloned, Inner};
use crate::per_cpu_rc::PcrArena;
use crate::per_cpu_thread::CpuWorkers;
use crate::rseq::rseq;
use crate::versioning::{Versioned, Versioning, VersioningU64};
use crate::Stats;
use vstd::prelude::*;

verus! {

/// An eventually-consistent atomic variable with a handle-local cache.
pub struct AtomicSlc<T: Clone> {
    pub(crate) cached: Versioned<VersioningU64, T>,
    pub(crate) inner: Inner<VersioningU64, T>,
    /// How often a read had to take the per-CPU path because the version
    /// moved. Kept for observability: a reader that is alone sees it stand
    /// still.
    pub(crate) inner_gets: u64,
}

impl<T: Clone> AtomicSlc<T> {
    /// The per-CPU core behind the handle.
    pub open(crate) spec fn inner_of(&self) -> Inner<VersioningU64, T> {
        self.inner
    }

    /// The version of the value the cache holds.
    pub open(crate) spec fn cached_version(&self) -> u64 {
        self.cached.version
    }

    /// The value the cache holds.
    pub open(crate) spec fn cached_value(&self) -> T {
        self.cached.value
    }

    /// How often reads took the per-CPU path.
    pub open(crate) spec fn inner_gets_spec(&self) -> u64 {
        self.inner_gets
    }

    /// The cache never claims a version nobody published.
    pub open(crate) spec fn wf(&self) -> bool {
        &&& self.inner.wf()
        &&& self.cached.version <= self.inner.version_spec()
    }

    /// Whether the cache already holds the published version, so that a read
    /// short-circuits the per-CPU path.
    pub open(crate) spec fn up_to_date(&self) -> bool {
        self.inner.version_spec() <= self.cached.version
    }

    pub open(crate) spec fn num_cpus_spec(&self) -> int {
        self.inner.num_cpus_spec()
    }

    pub open(crate) spec fn read_headroom(&self, c: int) -> bool {
        self.inner.read_headroom(c)
    }

    /// Creates the variable: the cache starts at version zero with a clone of
    /// the initial value, and every CPU serves a clone of it.
    pub fn new(num_cpus: usize, value: T) -> (r: Self)
        requires
            1 <= num_cpus <= u32::MAX,
        ensures
            r.wf(),
            r.up_to_date(),
            r.num_cpus_spec() == num_cpus,
            r.cached_version() == 0,
            cloned::<T>(value, r.cached_value()),
            forall|c: int| 0 <= c < num_cpus ==> #[trigger] r.read_headroom(c),
            r.inner_gets_spec() == 0,
    {
        let cached = Versioned { version: 0u64, value: value.clone() };
        let inner = Inner::new(num_cpus, value);
        AtomicSlc { cached, inner, inner_gets: 0 }
    }

    /// Borrows the current value.
    ///
    /// When nothing was set since the cache was filled, the handle is left
    /// exactly as it is and the cached value is returned: the per-CPU path is
    /// not entered. Otherwise the reader's CPU's published value is copied
    /// into the cache and borrowed from there.
    pub fn get(&mut self, rs: &rseq, rs_after: &rseq) -> (r: &T)
        requires
            old(self).wf(),
            (rs.cpu_id as int) < old(self).num_cpus_spec(),
            (rs_after.cpu_id as int) < old(self).num_cpus_spec(),
            old(self).read_headroom(rs.cpu_id as int),
        ensures
            final(self).wf(),
            final(self).num_cpus_spec() == old(self).num_cpus_spec(),
            *r == final(self).cached_value(),
            rs_after.cpu_id == rs.cpu_id ==> final(self).read_headroom(rs.cpu_id as int),
            // Nothing was set: the whole handle rests and serves its cache.
            old(self).up_to_date() ==> *final(self) == *old(self),
            // The version moved: one read through the per-CPU path refreshed
            // the cache with the reader's CPU's published value.
            !old(self).up_to_date() ==> {
                &&& final(self).inner_gets_spec() == old(self).inner_gets_spec().wrapping_add(1)
                &&& final(self).cached_version() == old(self).inner_of().published(
                    rs.cpu_id as int,
                ).version
                &&& cloned::<T>(
                    old(self).inner_of().published(rs.cpu_id as int).value,
                    final(self).cached_value(),
                )
            },
    {
        let current = self.inner.current_version();
        if current > self.cached.version {
            self.inner_gets = self.inner_gets.wrapping_add(1);
            let fresh = self.inner.get(rs, rs_after);
            proof {
                lemma_published_version_bounded(old(self).inner, rs.cpu_id as int);
            }
            self.cached = fresh;
        }
        &self.cached.value
    }

    /// Publishes a new value and caches it under the new version.
    pub fn set(&mut self, value: T)
        requires
            old(self).wf(),
            old(self).inner_of().version_spec() < u64::MAX,
        ensures
            final(self).wf(),
            final(self).up_to_date(),
            final(self).num_cpus_spec() == old(self).num_cpus_spec(),
            final(self).cached_version() == old(self).inner_of().version_spec() + 1,
            final(self).cached_value() == value,
            forall|c: int|
                0 <= c < old(self).num_cpus_spec() ==> twice_cloned::<T>(
                    value,
                    (#[trigger] final(self).inner_of().published(c)).value,
                ),
            forall|c: int|
                0 <= c < old(self).num_cpus_spec() ==> (#[trigger] final(self).inner_of().published(
                    c,
                )).version == final(self).cached_version(),
            forall|c: int|
                0 <= c < old(self).num_cpus_spec() ==> #[trigger] final(self).read_headroom(c),
            final(self).inner_gets_spec() == old(self).inner_gets_spec(),
    {
        let copy = value.clone();
        let version = self.inner.set(copy);
        proof {
            assert forall|c: int| 0 <= c < old(self).num_cpus_spec() implies twice_cloned::<T>(
                value,
                (#[trigger] self.inner.published(c)).value,
            ) by {
                assert(cloned::<T>(value, copy) && cloned::<T>(
                    copy,
                    self.inner.published(c).value,
                ));
            }
        }
        self.cached.value = value;
        self.cached.version = version;
    }

    /// The currently published version.
    pub fn current_version(&self) -> (v: u64)
        ensures
            v == self.inner_of().version_spec(),
    {
        self.inner.current_version()
    }

    /// How often reads took the per-CPU path instead of the cache.
    pub fn inner_get_count(&self) -> (n: u64)
        ensures
            n == self.inner_gets_spec(),
    {
        self.inner_gets
    }

    /// Checks whether CPU `cpu`'s next read can count one more transient
    /// holder: what an embedding tests before calling `get`.
    pub fn has_read_headroom(&self, cpu: usize) -> (r: bool)
        requires
            self.wf(),
            cpu < self.num_cpus_spec(),
        ensures
            r == self.read_headroom(cpu as int),
    {
        self.inner.has_read_headroom(cpu)
    }

    /// How many CPUs the variable serves.
    pub fn num_cpus(&self) -> (n: usize)
        ensures
            n == self.num_cpus_spec(),
    {
        self.inner.num_cpus()
    }

    /// Runs every deferred release queued for the CPU named in `rs`: what
    /// that CPU's worker does while the variable lives. Published values are
    /// untouched.
    pub fn run_worker(&mut self, rs: &rseq)
        requires
            old(self).wf(),
            (rs.cpu_id as int) < old(self).num_cpus_spec(),
        ensures
            final(self).wf(),
            final(self).num_cpus_spec() == old(self).num_cpus_spec(),
            final(self).inner_of().deferred(rs.cpu_id as int) == 0,
            final(self).cached_version() == old(self).cached_version(),
            final(self).cached_value() == old(self).cached_value(),
            final(self).inner_gets_spec() == old(self).inner_gets_spec(),
    {
        self.inner.run_worker(rs);
    }

    /// The observability counters.
    pub fn stats(&self) -> (r: Stats)
        ensures
            r == self.inner_of().stats_spec(),
    {
        self.inner.stats()
    }

    /// How many cells were ever allocated for this variable.
    pub fn allocations(&self) -> (n: usize)
        ensures
            n == self.inner_of().allocations_spec(),
    {
        self.inner.allocations()
    }

    /// How many of this variable's cells were freed.
    pub fn deallocations(&self) -> (n: u64)
        ensures
            n == self.inner_of().deallocations_spec(),
    {
        self.inner.deallocations()
    }

    /// Tears the variable down; see the core's teardown.
    pub fn teardown(self, rs: &rseq) -> (r: (
        PcrArena<Versioned<VersioningU64, T>>,
        CpuWorkers,
        Stats,
    ))
        requires
            self.wf(),
            (rs.cpu_id as int) < self.num_cpus_spec(),
        ensures
            residue_wf(r.0, r.1),
            r.1.num_cpus() == self.num_cpus_spec(),
            r.0.num_slots() == self.inner_of().allocations_spec(),
    {
        let AtomicSlc { cached: _, inner, inner_gets: _ } = self;
        inner.teardown(rs)
    }
}

/// A cached read with no intervening write leaves the handle untouched: the
/// per-CPU path is not entered, and the handle stays up to date, so every
/// further read short-circuits the same way and serves the same value.
pub proof fn lemma_slc_short_circuit<T: Clone>(s: AtomicSlc<T>, s2: AtomicSlc<T>)
    requires
        s.wf(),
        s.up_to_date(),
        s2 == s,
    ensures
        s2.wf(),
        s2.up_to_date(),
        s2.cached_value() == s.cached_value(),
        s2.inner_gets_spec() == s.inner_gets_spec(),
{
}

} // verus!
