//! The unversioned public handle: an atomic variable with eventual
//! consistency.
//!
//! The handle supports any cloneable value. Setting deposits the value in
//! every CPU's pending slot; getting returns the value the reader's CPU
//! currently serves, which is the last set value once the CPU's pending slot
//! has been consumed. Reads are not monotonic: a read may return an older
//! value than an earlier read on another CPU returned, until its own CPU
//! catches up. Once writes stop, every CPU's next read converges on the last
//! set value.
//!
//! In the running system the handle is shared across threads behind shared
//! ownership; here one owner stands for all of them, and each operation names
//! the CPU it runs on through the thread's kernel record.

use crate::inner::{residue_wf, Inner};
use crate::per_cpu_rc::PcrArena;
use crate::per_cpu_thread::CpuWorkers;
use crate::rseq::rseq;
use crate::versioning::{Versioned, VersioningNone};
use crate::Stats;
use vstd::prelude::*;

verus! {

/// An atomic variable with eventual consistency and no version tracking.
pub struct AtomicNmt<T: Clone> {
    pub(crate) inner: Inner<VersioningNone, T>,
}

impl<T: Clone> AtomicNmt<T> {
    /// The per-CPU core behind the handle.
    pub open(crate) spec fn inner_of(&self) -> Inner<VersioningNone, T> {
        self.inner
    }

    pub open(crate) spec fn wf(&self) -> bool {
        self.inner.wf()
    }

    pub open(crate) spec fn num_cpus_spec(&self) -> int {
        self.inner.num_cpus_spec()
    }

    /// The value the next read on CPU `c` returns.
    pub open(crate) spec fn published_value(&self, c: int) -> T {
        self.inner.published(c).value
    }

    /// Whether CPU `c`'s next read can count one more transient holder; a
    /// machine limit on the cell's 64-bit count.
    pub open(crate) spec fn read_headroom(&self, c: int) -> bool {
        self.inner.read_headroom(c)
    }

    /// Creates the variable, serving a clone of `value` on every CPU.
    pub fn new(num_cpus: usize, value: T) -> (r: Self)
        requires
            1 <= num_cpus <= u32::MAX,
        ensures
            r.wf(),
            r.num_cpus_spec() == num_cpus,
            forall|c: int| 0 <= c < num_cpus ==> cloned::<T>(value, #[trigger] r.published_value(c)),
            forall|c: int| 0 <= c < num_cpus ==> #[trigger] r.read_headroom(c),
            r.inner_of().stats_spec().num_off_cpu_release == 0,
    {
        AtomicNmt { inner: Inner::new(num_cpus, value) }
    }

    /// Sets the value.
    ///
    /// At some point after this call — for each CPU, on its next read — all
    /// reads return this value or a value set by a later call.
    pub fn set(&mut self, value: T)
        requires
            old(self).wf(),
        ensures
            final(self).wf(),
            final(self).num_cpus_spec() == old(self).num_cpus_spec(),
            forall|c: int|
                0 <= c < old(self).num_cpus_spec() ==> cloned::<T>(
                    value,
                    #[trigger] final(self).published_value(c),
                ),
            forall|c: int|
                0 <= c < old(self).num_cpus_spec() ==> #[trigger] final(self).read_headroom(c),
            final(self).inner_of().stats_spec() == old(self).inner_of().stats_spec(),
    {
        let _ver = self.inner.set(value);
    }

    /// Clones the value the reader's CPU currently serves.
    ///
    /// `rs` names the CPU the read starts on; `rs_after` the CPU it drops its
    /// transient reference on. This function does not necessarily return the
    /// last set value, nor are reads monotonic across CPUs; but it returns
    /// each CPU's published value and changes no CPU's published value, so
    /// after a `set` with no later `set`, every read returns the set value.
    pub fn get(&mut self, rs: &rseq, rs_after: &rseq) -> (r: T)
        requires
            old(self).wf(),
            (rs.cpu_id as int) < old(self).num_cpus_spec(),
            (rs_after.cpu_id as int) < old(self).num_cpus_spec(),
            old(self).read_headroom(rs.cpu_id as int),
        ensures
            final(self).wf(),
            final(self).num_cpus_spec() == old(self).num_cpus_spec(),
            cloned::<T>(old(self).published_value(rs.cpu_id as int), r),
            forall|c: int|
                0 <= c < old(self).num_cpus_spec() ==> #[trigger] final(self).published_value(c)
                    == old(self).published_value(c),
            rs_after.cpu_id == rs.cpu_id ==> final(self).read_headroom(rs.cpu_id as int),
            rs_after.cpu_id == rs.cpu_id ==> final(self).inner_of().stats_spec() == old(
                self,
            ).inner_of().stats_spec(),
            rs_after.cpu_id != rs.cpu_id ==> final(self).inner_of().stats_spec().num_off_cpu_release
                == old(self).inner_of().stats_spec().num_off_cpu_release.wrapping_add(1),
    {
        let versioned = self.inner.get(rs, rs_after);
        versioned.value
    }

    /// Checks whether CPU `cpu`'s next read can count one more transient
    /// holder: what an embedding tests before calling `get`.
    pub fn has_read_headroom(&self, cpu: usize) -> (r: bool)
        requires
            self.wf(),
            cpu < self.num_cpus_spec(),
        ensures
            r == self.read_headroom(cpu as int),
    {
        self.inner.has_read_headroom(cpu)
    }

    /// How many CPUs the variable serves.
    pub fn num_cpus(&self) -> (n: usize)
        ensures
            n == self.num_cpus_spec(),
    {
        self.inner.num_cpus()
    }

    /// The observability counters.
    pub fn stats(&self) -> (r: Stats)
        ensures
            r == self.inner_of().stats_spec(),
    {
        self.inner.stats()
    }

    /// How many cells were ever allocated for this variable.
    pub fn allocations(&self) -> (n: usize)
        ensures
            n == self.inner_of().allocations_spec(),
    {
        self.inner.allocations()
    }

    /// How many of this variable's cells were freed.
    pub fn deallocations(&self) -> (n: u64)
        ensures
            n == self.inner_of().deallocations_spec(),
    {
        self.inner.deallocations()
    }

    /// Runs every deferred release queued for the CPU named in `rs`: what
    /// that CPU's worker does while the variable lives. Published values are
    /// untouched.
    pub fn run_worker(&mut self, rs: &rseq)
        requires
            old(self).wf(),
            (rs.cpu_id as int) < old(self).num_cpus_spec(),
        ensures
            final(self).wf(),
            final(self).num_cpus_spec() == old(self).num_cpus_spec(),
            final(self).inner_of().deferred(rs.cpu_id as int) == 0,
            forall|c: int|
                0 <= c < old(self).num_cpus_spec() ==> #[trigger] final(self).published_value(c)
                    == old(self).published_value(c),
            final(self).inner_of().stats_spec() == old(self).inner_of().stats_spec(),
    {
        self.inner.run_worker(rs);
    }

    /// How many deferred releases CPU `cpu`'s worker still has to run.
    pub fn deferred_releases(&self, cpu: usize) -> (n: usize)
        requires
            self.wf(),
            cpu < self.num_cpus_spec(),
        ensures
            n == self.inner_of().deferred(cpu as int),
    {
        self.inner.deferred_releases(cpu)
    }

    /// Tears the variable down; see the core's teardown.
    pub fn teardown(self, rs: &rseq) -> (r: (
        PcrArena<Versioned<VersioningNone, T>>,
        CpuWorkers,
        Stats,
    ))
        requires
            self.wf(),
            (rs.cpu_id as int) < self.num_cpus_spec(),
        ensures
            residue_wf(r.0, r.1),
            r.1.num_cpus() == self.num_cpus_spec(),
            r.0.num_slots() == self.inner_of().allocations_spec(),
    {
        self.inner.teardown(rs)
    }
}

} // verus!
