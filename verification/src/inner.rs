//! The eventually-consistent core: per-CPU live and pending slots.
//!
//! Every CPU has a live slot holding the cell its readers currently copy, and
//! a pending slot where writers deposit the next cell. A write builds one
//! fresh cell per CPU and swaps it into every pending slot; a read first moves
//! its own CPU's pending cell (if any) into the live slot, releasing the old
//! one, then copies the live cell's value. A pending cell that is shadowed by
//! a newer write before any reader consumed it is freed directly: nobody ever
//! took a reference to it.
//!
//! Readers therefore converge on the last written value CPU by CPU, each on
//! its next read, with no global fence: reads are eventually consistent and
//! explicitly non-monotonic across CPUs.
//!
//! The well-formedness invariant ties every cell's reference count to its
//! holders: the live slot, the pending slot, and queued deferred releases of
//! its CPU's worker. Each holder counts exactly once; the last one to let go
//! frees the cell.

use crate::per_cpu_rc::{self, PcrArena};
use crate::per_cpu_thread::CpuWorkers;
use crate::rseq::rseq;
use crate::versioning::{Versioned, Versioning, VersioningU64};
use crate::Stats;
use vstd::prelude::*;

verus! {

/// How often `h` occurs in a sequence of handles.
pub open spec fn count_in(s: Seq<usize>, h: int) -> nat
    decreases s.len(),
{
    if s.len() == 0 {
        0
    } else {
        count_in(s.drop_last(), h) + (if s.last() as int == h {
            1nat
        } else {
            0nat
        })
    }
}

/// How often `h` occurs among optional handles.
pub open spec fn count_opt(s: Seq<Option<usize>>, h: int) -> nat
    decreases s.len(),
{
    if s.len() == 0 {
        0
    } else {
        count_opt(s.drop_last(), h) + (if s.last() is Some && s.last()->Some_0 as int == h {
            1nat
        } else {
            0nat
        })
    }
}

/// How many of the optional handles are present at all.
pub open spec fn count_some(s: Seq<Option<usize>>) -> nat
    decreases s.len(),
{
    if s.len() == 0 {
        0
    } else {
        count_some(s.drop_last()) + (if s.last() is Some {
            1nat
        } else {
            0nat
        })
    }
}

/// How often `h` is queued for release on the workers of CPUs below `n`.
pub open spec fn queued_below(w: CpuWorkers, h: int, n: int) -> nat
    decreases n,
{
    if n <= 0 {
        0
    } else {
        queued_below(w, h, n - 1) + count_in(w.queue(n - 1), h)
    }
}

/// How often `h` is queued for release across all per-CPU workers.
pub open spec fn queued(w: CpuWorkers, h: int) -> nat {
    queued_below(w, h, w.num_cpus())
}

proof fn lemma_count_in_push(s: Seq<usize>, v: usize, h: int)
    ensures
        count_in(s.push(v), h) == count_in(s, h) + (if v as int == h {
            1nat
        } else {
            0nat
        }),
{
    assert(s.push(v).drop_last() =~= s);
}

proof fn lemma_count_in_update(s: Seq<usize>, i: int, v: usize, h: int)
    requires
        0 <= i < s.len(),
    ensures
        count_in(s.update(i, v), h) + (if s[i] as int == h {
            1nat
        } else {
            0nat
        }) == count_in(s, h) + (if v as int == h {
            1nat
        } else {
            0nat
        }),
    decreases s.len(),
{
    if i == s.len() - 1 {
        assert(s.update(i, v).drop_last() =~= s.drop_last());
    } else {
        assert(s.update(i, v).drop_last() =~= s.drop_last().update(i, v));
        lemma_count_in_update(s.drop_last(), i, v, h);
    }
}

proof fn lemma_count_in_zero(s: Seq<usize>, h: int)
    requires
        forall|i: int| 0 <= i < s.len() ==> s[i] as int != h,
    ensures
        count_in(s, h) == 0,
    decreases s.len(),
{
    if s.len() > 0 {
        lemma_count_in_zero(s.drop_last(), h);
    }
}

proof fn lemma_count_in_at(s: Seq<usize>, i: int)
    requires
        0 <= i < s.len(),
    ensures
        count_in(s, s[i] as int) >= 1,
    decreases s.len(),
{
    if i < s.len() - 1 {
        lemma_count_in_at(s.drop_last(), i);
    }
}

proof fn lemma_count_in_drop_first(s: Seq<usize>, h: int)
    requires
        s.len() > 0,
    ensures
        count_in(s, h) == count_in(s.drop_first(), h) + (if s.first() as int == h {
            1nat
        } else {
            0nat
        }),
    decreases s.len(),
{
    if s.len() == 1 {
        assert(s.drop_first() =~= Seq::<usize>::empty());
        assert(s.drop_last() =~= Seq::<usize>::empty());
    } else {
        lemma_count_in_drop_first(s.drop_last(), h);
        assert(s.drop_first().drop_last() =~= s.drop_last().drop_first());
    }
}

proof fn lemma_count_opt_drop_first(s: Seq<Option<usize>>, h: int)
    requires
        s.len() > 0,
    ensures
        count_opt(s, h) == count_opt(s.drop_first(), h) + (if s.first() is Some
            && s.first()->Some_0 as int == h {
            1nat
        } else {
            0nat
        }),
    decreases s.len(),
{
    if s.len() == 1 {
        assert(s.drop_first() =~= Seq::<Option<usize>>::empty());
        assert(s.drop_last() =~= Seq::<Option<usize>>::empty());
    } else {
        lemma_count_opt_drop_first(s.drop_last(), h);
        assert(s.drop_first().drop_last() =~= s.drop_last().drop_first());
    }
}

proof fn lemma_count_opt_update(s: Seq<Option<usize>>, i: int, v: Option<usize>, h: int)
    requires
        0 <= i < s.len(),
    ensures
        count_opt(s.update(i, v), h) + (if s[i] is Some && s[i]->Some_0 as int == h {
            1nat
        } else {
            0nat
        }) == count_opt(s, h) + (if v is Some && v->Some_0 as int == h {
            1nat
        } else {
            0nat
        }),
    decreases s.len(),
{
    if i == s.len() - 1 {
        assert(s.update(i, v).drop_last() =~= s.drop_last());
    } else {
        assert(s.update(i, v).drop_last() =~= s.drop_last().update(i, v));
        lemma_count_opt_update(s.drop_last(), i, v, h);
    }
}

proof fn lemma_count_opt_zero(s: Seq<Option<usize>>, h: int)
    requires
        forall|i: int| 0 <= i < s.len() ==> !(s[i] is Some && s[i]->Some_0 as int == h),
    ensures
        count_opt(s, h) == 0,
    decreases s.len(),
{
    if s.len() > 0 {
        lemma_count_opt_zero(s.drop_last(), h);
    }
}

proof fn lemma_count_opt_at(s: Seq<Option<usize>>, i: int)
    requires
        0 <= i < s.len(),
        s[i] is Some,
    ensures
        count_opt(s, s[i]->Some_0 as int) >= 1,
    decreases s.len(),
{
    if i < s.len() - 1 {
        lemma_count_opt_at(s.drop_last(), i);
    }
}

/// Two distinct slots holding the same handle count it at least twice.
proof fn lemma_count_opt_two(s: Seq<Option<usize>>, i: int, j: int)
    requires
        0 <= i < s.len(),
        0 <= j < s.len(),
        i != j,
        s[i] is Some,
        s[j] is Some,
        s[i]->Some_0 == s[j]->Some_0,
    ensures
        count_opt(s, s[i]->Some_0 as int) >= 2,
    decreases s.len(),
{
    if i == s.len() - 1 {
        lemma_count_opt_at(s.drop_last(), j);
    } else if j == s.len() - 1 {
        lemma_count_opt_at(s.drop_last(), i);
    } else {
        lemma_count_opt_two(s.drop_last(), i, j);
    }
}

/// Queue counts after changing the one queue `c`: only `c`'s contribution
/// moves.
proof fn lemma_queued_below_one_queue(pre: CpuWorkers, post: CpuWorkers, c: int, h: int, n: int)
    requires
        post.num_cpus() == pre.num_cpus(),
        0 <= c < pre.num_cpus(),
        n <= pre.num_cpus(),
        forall|k: int| 0 <= k < pre.num_cpus() && k != c ==> post.queue(k) == pre.queue(k),
    ensures
        c < n ==> queued_below(post, h, n) + count_in(pre.queue(c), h) == queued_below(pre, h, n)
            + count_in(post.queue(c), h),
        c >= n ==> queued_below(post, h, n) == queued_below(pre, h, n),
    decreases n,
{
    if n > 0 {
        lemma_queued_below_one_queue(pre, post, c, h, n - 1);
    }
}

/// A handle queued nowhere has queue count zero.
proof fn lemma_queued_below_zero(w: CpuWorkers, h: int, n: int)
    requires
        n <= w.num_cpus(),
        forall|c: int, i: int|
            0 <= c < w.num_cpus() && 0 <= i < w.queue(c).len() ==> w.queue(c)[i] as int != h,
    ensures
        queued_below(w, h, n) == 0,
    decreases n,
{
    if n > 0 {
        lemma_queued_below_zero(w, h, n - 1);
        lemma_count_in_zero(w.queue(n - 1), h);
    }
}

/// A queued handle has a positive queue count.
proof fn lemma_queued_below_at(w: CpuWorkers, c: int, i: int, n: int)
    requires
        0 <= c < n <= w.num_cpus(),
        0 <= i < w.queue(c).len(),
    ensures
        queued_below(w, c, n) >= 0,
        queued_below(w, w.queue(c)[i] as int, n) >= 1,
    decreases n,
{
    if c == n - 1 {
        lemma_count_in_at(w.queue(c), i);
    } else {
        lemma_queued_below_at(w, c, i, n - 1);
    }
}

/// The eventually-consistent core.
///
/// `value_by_cpu[c]` is the live slot of CPU `c`: the cell whose value `c`'s
/// readers currently copy. `new_value_by_cpu[c]` is the pending slot: the cell
/// the next reader on `c` will install before reading, or nothing. `version`
/// is the currently published version, bumped once per write.
///
/// Writers serialize on a lock around the swap of the pending slots and the
/// version bump; here the exclusive borrow stands in for that lock.
pub struct Inner<V: Versioning, T: Clone> {
    pub(crate) version: V::AtomicVersion,
    pub(crate) value_by_cpu: Vec<usize>,
    pub(crate) new_value_by_cpu: Vec<Option<usize>>,
    pub(crate) arena: PcrArena<Versioned<V, T>>,
    pub(crate) workers: CpuWorkers,
    pub(crate) stats: Stats,
}

impl<V: Versioning, T: Clone> Inner<V, T> {
    /// How many per-CPU slots the container has.
    pub open(crate) spec fn num_cpus_spec(&self) -> int {
        self.value_by_cpu@.len() as int
    }

    /// The live slot of CPU `c`.
    pub open(crate) spec fn live_h(&self, c: int) -> int {
        self.value_by_cpu@[c] as int
    }

    /// The pending slot of CPU `c`.
    pub open(crate) spec fn pending_at(&self, c: int) -> Option<usize> {
        self.new_value_by_cpu@[c]
    }

    /// The handle in the pending slot of CPU `c`.
    pub open(crate) spec fn pending_h(&self, c: int) -> int {
        self.new_value_by_cpu@[c]->Some_0 as int
    }

    /// The currently published version.
    pub open(crate) spec fn version_spec(&self) -> V::Version {
        V::read_spec(self.version)
    }

    /// The off-CPU release counter.
    pub open(crate) spec fn stats_spec(&self) -> Stats {
        self.stats
    }

    /// How many cells were ever allocated.
    pub open(crate) spec fn allocations_spec(&self) -> int {
        self.arena.num_slots()
    }

    /// How many cells were freed.
    pub open(crate) spec fn deallocations_spec(&self) -> int {
        self.arena.deallocations_spec()
    }

    /// The reference count of the live cell of CPU `c`.
    pub open(crate) spec fn live_rc(&self, c: int) -> int {
        self.arena.rc_of(self.live_h(c))
    }

    /// How many deferred releases CPU `c`'s worker still has to run.
    pub open(crate) spec fn deferred(&self, c: int) -> nat {
        self.workers.queue(c).len()
    }

    /// How many holders the cell at `h` has in this container: one for a live
    /// slot, one for a pending slot, one per queued deferred release.
    pub open(crate) spec fn holders(&self, h: int) -> nat {
        count_in(self.value_by_cpu@, h) + count_opt(self.new_value_by_cpu@, h) + queued(
            self.workers,
            h,
        )
    }

    /// The arena holding this container's cells.
    pub open(crate) spec fn arena_of(&self) -> PcrArena<Versioned<V, T>> {
        self.arena
    }

    /// This container's per-CPU workers.
    pub open(crate) spec fn workers_of(&self) -> CpuWorkers {
        self.workers
    }

    /// How many pending slots currently hold a cell.
    pub open(crate) spec fn pending_count(&self) -> nat {
        count_some(self.new_value_by_cpu@)
    }

    /// The payload the next read on CPU `c` will return: the pending cell if
    /// a write deposited one, else the live cell.
    pub open(crate) spec fn published(&self, c: int) -> Versioned<V, T> {
        if self.pending_at(c) is Some {
            self.arena.value_of(self.pending_h(c))
        } else {
            self.arena.value_of(self.live_h(c))
        }
    }

    /// The slots and queues are sized alike and hold only allocated cells,
    /// each tagged with the CPU whose slot or queue holds it.
    pub open(crate) spec fn slots_wf(&self) -> bool {
        &&& self.num_cpus_spec() >= 1
        &&& self.num_cpus_spec() <= u32::MAX
        &&& self.new_value_by_cpu@.len() == self.num_cpus_spec()
        &&& self.workers.num_cpus() == self.num_cpus_spec()
        &&& self.workers.inv()
        &&& self.arena.inv()
        &&& forall|c: int|
            0 <= c < self.num_cpus_spec() ==> self.arena.live(#[trigger] self.live_h(c))
                && self.arena.cpu_of(self.live_h(c)) == c
        &&& forall|c: int|
            0 <= c < self.num_cpus_spec() && self.pending_at(c) is Some ==> self.arena.live(
                #[trigger] self.pending_h(c),
            ) && self.arena.cpu_of(self.pending_h(c)) == c && self.arena.rc_of(self.pending_h(c))
                == 1
        &&& forall|c: int, i: int|
            0 <= c < self.num_cpus_spec() && 0 <= i < self.workers.queue(c).len()
                ==> self.arena.live(#[trigger] self.workers.queue(c)[i] as int) && self.arena.cpu_of(
                self.workers.queue(c)[i] as int,
            ) == c
    }

    /// Every allocated cell's count equals its holders, and nothing allocated
    /// is unowned.
    pub open(crate) spec fn counts_wf(&self) -> bool {
        forall|h: int|
            #[trigger] self.arena.live(h) && 0 <= h < self.arena.num_slots() ==> self.arena.rc_of(h)
                == self.holders(h) && self.arena.rc_of(h) >= 1
    }

    /// Pending cells carry exactly the published version; live cells never
    /// carry a later one.
    pub open(crate) spec fn versions_wf(&self) -> bool {
        &&& forall|c: int|
            0 <= c < self.num_cpus_spec() && self.pending_at(c) is Some ==> (#[trigger] self.arena.value_of(
                self.pending_h(c),
            )).version == self.version_spec()
        &&& forall|c: int|
            0 <= c < self.num_cpus_spec() ==> V::version_nat(
                (#[trigger] self.arena.value_of(self.live_h(c))).version,
            ) <= V::version_nat(self.version_spec())
    }

    /// The container's invariant.
    pub open(crate) spec fn wf(&self) -> bool {
        &&& self.slots_wf()
        &&& self.counts_wf()
        &&& self.versions_wf()
    }

    /// Whether CPU `c`'s next read can count one more transient holder.
    /// A machine limit: the count is a 64-bit word.
    pub open(crate) spec fn read_headroom(&self, c: int) -> bool {
        self.pending_at(c) is Some || self.arena.rc_of(self.live_h(c)) < u64::MAX
    }

    /// Checks whether CPU `cpu`'s next read can count one more transient
    /// holder: what an embedding tests before calling `get`.
    pub fn has_read_headroom(&self, cpu: usize) -> (r: bool)
        requires
            self.wf(),
            cpu < self.num_cpus_spec(),
        ensures
            r == self.read_headroom(cpu as int),
    {
        let pending = self.new_value_by_cpu[cpu];
        match pending {
            Some(_) => true,
            None => {
                let h = self.value_by_cpu[cpu];
                proof {
                    assert(h as int == self.live_h(cpu as int));
                    assert(self.arena.live(self.live_h(cpu as int)));
                }
                let cell_rc = per_cpu_rc::rc_value(&self.arena, h);
                cell_rc < u64::MAX
            },
        }
    }

    /// The currently published version.
    pub fn current_version(&self) -> (v: V::Version)
        ensures
            v == self.version_spec(),
    {
        V::get(&self.version)
    }

    /// How many CPUs the container serves.
    pub fn num_cpus(&self) -> (n: usize)
        ensures
            n == self.num_cpus_spec(),
    {
        self.value_by_cpu.len()
    }

    /// The observability counters.
    pub fn stats(&self) -> (r: Stats)
        ensures
            r == self.stats_spec(),
    {
        self.stats
    }

    /// How many cells were ever allocated.
    pub fn allocations(&self) -> (n: usize)
        ensures
            n == self.allocations_spec(),
    {
        self.arena.allocations()
    }

    /// How many cells were freed.
    pub fn deallocations(&self) -> (n: u64)
        ensures
            n == self.deallocations_spec(),
    {
        self.arena.deallocations()
    }

    /// How many deferred releases CPU `cpu`'s worker still has to run.
    pub fn deferred_releases(&self, cpu: usize) -> (n: usize)
        requires
            self.wf(),
            cpu < self.num_cpus_spec(),
        ensures
            n == self.deferred(cpu as int),
    {
        self.workers.queue_len(cpu)
    }

    /// Builds the container: one live cell per CPU carrying the initial value
    /// under the zero version, no pending cells, nothing queued.
    pub fn new(num_cpus: usize, value: T) -> (r: Self)
        requires
            1 <= num_cpus <= u32::MAX,
        ensures
            r.wf(),
            r.num_cpus_spec() == num_cpus,
            r.version_spec() == V::zero_spec(),
            forall|c: int| 0 <= c < num_cpus ==> (#[trigger] r.published(c)).version == V::zero_spec(),
            forall|c: int| 0 <= c < num_cpus ==> cloned::<T>(value, (#[trigger] r.published(c)).value),
            forall|c: int| 0 <= c < num_cpus ==> #[trigger] r.pending_at(c) is None,
            forall|c: int| 0 <= c < num_cpus ==> #[trigger] r.deferred(c) == 0,
            forall|c: int| 0 <= c < num_cpus ==> #[trigger] r.read_headroom(c),
            r.stats_spec().num_off_cpu_release == 0,
            r.allocations_spec() == num_cpus,
            r.deallocations_spec() == 0,
    {
        let mut arena: PcrArena<Versioned<V, T>> = PcrArena::empty();
        let mut value_by_cpu: Vec<usize> = Vec::new();
        let mut new_value_by_cpu: Vec<Option<usize>> = Vec::new();
        let mut c: usize = 0;
        while c < num_cpus
            invariant
                c <= num_cpus,
                num_cpus <= u32::MAX,
                arena.inv(),
                arena.num_slots() == c,
                arena.deallocations_spec() == 0,
                value_by_cpu@.len() == c,
                new_value_by_cpu@.len() == c,
                forall|k: int| 0 <= k < c ==> value_by_cpu@[k] == k,
                forall|k: int| 0 <= k < c ==> new_value_by_cpu@[k] is None,
                forall|k: int|
                    0 <= k < c ==> arena.live(#[trigger] value_by_cpu@[k] as int) && arena.cpu_of(
                        value_by_cpu@[k] as int,
                    ) == k && arena.rc_of(value_by_cpu@[k] as int) == 1,
                forall|k: int|
                    0 <= k < c ==> (#[trigger] arena.value_of(value_by_cpu@[k] as int)).version
                        == V::zero_spec() && cloned::<T>(
                        value,
                        arena.value_of(value_by_cpu@[k] as int).value,
                    ),
            decreases num_cpus - c,
        {
            let stamp = V::new();
            let payload = Versioned { version: stamp, value: value.clone() };
            let ghost pre_arena = arena;
            let ghost pre_vb = value_by_cpu@;
            let h = per_cpu_rc::new(&mut arena, c as u32, payload);
            value_by_cpu.push(h);
            new_value_by_cpu.push(None);
            proof {
                assert forall|k: int| 0 <= k < c implies per_cpu_rc::slot_unchanged(
                    pre_arena,
                    arena,
                    k,
                ) by {}
                assert forall|k: int| 0 <= k < c implies arena.live(
                    #[trigger] value_by_cpu@[k] as int,
                ) && arena.cpu_of(value_by_cpu@[k] as int) == k && arena.rc_of(
                    value_by_cpu@[k] as int,
                ) == 1 && arena.value_of(value_by_cpu@[k] as int).version == V::zero_spec()
                    && cloned::<T>(value, arena.value_of(value_by_cpu@[k] as int).value) by {
                    assert(value_by_cpu@[k] == pre_vb[k]);
                    assert(pre_vb[k] == k);
                    assert(pre_arena.live(pre_vb[k] as int));
                    assert(pre_arena.value_of(pre_vb[k] as int).version == V::zero_spec());
                    assert(per_cpu_rc::slot_unchanged(pre_arena, arena, k));
                }
            }
            c = c + 1;
        }
        let workers = CpuWorkers::new(num_cpus);
        let stats = Stats::new();
        let version = V::new_atomic();
        let r = Inner { version, value_by_cpu, new_value_by_cpu, arena, workers, stats };
        proof {
            assert forall|h: int|
                #[trigger] r.arena.live(h) && 0 <= h < r.arena.num_slots() implies r.arena.rc_of(h)
                == r.holders(h) && r.arena.rc_of(h) >= 1 by {
                assert(r.value_by_cpu@[h] == h as usize);
                lemma_count_in_at(r.value_by_cpu@, h);
                assert forall|i: int| 0 <= i < r.value_by_cpu@.len() && i != h implies
                    r.value_by_cpu@[i] as int != h by {}
                lemma_count_in_one(r.value_by_cpu@, h);
                lemma_count_opt_zero(r.new_value_by_cpu@, h);
                lemma_queued_below_zero(r.workers, h, r.workers.num_cpus());
            }
        }
        r
    }
}

impl<V: Versioning, T: Clone> Inner<V, T> {
    /// Consumes the reader CPU's pending cell, if a write deposited one:
    /// installs it as the live cell and releases the replaced one. The
    /// replaced cell's last holder frees it; holders queued behind deferred
    /// releases keep it alive until the worker runs them.
    ///
    /// Runs on the CPU named in `rs`, so the replaced cell (owned by that
    /// CPU) is always released on its owner: nothing is deferred here.
    fn maybe_update(&mut self, rs: &rseq)
        requires
            old(self).wf(),
            (rs.cpu_id as int) < old(self).num_cpus_spec(),
        ensures
            final(self).wf(),
            final(self).num_cpus_spec() == old(self).num_cpus_spec(),
            final(self).version == old(self).version,
            final(self).workers == old(self).workers,
            final(self).stats == old(self).stats,
            final(self).pending_at(rs.cpu_id as int) is None,
            forall|c: int|
                0 <= c < old(self).num_cpus_spec() && c != rs.cpu_id as int ==> final(self).pending_at(c) == old(self).pending_at(c) && final(self).live_h(c) == old(self).live_h(c),
            forall|c: int|
                0 <= c < old(self).num_cpus_spec() ==> #[trigger] final(self).published(c) == old(self).published(c),
            final(self).arena.num_slots() == old(self).arena.num_slots(),
            final(self).arena.rc_of(final(self).live_h(rs.cpu_id as int)) < u64::MAX
                || !old(self).read_headroom(rs.cpu_id as int),
            final(self).deallocations_spec() == old(self).deallocations_spec() + (
            if old(self).pending_at(rs.cpu_id as int) is Some && old(self).live_rc(
                rs.cpu_id as int,
            ) == 1 {
                1int
            } else {
                0int
            }),
    {
        let cpu = rs.cpu_id as usize;
        let pending = self.new_value_by_cpu[cpu];
        match pending {
            None => {
                proof {
                    let c = rs.cpu_id as int;
                    assert(self.pending_at(c) is None);
                    if old(self).read_headroom(c) {
                        assert(self.arena.rc_of(self.live_h(c)) < u64::MAX);
                    }
                }
            },
            Some(p) => {
                let ghost s0 = *self;
                let old_h = self.value_by_cpu[cpu];
                proof {
                    let c = cpu as int;
                    assert(s0.pending_at(c) == Some(p));
                    assert(s0.pending_h(c) == p as int);
                    assert(s0.arena.live(s0.pending_h(c)) && s0.arena.rc_of(s0.pending_h(c)) == 1);
                    assert(s0.arena.live(s0.live_h(c)) && s0.arena.cpu_of(s0.live_h(c)) == c);
                    assert(s0.arena.rc_of(p as int) == s0.holders(p as int));
                    assert(s0.arena.rc_of(old_h as int) == s0.holders(old_h as int));
                    assert(s0.arena.rc_of(old_h as int) >= 1);
                }
                self.new_value_by_cpu.set(cpu, None);
                self.value_by_cpu.set(cpu, p);
                let ghost s1 = *self;
                let _st = per_cpu_rc::release(
                    &mut self.arena,
                    &mut self.workers,
                    &mut self.stats,
                    rs,
                    old_h,
                );
                proof {
                    let c = cpu as int;
                    let n = s0.num_cpus_spec();
                    let vb0 = s0.value_by_cpu@;
                    let nv0 = s0.new_value_by_cpu@;
                    assert(self.value_by_cpu@ == vb0.update(c, p));
                    assert(self.new_value_by_cpu@ == nv0.update(c, None));
                    // The pending cell and the replaced cell are distinct:
                    // the pending cell has exactly one holder, its slot.
                    lemma_count_opt_at(nv0, c);
                    if p as int == old_h as int {
                        lemma_count_in_at(vb0, c);
                        assert(s0.holders(p as int) >= 2);
                        assert(false);
                    }
                    assert forall|h: int|
                        #[trigger] self.arena.live(h) && 0 <= h < self.arena.num_slots() implies
                        self.arena.rc_of(h) == self.holders(h) && self.arena.rc_of(h) >= 1 by {
                        lemma_count_in_update(vb0, c, p, h);
                        lemma_count_opt_update(nv0, c, None, h);
                        if h == old_h as int {
                            assert(per_cpu_rc::counted_down(s1.arena, self.arena, h));
                            assert(s0.arena.rc_of(h) > 1);
                        } else {
                            assert(per_cpu_rc::slot_unchanged(s1.arena, self.arena, h));
                            assert(s0.arena.live(h));
                            assert(s0.arena.rc_of(h) == s0.holders(h));
                        }
                    }
                    assert forall|cc: int| 0 <= cc < n implies #[trigger] self.published(cc)
                        == s0.published(cc) by {
                        if cc == c {
                            assert(per_cpu_rc::slot_unchanged(s1.arena, self.arena, p as int));
                        } else {
                            if s0.pending_at(cc) is Some {
                                assert(per_cpu_rc::slot_unchanged(
                                    s1.arena,
                                    self.arena,
                                    s0.pending_h(cc),
                                ));
                            } else {
                                assert(per_cpu_rc::slot_unchanged(
                                    s1.arena,
                                    self.arena,
                                    s0.live_h(cc),
                                ));
                            }
                        }
                    }
                    assert(self.slots_wf()) by {
                        assert forall|cc: int| 0 <= cc < n implies self.arena.live(
                            #[trigger] self.live_h(cc),
                        ) && self.arena.cpu_of(self.live_h(cc)) == cc by {
                            if cc != c {
                                assert(per_cpu_rc::slot_unchanged(
                                    s1.arena,
                                    self.arena,
                                    s0.live_h(cc),
                                ));
                            } else {
                                assert(per_cpu_rc::slot_unchanged(s1.arena, self.arena, p as int));
                            }
                        }
                        assert forall|cc: int|
                            0 <= cc < n && self.pending_at(cc) is Some implies self.arena.live(
                            #[trigger] self.pending_h(cc),
                        ) && self.arena.cpu_of(self.pending_h(cc)) == cc && self.arena.rc_of(
                            self.pending_h(cc),
                        ) == 1 by {
                            assert(cc != c);
                            assert(per_cpu_rc::slot_unchanged(
                                s1.arena,
                                self.arena,
                                s0.pending_h(cc),
                            ));
                        }
                        assert forall|cc: int, i: int|
                            0 <= cc < n && 0 <= i < self.workers.queue(cc).len() implies
                            self.arena.live(#[trigger] self.workers.queue(cc)[i] as int)
                            && self.arena.cpu_of(self.workers.queue(cc)[i] as int) == cc by {
                            let qh = self.workers.queue(cc)[i] as int;
                            lemma_queued_below_at(s0.workers, cc, i, s0.workers.num_cpus());
                            assert(s0.arena.live(qh));
                            if qh == old_h as int {
                                lemma_count_in_at(vb0, c);
                                assert(queued(s0.workers, qh) >= 1);
                                assert(s0.holders(qh) >= 2);
                                assert(s0.arena.rc_of(qh) == s0.holders(qh));
                                assert(s0.arena.rc_of(qh) > 1);
                                assert(per_cpu_rc::counted_down(s1.arena, self.arena, qh));
                            } else {
                                assert(per_cpu_rc::slot_unchanged(s1.arena, self.arena, qh));
                            }
                        }
                    }
                    assert(per_cpu_rc::slot_unchanged(s1.arena, self.arena, p as int));
                    assert(self.live_h(c) == p as int);
                    assert(self.arena.rc_of(p as int) == 1);
                    assert(self.versions_wf()) by {
                        assert forall|cc: int| 0 <= cc < n implies V::version_nat(
                            (#[trigger] self.arena.value_of(self.live_h(cc))).version,
                        ) <= V::version_nat(self.version_spec()) by {
                            if cc == c {
                                assert(per_cpu_rc::slot_unchanged(s1.arena, self.arena, p as int));
                                assert(s0.arena.value_of(p as int).version == s0.version_spec());
                            } else {
                                assert(per_cpu_rc::slot_unchanged(
                                    s1.arena,
                                    self.arena,
                                    s0.live_h(cc),
                                ));
                            }
                        }
                        assert forall|cc: int|
                            0 <= cc < n && self.pending_at(cc) is Some implies (
                        #[trigger] self.arena.value_of(self.pending_h(cc))).version
                            == self.version_spec() by {
                            assert(cc != c);
                            assert(per_cpu_rc::slot_unchanged(
                                s1.arena,
                                self.arena,
                                s0.pending_h(cc),
                            ));
                        }
                    }
                }
            },
        }
    }

    /// Publishes a new value under the next version.
    ///
    /// Builds one fresh cell per CPU carrying a clone of `value`, stamps each
    /// with the next version, swaps it into the CPU's pending slot, and then
    /// publishes the version. A pending cell replaced before any reader
    /// consumed it is freed on the spot: nobody ever held a reference to it.
    /// Live cells, the workers and the counters are left alone; readers pick
    /// the new cells up on their next read, CPU by CPU.
    pub fn set(&mut self, value: T) -> (ver: V::Version)
        requires
            old(self).wf(),
            V::inc_ok(old(self).version_spec()),
        ensures
            final(self).wf(),
            final(self).num_cpus_spec() == old(self).num_cpus_spec(),
            ver == V::inc_spec(old(self).version_spec()),
            final(self).version_spec() == ver,
            forall|c: int|
                0 <= c < old(self).num_cpus_spec() ==> #[trigger] final(self).pending_at(c)
                    is Some,
            forall|c: int|
                0 <= c < old(self).num_cpus_spec() ==> (#[trigger] final(self).published(
                    c,
                )).version == ver,
            forall|c: int|
                0 <= c < old(self).num_cpus_spec() ==> cloned::<T>(
                    value,
                    (#[trigger] final(self).published(c)).value,
                ),
            forall|c: int|
                0 <= c < old(self).num_cpus_spec() ==> #[trigger] final(self).live_h(c) == old(self).live_h(c),
            forall|c: int| 0 <= c < old(self).num_cpus_spec() ==> #[trigger] final(self).read_headroom(c),
            final(self).stats_spec() == old(self).stats_spec(),
            forall|c: int|
                0 <= c < old(self).num_cpus_spec() ==> #[trigger] final(self).deferred(c) == old(self).deferred(c),
            final(self).allocations_spec() == old(self).allocations_spec() + old(self).num_cpus_spec(),
            final(self).deallocations_spec() == old(self).deallocations_spec() + old(self).pending_count(),
    {
        let ghost s0 = *self;
        let ver = V::inc(V::get(&self.version));
        let n = self.value_by_cpu.len();
        let mut cpu: usize = 0;
        while cpu < n
            invariant
                cpu <= n,
                n == s0.num_cpus_spec(),
                s0.wf(),
                V::inc_ok(s0.version_spec()),
                ver == V::inc_spec(s0.version_spec()),
                self.value_by_cpu@ == s0.value_by_cpu@,
                self.new_value_by_cpu@.len() == n,
                self.workers == s0.workers,
                self.stats == s0.stats,
                self.version == s0.version,
                self.arena.inv(),
                self.arena.num_slots() == s0.arena.num_slots() + cpu,
                self.arena.deallocations_spec() == s0.arena.deallocations_spec() + count_some(
                    s0.new_value_by_cpu@.take(cpu as int),
                ),
                forall|c: int|
                    0 <= c < cpu ==> #[trigger] self.pending_at(c) is Some && self.arena.live(
                        self.pending_h(c),
                    ) && self.arena.cpu_of(self.pending_h(c)) == c && self.arena.rc_of(
                        self.pending_h(c),
                    ) == 1 && self.arena.value_of(self.pending_h(c)).version == ver && cloned::<T>(
                        value,
                        self.arena.value_of(self.pending_h(c)).value,
                    ),
                forall|c: int| cpu <= c < n ==> #[trigger] self.pending_at(c) == s0.pending_at(c),
                forall|h: int|
                    0 <= h < s0.arena.num_slots() && !shadowed(s0, h, cpu as int)
                        ==> #[trigger] per_cpu_rc::slot_unchanged(s0.arena, self.arena, h),
                forall|h: int|
                    0 <= h < s0.arena.num_slots() && #[trigger] shadowed(s0, h, cpu as int)
                        ==> !self.arena.live(h),
                forall|h: int|
                    #[trigger] self.arena.live(h) && 0 <= h < self.arena.num_slots()
                        ==> self.arena.rc_of(h) == self.holders(h) && self.arena.rc_of(h) >= 1,
            decreases n - cpu,
        {
            let ghost spre = *self;
            let payload = Versioned { version: ver, value: value.clone() };
            let h_new = per_cpu_rc::new(&mut self.arena, cpu as u32, payload);
            let prev = self.new_value_by_cpu[cpu];
            self.new_value_by_cpu.set(cpu, Some(h_new));
            let ghost smid = *self;
            proof {
                let c = cpu as int;
                assert(s0.new_value_by_cpu@.take(c + 1).drop_last() =~= s0.new_value_by_cpu@.take(
                    c,
                ));
                assert(spre.pending_at(c) == s0.pending_at(c));
                if prev is Some {
                    let p = s0.pending_h(c);
                    assert(s0.pending_at(c) is Some);
                    assert(s0.arena.live(s0.pending_h(c)) && s0.arena.rc_of(s0.pending_h(c)) == 1);
                    assert(s0.arena.live(p));
                    assert(!shadowed(s0, p, c)) by {
                        if shadowed(s0, p, c) {
                            let cc = choose|cc: int|
                                0 <= cc < c && (#[trigger] s0.pending_at(cc)) is Some
                                    && s0.pending_h(cc) == p;
                            lemma_count_opt_two(s0.new_value_by_cpu@, cc, c);
                            assert(s0.arena.rc_of(p) == s0.holders(p));
                            assert(false);
                        }
                    }
                    assert(per_cpu_rc::slot_unchanged(s0.arena, spre.arena, p));
                    assert(spre.arena.rc_of(p) == 1);
                    assert(per_cpu_rc::slot_unchanged(spre.arena, smid.arena, p));
                }
            }
            match prev {
                Some(p) => {
                    per_cpu_rc::dealloc(&mut self.arena, p);
                },
                None => {},
            }
            proof {
                let c = cpu as int;
                let nv0 = spre.new_value_by_cpu@;
                let ghost_prev = s0.pending_at(c);
                // Every holder count moves by the one pending-slot write.
                assert forall|h: int|
                    #[trigger] self.arena.live(h) && 0 <= h < self.arena.num_slots() implies
                    self.arena.rc_of(h) == self.holders(h) && self.arena.rc_of(h) >= 1 by {
                    lemma_count_opt_update(nv0, c, Some(h_new), h);
                    if h == h_new as int {
                        assert(count_in(spre.value_by_cpu@, h) == 0) by {
                            assert forall|i: int|
                                0 <= i < spre.value_by_cpu@.len() implies spre.value_by_cpu@[i]
                                    as int != h by {
                                assert(s0.arena.live(s0.live_h(i)));
                            }
                            lemma_count_in_zero(spre.value_by_cpu@, h);
                        }
                        assert(count_opt(nv0, h) == 0) by {
                            assert forall|i: int|
                                0 <= i < nv0.len() implies !(nv0[i] is Some && nv0[i]->Some_0
                                    as int == h) by {
                                if nv0[i] is Some {
                                    assert(spre.pending_at(i) is Some);
                                    if i < c {
                                        assert(spre.arena.live(spre.pending_h(i)));
                                    } else {
                                        assert(spre.pending_at(i) == s0.pending_at(i));
                                        assert(!shadowed(s0, s0.pending_h(i), c));
                                        assert(per_cpu_rc::slot_unchanged(
                                            s0.arena,
                                            spre.arena,
                                            s0.pending_h(i),
                                        ));
                                        assert(spre.arena.live(spre.pending_h(i)));
                                    }
                                }
                            }
                            lemma_count_opt_zero(nv0, h);
                        }
                        assert(queued(self.workers, h) == 0) by {
                            assert forall|cc: int, i: int|
                                0 <= cc < self.workers.num_cpus() && 0 <= i < self.workers.queue(
                                    cc,
                                ).len() implies self.workers.queue(cc)[i] as int != h by {
                                lemma_queued_below_at(s0.workers, cc, i, s0.workers.num_cpus());
                                assert(s0.arena.live(s0.workers.queue(cc)[i] as int));
                            }
                            lemma_queued_below_zero(self.workers, h, self.workers.num_cpus());
                        }
                        if ghost_prev is Some {
                            assert(per_cpu_rc::slot_unchanged(smid.arena, self.arena, h));
                        }
                        assert(self.arena.rc_of(h) == 1);
                        assert(self.holders(h) == 1);
                    } else {
                        if ghost_prev is Some && h == s0.pending_h(c) {
                            assert(!self.arena.live(h));
                            assert(false);
                        }
                        assert(per_cpu_rc::slot_unchanged(smid.arena, self.arena, h));
                        assert(per_cpu_rc::slot_unchanged(spre.arena, smid.arena, h));
                        assert(spre.arena.live(h));
                        assert(spre.arena.rc_of(h) == spre.holders(h));
                        assert(self.holders(h) == spre.holders(h));
                    }
                }
                // The frame: newly shadowed is exactly the consumed pending.
                assert forall|h: int|
                    0 <= h < s0.arena.num_slots() && !shadowed(s0, h, c + 1) implies
                    #[trigger] per_cpu_rc::slot_unchanged(s0.arena, self.arena, h) by {
                    assert(!shadowed(s0, h, c));
                    assert(per_cpu_rc::slot_unchanged(s0.arena, spre.arena, h));
                    assert(per_cpu_rc::slot_unchanged(spre.arena, smid.arena, h));
                    if ghost_prev is Some {
                        assert(h != s0.pending_h(c));
                        assert(per_cpu_rc::slot_unchanged(smid.arena, self.arena, h));
                    } else {
                        assert(per_cpu_rc::slot_unchanged(smid.arena, self.arena, h));
                    }
                }
                assert forall|h: int|
                    0 <= h < s0.arena.num_slots() && #[trigger] shadowed(s0, h, c + 1) implies
                    !self.arena.live(h) by {
                    if shadowed(s0, h, c) {
                        assert(!smid.arena.live(h)) by {
                            assert(!spre.arena.live(h));
                            assert(per_cpu_rc::slot_unchanged(spre.arena, smid.arena, h));
                        }
                        if ghost_prev is Some && h == s0.pending_h(c) {
                        } else {
                            assert(per_cpu_rc::slot_unchanged(smid.arena, self.arena, h));
                        }
                    } else {
                        let cc = choose|cc: int|
                            0 <= cc < c + 1 && (#[trigger] s0.pending_at(cc)) is Some
                                && s0.pending_h(cc) == h;
                        assert(cc == c);
                        assert(ghost_prev is Some && h == s0.pending_h(c));
                    }
                }
                // Processed pendings stay intact.
                assert forall|cc: int|
                    0 <= cc < c + 1 implies #[trigger] self.pending_at(cc) is Some
                        && self.arena.live(self.pending_h(cc)) && self.arena.cpu_of(
                        self.pending_h(cc),
                    ) == cc && self.arena.rc_of(self.pending_h(cc)) == 1 && self.arena.value_of(
                        self.pending_h(cc),
                    ).version == ver && cloned::<T>(
                        value,
                        self.arena.value_of(self.pending_h(cc)).value,
                    ) by {
                    if cc < c {
                        assert(spre.pending_at(cc) is Some);
                        assert(self.pending_h(cc) == spre.pending_h(cc));
                        assert(spre.arena.live(spre.pending_h(cc)));
                        assert(per_cpu_rc::slot_unchanged(
                            spre.arena,
                            smid.arena,
                            spre.pending_h(cc),
                        ));
                        if ghost_prev is Some {
                            assert(spre.pending_h(cc) != s0.pending_h(c));
                            assert(per_cpu_rc::slot_unchanged(
                                smid.arena,
                                self.arena,
                                spre.pending_h(cc),
                            ));
                        } else {
                            assert(per_cpu_rc::slot_unchanged(
                                smid.arena,
                                self.arena,
                                spre.pending_h(cc),
                            ));
                        }
                    } else {
                        assert(self.pending_h(cc) == h_new as int);
                        if ghost_prev is Some {
                            assert(s0.pending_h(c) < s0.arena.num_slots());
                            assert(per_cpu_rc::slot_unchanged(smid.arena, self.arena, h_new as int));
                        }
                    }
                }
            }
            proof {
                let c = cpu as int;
                assert forall|cc2: int| c + 1 <= cc2 < n implies #[trigger] self.pending_at(cc2)
                    == s0.pending_at(cc2) by {
                    assert(self.pending_at(cc2) == spre.pending_at(cc2));
                }
            }
            cpu = cpu + 1;
        }
        let ghost send = *self;
        V::set(&mut self.version, ver);
        proof {
            let nn = s0.num_cpus_spec();
            assert(s0.new_value_by_cpu@.take(nn) =~= s0.new_value_by_cpu@);
            V::lemma_inc_monotonic(s0.version_spec());
            assert(self.arena == send.arena && self.value_by_cpu == send.value_by_cpu
                && self.new_value_by_cpu == send.new_value_by_cpu && self.workers == send.workers
                && self.stats == send.stats);
            assert forall|c: int| 0 <= c < nn implies #[trigger] self.pending_at(c) is Some
                && self.arena.live(self.pending_h(c)) && self.arena.cpu_of(self.pending_h(c)) == c
                && self.arena.rc_of(self.pending_h(c)) == 1 && self.arena.value_of(
                self.pending_h(c),
            ).version == ver && cloned::<T>(value, self.arena.value_of(self.pending_h(c)).value)
                && self.published(c) == self.arena.value_of(self.pending_h(c)) by {
                assert(send.pending_at(c) is Some && send.arena.live(send.pending_h(c))
                    && send.arena.cpu_of(send.pending_h(c)) == c && send.arena.rc_of(
                    send.pending_h(c),
                ) == 1 && send.arena.value_of(send.pending_h(c)).version == ver && cloned::<T>(
                    value,
                    send.arena.value_of(send.pending_h(c)).value,
                ));
                assert(self.pending_at(c) == send.pending_at(c));
            }
            assert forall|h: int|
                #[trigger] self.arena.live(h) && 0 <= h < self.arena.num_slots() implies
                self.arena.rc_of(h) == self.holders(h) && self.arena.rc_of(h) >= 1 by {
                assert(send.arena.live(h));
                assert(send.arena.rc_of(h) == send.holders(h) && send.arena.rc_of(h) >= 1);
                assert(self.holders(h) == send.holders(h));
            }
            // No old pending cell is a live cell or sits in a worker queue:
            // its single holder is its pending slot.
            assert forall|c: int| 0 <= c < nn implies self.arena.live(#[trigger] self.live_h(c))
                && self.arena.cpu_of(self.live_h(c)) == c && self.arena.value_of(
                self.live_h(c),
            ) == s0.arena.value_of(s0.live_h(c)) by {
                assert(self.live_h(c) == s0.live_h(c));
                assert(s0.arena.live(s0.live_h(c)));
                assert(!shadowed(s0, s0.live_h(c), nn)) by {
                    if shadowed(s0, s0.live_h(c), nn) {
                        let cc = choose|cc: int|
                            0 <= cc < nn && (#[trigger] s0.pending_at(cc)) is Some
                                && s0.pending_h(cc) == s0.live_h(c);
                        lemma_pending_not_live(s0, cc, c);
                        assert(false);
                    }
                }
                assert(per_cpu_rc::slot_unchanged(s0.arena, self.arena, s0.live_h(c)));
            }
            assert forall|cc: int, i: int|
                0 <= cc < nn && 0 <= i < self.workers.queue(cc).len() implies self.arena.live(
                #[trigger] self.workers.queue(cc)[i] as int,
            ) && self.arena.cpu_of(self.workers.queue(cc)[i] as int) == cc by {
                let qh = self.workers.queue(cc)[i] as int;
                lemma_queued_below_at(s0.workers, cc, i, s0.workers.num_cpus());
                assert(s0.arena.live(qh));
                assert(!shadowed(s0, qh, nn)) by {
                    if shadowed(s0, qh, nn) {
                        let cc2 = choose|cc2: int|
                            0 <= cc2 < nn && (#[trigger] s0.pending_at(cc2)) is Some
                                && s0.pending_h(cc2) == qh;
                        lemma_count_opt_at(s0.new_value_by_cpu@, cc2);
                        assert(s0.arena.rc_of(qh) == s0.holders(qh));
                        assert(s0.arena.rc_of(qh) == 1);
                        assert(s0.holders(qh) >= 2);
                        assert(false);
                    }
                }
                assert(per_cpu_rc::slot_unchanged(s0.arena, self.arena, qh));
            }
            assert forall|c: int| 0 <= c < nn implies V::version_nat(
                (#[trigger] self.arena.value_of(self.live_h(c))).version,
            ) <= V::version_nat(self.version_spec()) by {
                assert(self.arena.value_of(self.live_h(c)) == s0.arena.value_of(s0.live_h(c)));
                assert(V::version_nat(s0.arena.value_of(s0.live_h(c)).version) <= V::version_nat(
                    s0.version_spec(),
                ));
            }
        }
        ver
    }

    /// Runs every deferred release queued for the CPU named in `rs`, in
    /// submission order: what that CPU's worker thread does while the
    /// container lives.
    ///
    /// Each release runs on the owning CPU, so none can be deferred again;
    /// the last holder of a cell frees it. What every CPU publishes is
    /// untouched: the worker only lets go of references readers left behind.
    pub fn run_worker(&mut self, rs: &rseq)
        requires
            old(self).wf(),
            (rs.cpu_id as int) < old(self).num_cpus_spec(),
        ensures
            final(self).wf(),
            final(self).num_cpus_spec() == old(self).num_cpus_spec(),
            final(self).version_spec() == old(self).version_spec(),
            final(self).deferred(rs.cpu_id as int) == 0,
            forall|c: int|
                0 <= c < old(self).num_cpus_spec() && c != rs.cpu_id as int ==> #[trigger] final(self).deferred(c) == old(self).deferred(c),
            forall|c: int|
                0 <= c < old(self).num_cpus_spec() ==> #[trigger] final(self).published(c) == old(self).published(c),
            forall|c: int|
                0 <= c < old(self).num_cpus_spec() ==> #[trigger] final(self).pending_at(c) == old(self).pending_at(c),
            final(self).stats_spec() == old(self).stats_spec(),
            final(self).allocations_spec() == old(self).allocations_spec(),
    {
        let cpu = rs.cpu_id as usize;
        let mut remaining = self.workers.queue_len(cpu);
        while remaining > 0
            invariant
                self.wf(),
                cpu == rs.cpu_id as usize,
                (cpu as int) < self.num_cpus_spec(),
                remaining == self.deferred(cpu as int),
                self.num_cpus_spec() == old(self).num_cpus_spec(),
                self.version == old(self).version,
                self.stats == old(self).stats,
                self.value_by_cpu@ == old(self).value_by_cpu@,
                self.new_value_by_cpu@ == old(self).new_value_by_cpu@,
                self.arena.num_slots() == old(self).arena.num_slots(),
                forall|c: int|
                    0 <= c < old(self).num_cpus_spec() && c != cpu as int
                        ==> #[trigger] self.workers.queue(c) == old(self).workers.queue(c),
                forall|c: int|
                    0 <= c < old(self).num_cpus_spec() ==> #[trigger] self.published(c) == old(self).published(c),
            decreases remaining,
        {
            let ghost spre = *self;
            let h = self.workers.pop_task(cpu);
            let ghost smid = *self;
            proof {
                let ci = cpu as int;
                lemma_queued_below_at(spre.workers, ci, 0, spre.workers.num_cpus());
                assert(spre.arena.live(h as int) && spre.arena.cpu_of(h as int) == ci);
                assert(spre.arena.rc_of(h as int) == spre.holders(h as int));
                lemma_count_in_drop_first(spre.workers.queue(ci), h as int);
            }
            per_cpu_rc::release_on_owner(&mut self.arena, rs, h);
            proof {
                let ci = cpu as int;
                let n = spre.num_cpus_spec();
                assert forall|hh: int|
                    #[trigger] self.arena.live(hh) && 0 <= hh < self.arena.num_slots() implies
                    self.arena.rc_of(hh) == self.holders(hh) && self.arena.rc_of(hh) >= 1 by {
                    lemma_count_in_drop_first(spre.workers.queue(ci), hh);
                    lemma_queued_below_one_queue(spre.workers, smid.workers, ci, hh, n);
                    if hh == h as int {
                        assert(per_cpu_rc::counted_down(spre.arena, self.arena, hh));
                        assert(spre.arena.rc_of(hh) > 1);
                        assert(self.holders(hh) == spre.holders(hh) - 1);
                    } else {
                        assert(per_cpu_rc::slot_unchanged(spre.arena, self.arena, hh));
                        assert(spre.arena.live(hh));
                        assert(spre.arena.rc_of(hh) == spre.holders(hh));
                        assert(self.holders(hh) == spre.holders(hh));
                    }
                }
                assert forall|cc: int| 0 <= cc < n implies self.arena.live(
                    #[trigger] self.live_h(cc),
                ) && self.arena.cpu_of(self.live_h(cc)) == cc && self.arena.value_of(
                    self.live_h(cc),
                ) == spre.arena.value_of(spre.live_h(cc)) by {
                    assert(self.live_h(cc) == spre.live_h(cc));
                    assert(spre.arena.live(spre.live_h(cc)));
                    if spre.live_h(cc) == h as int {
                        lemma_count_in_at(spre.value_by_cpu@, cc);
                        assert(spre.holders(h as int) >= 2);
                        assert(per_cpu_rc::counted_down(spre.arena, self.arena, h as int));
                    } else {
                        assert(per_cpu_rc::slot_unchanged(spre.arena, self.arena, spre.live_h(cc)));
                    }
                }
                assert forall|cc: int|
                    0 <= cc < n && self.pending_at(cc) is Some implies self.arena.live(
                    #[trigger] self.pending_h(cc),
                ) && self.arena.cpu_of(self.pending_h(cc)) == cc && self.arena.rc_of(
                    self.pending_h(cc),
                ) == 1 && self.arena.value_of(self.pending_h(cc)) == spre.arena.value_of(
                    spre.pending_h(cc),
                ) by {
                    assert(spre.pending_at(cc) is Some);
                    assert(self.pending_h(cc) == spre.pending_h(cc));
                    assert(spre.arena.live(spre.pending_h(cc)) && spre.arena.rc_of(
                        spre.pending_h(cc),
                    ) == 1);
                    if spre.pending_h(cc) == h as int {
                        lemma_count_opt_at(spre.new_value_by_cpu@, cc);
                        assert(spre.holders(h as int) >= 2);
                        assert(false);
                    }
                    assert(per_cpu_rc::slot_unchanged(spre.arena, self.arena, spre.pending_h(cc)));
                }
                assert forall|cc: int, i: int|
                    0 <= cc < n && 0 <= i < self.workers.queue(cc).len() implies self.arena.live(
                    #[trigger] self.workers.queue(cc)[i] as int,
                ) && self.arena.cpu_of(self.workers.queue(cc)[i] as int) == cc by {
                    let qh = self.workers.queue(cc)[i] as int;
                    if cc == ci {
                        assert(self.workers.queue(cc)[i] == spre.workers.queue(cc)[i + 1]);
                    } else {
                        assert(self.workers.queue(cc)[i] == spre.workers.queue(cc)[i]);
                    }
                    assert(spre.arena.live(qh));
                    if qh == h as int {
                        lemma_count_in_drop_first(spre.workers.queue(ci), qh);
                        lemma_queued_below_one_queue(spre.workers, smid.workers, ci, qh, n);
                        lemma_queued_below_at(smid.workers, cc, i, smid.workers.num_cpus());
                        assert(queued(smid.workers, qh) >= 1);
                        assert(spre.holders(qh) >= 2);
                        assert(per_cpu_rc::counted_down(spre.arena, self.arena, qh));
                    } else {
                        assert(per_cpu_rc::slot_unchanged(spre.arena, self.arena, qh));
                    }
                }
                assert forall|cc: int| 0 <= cc < n implies V::version_nat(
                    (#[trigger] self.arena.value_of(self.live_h(cc))).version,
                ) <= V::version_nat(self.version_spec()) by {
                    assert(self.arena.value_of(self.live_h(cc)) == spre.arena.value_of(
                        spre.live_h(cc),
                    ));
                }
                assert forall|cc: int|
                    0 <= cc < n && self.pending_at(cc) is Some implies (
                #[trigger] self.arena.value_of(self.pending_h(cc))).version
                    == self.version_spec() by {
                    assert(self.arena.value_of(self.pending_h(cc)) == spre.arena.value_of(
                        spre.pending_h(cc),
                    ));
                }
                assert forall|cc: int| 0 <= cc < n implies #[trigger] self.published(cc)
                    == spre.published(cc) by {
                    if self.pending_at(cc) is Some {
                        assert(self.arena.value_of(self.pending_h(cc)) == spre.arena.value_of(
                            spre.pending_h(cc),
                        ));
                    } else {
                        assert(self.arena.value_of(self.live_h(cc)) == spre.arena.value_of(
                            spre.live_h(cc),
                        ));
                    }
                }
            }
            remaining = remaining - 1;
        }
    }

    /// Tears the container down: releases every live slot's reference and
    /// frees every unconsumed pending cell.
    ///
    /// Releases for cells owned by other CPUs are deferred to their workers,
    /// as any release is; the returned arena and workers carry exactly those
    /// outstanding releases. Once each worker has drained its queue, every
    /// allocation has met its deallocation.
    pub fn teardown(self, rs: &rseq) -> (r: (PcrArena<Versioned<V, T>>, CpuWorkers, Stats))
        requires
            self.wf(),
            (rs.cpu_id as int) < self.num_cpus_spec(),
        ensures
            residue_wf(r.0, r.1),
            r.1.num_cpus() == self.num_cpus_spec(),
            r.0.num_slots() == self.allocations_spec(),
    {
        let ghost s0 = self;
        let Inner { version: _, value_by_cpu, new_value_by_cpu, mut arena, mut workers, mut stats } =
            self;
        let n = value_by_cpu.len();
        proof {
            assert(value_by_cpu@.skip(0) =~= value_by_cpu@);
            assert forall|h: int|
                #[trigger] arena.live(h) && 0 <= h < arena.num_slots() implies arena.rc_of(h)
                == count_in(value_by_cpu@.skip(0), h) + count_opt(new_value_by_cpu@, h) + queued(
                workers,
                h,
            ) && arena.rc_of(h) >= 1 by {
                assert(s0.arena.rc_of(h) == s0.holders(h));
            }
            assert forall|k: int| 0 <= k < n implies arena.live(#[trigger] value_by_cpu@[k] as int)
                && arena.cpu_of(value_by_cpu@[k] as int) == k by {
                assert(s0.live_h(k) == value_by_cpu@[k] as int);
                assert(s0.arena.live(s0.live_h(k)) && s0.arena.cpu_of(s0.live_h(k)) == k);
            }
            assert forall|k: int|
                0 <= k < n && new_value_by_cpu@[k] is Some implies arena.live(
                #[trigger] new_value_by_cpu@[k]->Some_0 as int,
            ) && arena.rc_of(new_value_by_cpu@[k]->Some_0 as int) == 1 by {
                assert(s0.pending_at(k) is Some);
                assert(s0.pending_h(k) == new_value_by_cpu@[k]->Some_0 as int);
                assert(s0.arena.live(s0.pending_h(k)) && s0.arena.rc_of(s0.pending_h(k)) == 1);
            }
            assert forall|cc: int, i: int|
                0 <= cc < n && 0 <= i < workers.queue(cc).len() implies arena.live(
                #[trigger] workers.queue(cc)[i] as int,
            ) && arena.cpu_of(workers.queue(cc)[i] as int) == cc by {
                assert(s0.workers.queue(cc)[i] == workers.queue(cc)[i]);
                assert(s0.arena.live(s0.workers.queue(cc)[i] as int));
            }
        }
        // Release the reference each live slot holds.
        let mut c: usize = 0;
        while c < n
            invariant
                c <= n,
                n == s0.num_cpus_spec(),
                value_by_cpu@ == s0.value_by_cpu@,
                new_value_by_cpu@ == s0.new_value_by_cpu@,
                new_value_by_cpu@.len() == n,
                arena.inv(),
                workers.inv(),
                workers.num_cpus() == n,
                arena.num_slots() == s0.allocations_spec(),
                forall|k: int|
                    c <= k < n ==> arena.live(#[trigger] value_by_cpu@[k] as int) && arena.cpu_of(
                        value_by_cpu@[k] as int,
                    ) == k,
                forall|k: int|
                    0 <= k < n && new_value_by_cpu@[k] is Some ==> arena.live(
                        #[trigger] new_value_by_cpu@[k]->Some_0 as int,
                    ) && arena.rc_of(new_value_by_cpu@[k]->Some_0 as int) == 1,
                forall|cc: int, i: int|
                    0 <= cc < n && 0 <= i < workers.queue(cc).len() ==> arena.live(
                        #[trigger] workers.queue(cc)[i] as int,
                    ) && arena.cpu_of(workers.queue(cc)[i] as int) == cc,
                forall|h: int|
                    #[trigger] arena.live(h) && 0 <= h < arena.num_slots() ==> arena.rc_of(h)
                        == count_in(value_by_cpu@.skip(c as int), h) + count_opt(
                        new_value_by_cpu@,
                        h,
                    ) + queued(workers, h) && arena.rc_of(h) >= 1,
            decreases n - c,
        {
            let h = value_by_cpu[c];
            let ghost apre = arena;
            let ghost wpre = workers;
            let _st = per_cpu_rc::release(&mut arena, &mut workers, &mut stats, rs, h);
            proof {
                let ci = c as int;
                let vb = value_by_cpu@;
                assert(vb.skip(ci).drop_first() =~= vb.skip(ci + 1));
                assert(vb.skip(ci).first() == vb[ci]);
                assert forall|hh: int|
                    #[trigger] arena.live(hh) && 0 <= hh < arena.num_slots() implies arena.rc_of(
                    hh,
                ) == count_in(vb.skip(ci + 1), hh) + count_opt(new_value_by_cpu@, hh) + queued(
                    workers,
                    hh,
                ) && arena.rc_of(hh) >= 1 by {
                    lemma_count_in_drop_first(vb.skip(ci), hh);
                    if rs.cpu_id as int == ci {
                        if hh == h as int {
                            assert(per_cpu_rc::counted_down(apre, arena, hh));
                        } else {
                            assert(per_cpu_rc::slot_unchanged(apre, arena, hh));
                            assert(apre.rc_of(hh) == count_in(vb.skip(ci), hh) + count_opt(
                                new_value_by_cpu@,
                                hh,
                            ) + queued(wpre, hh));
                        }
                    } else {
                        lemma_count_in_push(wpre.queue(ci), h, hh);
                        lemma_queued_below_one_queue(wpre, workers, ci, hh, n as int);
                        if hh == h as int {
                            assert(per_cpu_rc::slot_unchanged(apre, arena, hh));
                            assert(queued(workers, hh) == queued(wpre, hh) + 1);
                        } else {
                            assert(per_cpu_rc::slot_unchanged(apre, arena, hh));
                            assert(queued(workers, hh) == queued(wpre, hh));
                        }
                    }
                }
                assert forall|k: int|
                    ci + 1 <= k < n implies arena.live(#[trigger] vb[k] as int) && arena.cpu_of(
                    vb[k] as int,
                ) == k by {
                    assert(apre.cpu_of(vb[k] as int) == k);
                    assert(apre.cpu_of(h as int) == ci);
                    assert(per_cpu_rc::slot_unchanged(apre, arena, vb[k] as int));
                }
                assert forall|k: int|
                    0 <= k < n && new_value_by_cpu@[k] is Some implies arena.live(
                    #[trigger] new_value_by_cpu@[k]->Some_0 as int,
                ) && arena.rc_of(new_value_by_cpu@[k]->Some_0 as int) == 1 by {
                    let p = new_value_by_cpu@[k]->Some_0 as int;
                    lemma_count_opt_at(new_value_by_cpu@, k);
                    assert(apre.rc_of(p) == 1);
                    if p == h as int {
                        lemma_count_in_drop_first(vb.skip(ci), p);
                        assert(count_in(vb.skip(ci), p) >= 1);
                        assert(false);
                    }
                    assert(per_cpu_rc::slot_unchanged(apre, arena, p));
                }
                assert forall|cc: int, i: int|
                    0 <= cc < n && 0 <= i < workers.queue(cc).len() implies arena.live(
                    #[trigger] workers.queue(cc)[i] as int,
                ) && arena.cpu_of(workers.queue(cc)[i] as int) == cc by {
                    let qh = workers.queue(cc)[i] as int;
                    if rs.cpu_id as int != ci && cc == ci && i == workers.queue(cc).len() - 1 {
                        assert(qh == h as int);
                        assert(per_cpu_rc::slot_unchanged(apre, arena, qh));
                    } else {
                        assert(workers.queue(cc)[i] == wpre.queue(cc)[i]);
                        lemma_queued_below_at(wpre, cc, i, n as int);
                        assert(apre.live(qh));
                        if qh == h as int {
                            if rs.cpu_id as int == ci {
                                assert(apre.rc_of(qh) >= 1 + 1) by {
                                    lemma_count_in_drop_first(vb.skip(ci), qh);
                                    assert(count_in(vb.skip(ci), qh) >= 1);
                                }
                                assert(per_cpu_rc::counted_down(apre, arena, qh));
                            } else {
                                assert(per_cpu_rc::slot_unchanged(apre, arena, qh));
                            }
                        } else {
                            assert(per_cpu_rc::slot_unchanged(apre, arena, qh));
                        }
                    }
                }
            }
            c = c + 1;
        }
        proof {
            assert(value_by_cpu@.skip(n as int) =~= Seq::<usize>::empty());
            assert(new_value_by_cpu@.skip(0) =~= new_value_by_cpu@);
            assert forall|h: int|
                #[trigger] arena.live(h) && 0 <= h < arena.num_slots() implies arena.rc_of(h)
                == count_opt(new_value_by_cpu@.skip(0), h) + queued(workers, h) by {
                assert(count_in(value_by_cpu@.skip(n as int), h) == 0);
            }
        }
        // Free the pending cells no reader ever consumed.
        let mut c2: usize = 0;
        while c2 < n
            invariant
                c2 <= n,
                n == s0.num_cpus_spec(),
                new_value_by_cpu@.len() == n,
                arena.inv(),
                workers.inv(),
                workers.num_cpus() == n,
                arena.num_slots() == s0.allocations_spec(),
                forall|k: int|
                    c2 <= k < n && new_value_by_cpu@[k] is Some ==> arena.live(
                        #[trigger] new_value_by_cpu@[k]->Some_0 as int,
                    ) && arena.rc_of(new_value_by_cpu@[k]->Some_0 as int) == 1,
                forall|cc: int, i: int|
                    0 <= cc < n && 0 <= i < workers.queue(cc).len() ==> arena.live(
                        #[trigger] workers.queue(cc)[i] as int,
                    ) && arena.cpu_of(workers.queue(cc)[i] as int) == cc,
                forall|h: int|
                    #[trigger] arena.live(h) && 0 <= h < arena.num_slots() ==> arena.rc_of(h)
                        == count_opt(new_value_by_cpu@.skip(c2 as int), h) + queued(workers, h)
                        && arena.rc_of(h) >= 1,
            decreases n - c2,
        {
            let prev = new_value_by_cpu[c2];
            let ghost apre = arena;
            proof {
                let ci = c2 as int;
                let nv = new_value_by_cpu@;
                assert(nv.skip(ci).drop_first() =~= nv.skip(ci + 1));
                assert(nv.skip(ci).first() == nv[ci]);
            }
            match prev {
                Some(p) => {
                    per_cpu_rc::dealloc(&mut arena, p);
                },
                None => {},
            }
            proof {
                let ci = c2 as int;
                let nv = new_value_by_cpu@;
                assert forall|hh: int|
                    #[trigger] arena.live(hh) && 0 <= hh < arena.num_slots() implies arena.rc_of(
                    hh,
                ) == count_opt(nv.skip(ci + 1), hh) + queued(workers, hh) && arena.rc_of(hh)
                    >= 1 by {
                    lemma_count_opt_drop_first(nv.skip(ci), hh);
                    if prev is Some && hh == nv[ci]->Some_0 as int {
                        assert(!arena.live(hh));
                        assert(false);
                    } else {
                        if prev is Some {
                            assert(per_cpu_rc::slot_unchanged(apre, arena, hh));
                        }
                        assert(apre.live(hh));
                        assert(apre.rc_of(hh) == count_opt(nv.skip(ci), hh) + queued(workers, hh));
                    }
                }
                assert forall|k: int|
                    ci + 1 <= k < n && nv[k] is Some implies arena.live(
                    #[trigger] nv[k]->Some_0 as int,
                ) && arena.rc_of(nv[k]->Some_0 as int) == 1 by {
                    let pk = nv[k]->Some_0 as int;
                    if prev is Some && pk == nv[ci]->Some_0 as int {
                        lemma_count_opt_drop_first(nv.skip(ci), pk);
                        lemma_count_opt_at(nv.skip(ci + 1), k - ci - 1);
                        assert(apre.rc_of(pk) >= 2);
                        assert(false);
                    }
                    if prev is Some {
                        assert(per_cpu_rc::slot_unchanged(apre, arena, pk));
                    }
                }
                assert forall|cc: int, i: int|
                    0 <= cc < n && 0 <= i < workers.queue(cc).len() implies arena.live(
                    #[trigger] workers.queue(cc)[i] as int,
                ) && arena.cpu_of(workers.queue(cc)[i] as int) == cc by {
                    let qh = workers.queue(cc)[i] as int;
                    if prev is Some && qh == nv[ci]->Some_0 as int {
                        lemma_count_opt_drop_first(nv.skip(ci), qh);
                        lemma_queued_below_at(workers, cc, i, n as int);
                        assert(apre.rc_of(qh) >= 2);
                        assert(false);
                    }
                    if prev is Some {
                        assert(per_cpu_rc::slot_unchanged(apre, arena, qh));
                    }
                }
            }
            c2 = c2 + 1;
        }
        proof {
            assert(new_value_by_cpu@.skip(n as int) =~= Seq::<Option<usize>>::empty());
        }
        (arena, workers, stats)
    }

    /// Copies the value the reader's CPU currently serves.
    ///
    /// `rs` is the thread's kernel record when the read starts; `rs_after` is
    /// the same record when the transient reference is dropped. The two name
    /// different CPUs only if the thread migrated during the read; the release
    /// is then deferred to the owning CPU's worker and counted.
    ///
    /// The read first consumes its CPU's pending cell, so it returns the
    /// published value: the latest write this CPU was handed. Reads never
    /// change which value is published anywhere.
    pub fn get(&mut self, rs: &rseq, rs_after: &rseq) -> (r: Versioned<V, T>)
        requires
            old(self).wf(),
            (rs.cpu_id as int) < old(self).num_cpus_spec(),
            (rs_after.cpu_id as int) < old(self).num_cpus_spec(),
            old(self).read_headroom(rs.cpu_id as int),
        ensures
            final(self).wf(),
            final(self).num_cpus_spec() == old(self).num_cpus_spec(),
            final(self).version_spec() == old(self).version_spec(),
            r.version == old(self).published(rs.cpu_id as int).version,
            cloned::<T>(old(self).published(rs.cpu_id as int).value, r.value),
            forall|c: int|
                0 <= c < old(self).num_cpus_spec() ==> #[trigger] final(self).published(c) == old(self).published(c),
            final(self).pending_at(rs.cpu_id as int) is None,
            forall|c: int|
                0 <= c < old(self).num_cpus_spec() && c != rs.cpu_id as int ==> final(self).pending_at(c) == old(self).pending_at(c),
            rs_after.cpu_id == rs.cpu_id ==> final(self).read_headroom(rs.cpu_id as int),
            final(self).allocations_spec() == old(self).allocations_spec(),
            final(self).deallocations_spec() == old(self).deallocations_spec() + (
            if old(self).pending_at(rs.cpu_id as int) is Some && old(self).live_rc(
                rs.cpu_id as int,
            ) == 1 {
                1int
            } else {
                0int
            }),
            // Same CPU throughout the read: nothing is deferred or counted.
            rs_after.cpu_id == rs.cpu_id ==> final(self).stats_spec() == old(self).stats_spec()
                && (forall|c: int|
                0 <= c < old(self).num_cpus_spec() ==> #[trigger] final(self).deferred(c) == old(self).deferred(c)),
            // Migrated mid-read: one release was deferred to this CPU's
            // worker and the off-CPU counter records it.
            rs_after.cpu_id != rs.cpu_id ==> final(self).stats_spec().num_off_cpu_release == old(self).stats_spec().num_off_cpu_release.wrapping_add(1) && final(self).deferred(
                rs.cpu_id as int,
            ) == old(self).deferred(rs.cpu_id as int) + 1 && (forall|c: int|
                0 <= c < old(self).num_cpus_spec() && c != rs.cpu_id as int ==> #[trigger] final(self).deferred(c) == old(self).deferred(c)),
    {
        self.maybe_update(rs);
        let ghost s1 = *self;
        proof {
            let c = rs.cpu_id as int;
            assert(s1.arena.live(s1.live_h(c)) && s1.arena.cpu_of(s1.live_h(c)) == c);
            assert(s1.arena.rc_of(s1.live_h(c)) == s1.holders(s1.live_h(c)));
            assert(s1.arena.rc_of(s1.live_h(c)) >= 1);
        }
        let h = per_cpu_rc::acquire(&mut self.arena, &self.value_by_cpu, rs);
        let ghost s2 = *self;
        let r = {
            let payload = per_cpu_rc::value_ref(&self.arena, h);
            payload.clone()
        };
        proof {
            let c = rs.cpu_id as int;
            assert(s2.arena.value_of(h as int) == s1.arena.value_of(h as int));
            assert(s1.published(c) == old(self).published(c));
            assert(s1.pending_at(c) is None);
            assert(s1.published(c) == s1.arena.value_of(s1.live_h(c)));
            assert(s2.arena.value_of(h as int) == old(self).published(c));
        }
        let _st = per_cpu_rc::release(
            &mut self.arena,
            &mut self.workers,
            &mut self.stats,
            rs_after,
            h,
        );
        proof {
            let c = rs.cpu_id as int;
            let n = s1.num_cpus_spec();
            assert(h as int == s1.live_h(c));
            assert(s1.arena.cpu_of(h as int) == c);
            // After the acquire the count is one above the holders; the
            // release either brings it back or records the extra holder in
            // the owner's queue.
            if rs_after.cpu_id == rs.cpu_id {
                assert(per_cpu_rc::counted_down(s2.arena, self.arena, h as int));
                assert(self.workers == s1.workers);
                assert forall|hh: int|
                    #[trigger] self.arena.live(hh) && 0 <= hh < self.arena.num_slots() implies
                    self.arena.rc_of(hh) == self.holders(hh) && self.arena.rc_of(hh) >= 1 by {
                    if hh == h as int {
                        assert(self.holders(hh) == s1.holders(hh));
                    } else {
                        assert(per_cpu_rc::slot_unchanged(s2.arena, self.arena, hh));
                        assert(per_cpu_rc::slot_unchanged(s1.arena, s2.arena, hh));
                        assert(s1.arena.live(hh));
                        assert(s1.arena.rc_of(hh) == s1.holders(hh));
                        assert(self.holders(hh) == s1.holders(hh));
                    }
                }
            } else {
                assert(per_cpu_rc::slot_unchanged(s2.arena, self.arena, h as int));
                assert(per_cpu_rc::deferred_to_owner(s1.workers, self.workers, c, h as int));
                assert forall|hh: int|
                    #[trigger] self.arena.live(hh) && 0 <= hh < self.arena.num_slots() implies
                    self.arena.rc_of(hh) == self.holders(hh) && self.arena.rc_of(hh) >= 1 by {
                    lemma_count_in_push(s1.workers.queue(c), h, hh);
                    lemma_queued_below_one_queue(
                        s1.workers,
                        self.workers,
                        c,
                        hh,
                        s1.workers.num_cpus(),
                    );
                    if hh == h as int {
                        assert(queued(self.workers, hh) == queued(s1.workers, hh) + 1);
                        assert(self.holders(hh) == s1.holders(hh) + 1);
                    } else {
                        assert(per_cpu_rc::slot_unchanged(s2.arena, self.arena, hh));
                        assert(per_cpu_rc::slot_unchanged(s1.arena, s2.arena, hh));
                        assert(s1.arena.live(hh));
                        assert(s1.arena.rc_of(hh) == s1.holders(hh));
                        assert(queued(self.workers, hh) == queued(s1.workers, hh));
                        assert(self.holders(hh) == s1.holders(hh));
                    }
                }
            }
            // Slots and versions: every slot handle other than the acquired
            // one is untouched; the acquired one only moved its count.
            assert forall|cc: int| 0 <= cc < n implies self.arena.live(#[trigger] self.live_h(cc))
                && self.arena.cpu_of(self.live_h(cc)) == cc by {
                assert(self.live_h(cc) == s1.live_h(cc));
                assert(s1.arena.live(s1.live_h(cc)) && s1.arena.cpu_of(s1.live_h(cc)) == cc);
                if self.live_h(cc) != h as int {
                    assert(per_cpu_rc::slot_unchanged(s2.arena, self.arena, self.live_h(cc)));
                    assert(per_cpu_rc::slot_unchanged(s1.arena, s2.arena, self.live_h(cc)));
                }
            }
            assert forall|cc: int|
                0 <= cc < n && self.pending_at(cc) is Some implies self.arena.live(
                #[trigger] self.pending_h(cc),
            ) && self.arena.cpu_of(self.pending_h(cc)) == cc && self.arena.rc_of(self.pending_h(cc))
                == 1 by {
                assert(s1.pending_at(cc) is Some);
                assert(self.pending_h(cc) == s1.pending_h(cc));
                lemma_pending_not_live(s1, cc, c);
                assert(per_cpu_rc::slot_unchanged(s2.arena, self.arena, self.pending_h(cc)));
                assert(per_cpu_rc::slot_unchanged(s1.arena, s2.arena, self.pending_h(cc)));
            }
            assert forall|cc: int, i: int|
                0 <= cc < n && 0 <= i < self.workers.queue(cc).len() implies self.arena.live(
                #[trigger] self.workers.queue(cc)[i] as int,
            ) && self.arena.cpu_of(self.workers.queue(cc)[i] as int) == cc by {
                let qh = self.workers.queue(cc)[i] as int;
                if rs_after.cpu_id != rs.cpu_id && cc == c && i == self.workers.queue(cc).len()
                    - 1 {
                    assert(qh == h as int);
                } else {
                    assert(s1.workers.queue(cc)[i] == self.workers.queue(cc)[i]);
                    lemma_queued_below_at(s1.workers, cc, i, s1.workers.num_cpus());
                    if qh != h as int {
                        assert(per_cpu_rc::slot_unchanged(s2.arena, self.arena, qh));
                        assert(per_cpu_rc::slot_unchanged(s1.arena, s2.arena, qh));
                    }
                }
            }
            assert forall|cc: int| 0 <= cc < n implies V::version_nat(
                (#[trigger] self.arena.value_of(self.live_h(cc))).version,
            ) <= V::version_nat(self.version_spec()) by {
                assert(self.live_h(cc) == s1.live_h(cc));
                assert(s1.arena.live(s1.live_h(cc)));
                if self.live_h(cc) != h as int {
                    assert(per_cpu_rc::slot_unchanged(s2.arena, self.arena, self.live_h(cc)));
                    assert(per_cpu_rc::slot_unchanged(s1.arena, s2.arena, self.live_h(cc)));
                } else {
                    assert(self.arena.value_of(h as int) == s1.arena.value_of(h as int));
                }
            }
            assert forall|cc: int|
                0 <= cc < n && self.pending_at(cc) is Some implies (#[trigger] self.arena.value_of(
                self.pending_h(cc),
            )).version == self.version_spec() by {
                assert(s1.pending_at(cc) is Some);
                assert(self.pending_h(cc) == s1.pending_h(cc));
                assert(s1.arena.live(s1.pending_h(cc)));
                assert((s1.arena.value_of(s1.pending_h(cc))).version == s1.version_spec());
                lemma_pending_not_live(s1, cc, c);
                assert(per_cpu_rc::slot_unchanged(s2.arena, self.arena, self.pending_h(cc)));
                assert(per_cpu_rc::slot_unchanged(s1.arena, s2.arena, self.pending_h(cc)));
            }
            // Published payloads rest: the read only moved a pending cell
            // into its own live slot and touched counts.
            assert forall|cc: int| 0 <= cc < n implies #[trigger] self.published(cc)
                == s1.published(cc) by {
                if self.pending_at(cc) is Some {
                    assert(s1.pending_at(cc) is Some);
                    assert(self.pending_h(cc) == s1.pending_h(cc));
                    assert(s1.arena.live(s1.pending_h(cc)));
                    lemma_pending_not_live(s1, cc, c);
                    assert(per_cpu_rc::slot_unchanged(s2.arena, self.arena, self.pending_h(cc)));
                    assert(per_cpu_rc::slot_unchanged(s1.arena, s2.arena, self.pending_h(cc)));
                } else {
                    if self.live_h(cc) == h as int {
                        assert(self.arena.value_of(h as int) == s1.arena.value_of(h as int));
                    } else {
                        assert(per_cpu_rc::slot_unchanged(s2.arena, self.arena, self.live_h(cc)));
                        assert(per_cpu_rc::slot_unchanged(s1.arena, s2.arena, self.live_h(cc)));
                    }
                }
            }
        }
        r
    }
}

/// Whether `h` is an old pending handle of one of the CPUs below `up_to`:
/// a cell a newer write shadows and frees.
spec fn shadowed<V: Versioning, T: Clone>(s: Inner<V, T>, h: int, up_to: int) -> bool {
    exists|c: int| 0 <= c < up_to && (#[trigger] s.pending_at(c)) is Some && s.pending_h(c) == h
}

/// A pending cell is nobody's live cell: it has exactly one holder, its
/// pending slot.
proof fn lemma_pending_not_live<V: Versioning, T: Clone>(s: Inner<V, T>, cc: int, c: int)
    requires
        s.wf(),
        0 <= cc < s.num_cpus_spec(),
        0 <= c < s.num_cpus_spec(),
        s.pending_at(cc) is Some,
    ensures
        s.pending_h(cc) != s.live_h(c),
{
    assert(s.arena.live(s.pending_h(cc)) && s.arena.rc_of(s.pending_h(cc)) == 1);
    assert(s.arena.live(s.live_h(c)));
    if s.pending_h(cc) == s.live_h(c) {
        lemma_count_in_at(s.value_by_cpu@, c);
        lemma_count_opt_at(s.new_value_by_cpu@, cc);
        assert(s.holders(s.pending_h(cc)) >= 2);
        assert(s.arena.rc_of(s.pending_h(cc)) == s.holders(s.pending_h(cc)));
        assert(false);
    }
}

/// What remains of a container after its slots are torn down: an arena and
/// the per-CPU workers, where the only holders left are queued deferred
/// releases, each waiting on its owning CPU's worker.
pub open(crate) spec fn residue_wf<X>(arena: PcrArena<X>, workers: CpuWorkers) -> bool {
    &&& arena.inv()
    &&& workers.inv()
    &&& forall|c: int, i: int|
        0 <= c < workers.num_cpus() && 0 <= i < workers.queue(c).len() ==> arena.live(
            #[trigger] workers.queue(c)[i] as int,
        ) && arena.cpu_of(workers.queue(c)[i] as int) == c
    &&& forall|h: int|
        #[trigger] arena.live(h) && 0 <= h < arena.num_slots() ==> arena.rc_of(h) == queued(
            workers,
            h,
        ) && arena.rc_of(h) >= 1
}

/// Runs every deferred release queued for the CPU named in `rs`, in
/// submission order: what that CPU's worker thread does.
///
/// Each release runs on the cell's owning CPU, so none can be deferred again;
/// the last holder of a cell frees it.
pub fn drain_worker<X>(arena: &mut PcrArena<X>, workers: &mut CpuWorkers, rs: &rseq)
    requires
        residue_wf(*old(arena), *old(workers)),
        (rs.cpu_id as int) < old(workers).num_cpus(),
    ensures
        residue_wf(*final(arena), *final(workers)),
        final(workers).num_cpus() == old(workers).num_cpus(),
        final(workers).queue(rs.cpu_id as int).len() == 0,
        forall|c: int|
            0 <= c < old(workers).num_cpus() && c != rs.cpu_id as int ==> final(workers).queue(c)
                == old(workers).queue(c),
        final(arena).num_slots() == old(arena).num_slots(),
{
    let cpu = rs.cpu_id as usize;
    let mut remaining = workers.queue_len(cpu);
    while remaining > 0
        invariant
            residue_wf(*arena, *workers),
            (cpu as int) < workers.num_cpus(),
            cpu == rs.cpu_id as usize,
            remaining == workers.queue(cpu as int).len(),
            workers.num_cpus() == old(workers).num_cpus(),
            forall|c: int|
                0 <= c < old(workers).num_cpus() && c != cpu as int ==> workers.queue(c) == old(workers).queue(c),
            arena.num_slots() == old(arena).num_slots(),
        decreases remaining,
    {
        let ghost wpre = *workers;
        let ghost apre = *arena;
        let h = workers.pop_task(cpu);
        let ghost wmid = *workers;
        proof {
            let ci = cpu as int;
            lemma_queued_below_at(wpre, ci, 0, wpre.num_cpus());
            assert(apre.live(h as int) && apre.cpu_of(h as int) == ci);
            assert(apre.rc_of(h as int) == queued(wpre, h as int));
        }
        per_cpu_rc::release_on_owner(arena, rs, h);
        proof {
            let ci = cpu as int;
            assert forall|hh: int|
                #[trigger] arena.live(hh) && 0 <= hh < arena.num_slots() implies arena.rc_of(hh)
                == queued(*workers, hh) && arena.rc_of(hh) >= 1 by {
                lemma_count_in_drop_first(wpre.queue(ci), hh);
                lemma_queued_below_one_queue(wpre, wmid, ci, hh, wpre.num_cpus());
                if hh == h as int {
                    assert(queued(wmid, hh) == queued(wpre, hh) - 1);
                    assert(per_cpu_rc::counted_down(apre, *arena, hh));
                    assert(apre.rc_of(hh) > 1);
                } else {
                    assert(per_cpu_rc::slot_unchanged(apre, *arena, hh));
                    assert(apre.live(hh));
                    assert(queued(wmid, hh) == queued(wpre, hh));
                }
            }
            assert forall|cc: int, i: int|
                0 <= cc < workers.num_cpus() && 0 <= i < workers.queue(cc).len() implies
                arena.live(#[trigger] workers.queue(cc)[i] as int) && arena.cpu_of(
                workers.queue(cc)[i] as int,
            ) == cc by {
                let qh = workers.queue(cc)[i] as int;
                if cc == ci {
                    assert(workers.queue(cc)[i] == wpre.queue(cc)[i + 1]);
                } else {
                    assert(workers.queue(cc)[i] == wpre.queue(cc)[i]);
                }
                assert(apre.live(qh));
                if qh == h as int {
                    lemma_count_in_drop_first(wpre.queue(ci), qh);
                    lemma_queued_below_one_queue(wpre, wmid, ci, qh, wpre.num_cpus());
                    lemma_queued_below_at(wmid, cc, i, wmid.num_cpus());
                    assert(queued(wmid, qh) >= 1);
                    assert(apre.rc_of(qh) >= 2);
                    assert(per_cpu_rc::counted_down(apre, *arena, qh));
                } else {
                    assert(per_cpu_rc::slot_unchanged(apre, *arena, qh));
                }
            }
        }
        remaining = remaining - 1;
    }
}

/// No cell is touched after it was freed: in a well-formed container, every
/// cell a slot or a queue can hand a reader or a worker is allocated and has
/// a positive count, so every access the operations make is to an allocated
/// cell.
pub proof fn lemma_no_use_after_free<V: Versioning, T: Clone>(s: Inner<V, T>, c: int, i: int)
    requires
        s.wf(),
        0 <= c < s.num_cpus_spec(),
    ensures
        s.arena_of().live(s.live_h(c)) && s.arena_of().rc_of(s.live_h(c)) >= 1,
        s.pending_at(c) is Some ==> s.arena_of().live(s.pending_h(c)) && s.arena_of().rc_of(
            s.pending_h(c),
        ) >= 1,
        0 <= i < s.workers_of().queue(c).len() ==> s.arena_of().live(
            s.workers_of().queue(c)[i] as int,
        ),
{
    assert(s.arena.live(s.live_h(c)));
    if s.pending_at(c) is Some {
        assert(s.arena.live(s.pending_h(c)));
    }
}

/// Conservation of references: once the container is torn down and every
/// worker has drained its queue, the number of cells ever allocated equals
/// the number freed — nothing leaks and nothing is freed twice.
pub proof fn lemma_rc_conservation<X>(arena: PcrArena<X>, workers: CpuWorkers)
    requires
        residue_wf(arena, workers),
        forall|c: int| 0 <= c < workers.num_cpus() ==> #[trigger] workers.queue(c).len() == 0,
    ensures
        arena.deallocations_spec() == arena.num_slots(),
{
    assert forall|h: int| 0 <= h < arena.num_slots() implies !arena.live(h) by {
        if arena.live(h) {
            lemma_queued_below_zero(workers, h, workers.num_cpus());
            assert(arena.rc_of(h) == queued(workers, h));
            assert(false);
        }
    }
    per_cpu_rc::lemma_balanced(arena);
}

/// What a CPU publishes is never newer than the published version.
pub proof fn lemma_published_version_bounded<V: Versioning, T: Clone>(s: Inner<V, T>, c: int)
    requires
        s.wf(),
        0 <= c < s.num_cpus_spec(),
    ensures
        V::version_nat(s.published(c).version) <= V::version_nat(s.version_spec()),
{
    if s.pending_at(c) is Some {
        assert(s.arena.value_of(s.pending_h(c)).version == s.version_spec());
    } else {
        assert(V::version_nat(s.arena.value_of(s.live_h(c)).version) <= V::version_nat(
            s.version_spec(),
        ));
    }
}

/// A value derived from `a` by at most two clone steps.
pub open spec fn twice_cloned<T: Clone>(a: T, b: T) -> bool {
    exists|m: T| #[trigger] cloned::<T>(a, m) && cloned::<T>(m, b)
}

/// Eventual consistency: a write deposits its value, under its version, in
/// every CPU's pending slot, so it is the published value everywhere; a read
/// returns its CPU's published value and — because reads move a pending cell
/// only into the live slot — never changes what is published anywhere. So
/// once a write completes and no further write intervenes, every read on any
/// CPU returns that write's value (as a clone of the clone the write stored),
/// stamped with that write's version, for good.
pub proof fn lemma_eventual_consistency<V: Versioning, T: Clone>(
    s: Inner<V, T>,
    v: T,
    ver: V::Version,
    c: int,
    r: Versioned<V, T>,
)
    requires
        s.wf(),
        0 <= c < s.num_cpus_spec(),
        // What a write of `v` under `ver` leaves behind, per its contract.
        forall|k: int| 0 <= k < s.num_cpus_spec() ==> (#[trigger] s.published(k)).version == ver,
        forall|k: int|
            0 <= k < s.num_cpus_spec() ==> cloned::<T>(v, (#[trigger] s.published(k)).value),
        // What a read on CPU `c` returns, per its contract.
        r.version == s.published(c).version,
        cloned::<T>(s.published(c).value, r.value),
    ensures
        r.version == ver,
        twice_cloned(v, r.value),
{
    assert(cloned::<T>(v, s.published(c).value) && cloned::<T>(s.published(c).value, r.value));
}

/// Convergence is stable: reads preserve what every CPU publishes, so a
/// state in which every CPU publishes a write's value under its version keeps
/// publishing it across any number of reads — convergence, once reached,
/// lasts until the next write.
pub proof fn lemma_convergence_is_stable<V: Versioning, T: Clone>(
    s: Inner<V, T>,
    s2: Inner<V, T>,
    v: T,
    ver: V::Version,
)
    requires
        s2.num_cpus_spec() == s.num_cpus_spec(),
        // The converged state a write left behind, per its contract.
        forall|k: int| 0 <= k < s.num_cpus_spec() ==> (#[trigger] s.published(k)).version == ver,
        forall|k: int|
            0 <= k < s.num_cpus_spec() ==> cloned::<T>(v, (#[trigger] s.published(k)).value),
        // What any read guarantees of the state it leaves behind.
        forall|k: int| 0 <= k < s.num_cpus_spec() ==> #[trigger] s2.published(k) == s.published(k),
    ensures
        forall|k: int| 0 <= k < s2.num_cpus_spec() ==> (#[trigger] s2.published(k)).version == ver,
        forall|k: int|
            0 <= k < s2.num_cpus_spec() ==> cloned::<T>(v, (#[trigger] s2.published(k)).value),
{
}

/// Writer serialization: writers are admitted one at a time, so two writes
/// from a fresh container — in whichever order the lock admits them — leave
/// the version at exactly two, and the value of the later write published on
/// every CPU.
pub proof fn lemma_writer_serialization<T: Clone>(
    s0: Inner<VersioningU64, T>,
    s1: Inner<VersioningU64, T>,
    s2: Inner<VersioningU64, T>,
    second: T,
    ver1: u64,
    ver2: u64,
    c: int,
)
    requires
        s0.wf(),
        s0.version_spec() == 0,
        0 <= c < s2.num_cpus_spec(),
        // The first write's contract: it bumped the version once.
        ver1 == VersioningU64::inc_spec(s0.version_spec()),
        s1.version_spec() == ver1,
        // The second write's contract: it bumped the version once more and
        // published its value everywhere.
        ver2 == VersioningU64::inc_spec(s1.version_spec()),
        s2.version_spec() == ver2,
        forall|k: int| 0 <= k < s2.num_cpus_spec() ==> (#[trigger] s2.published(k)).version == ver2,
        forall|k: int|
            0 <= k < s2.num_cpus_spec() ==> cloned::<T>(second, (#[trigger] s2.published(k)).value),
    ensures
        ver2 == 2,
        s2.published(c).version == 2,
        cloned::<T>(second, s2.published(c).value),
{
}

/// A sequence holding `h` exactly once counts it once.
proof fn lemma_count_in_one(s: Seq<usize>, h: int)
    requires
        exists|j: int| 0 <= j < s.len() && s[j] as int == h,
        forall|i: int, j: int|
            0 <= i < s.len() && 0 <= j < s.len() && s[i] as int == h && s[j] as int == h ==> i == j,
    ensures
        count_in(s, h) == 1,
    decreases s.len(),
{
    let j = choose|j: int| 0 <= j < s.len() && s[j] as int == h;
    if s.last() as int == h {
        lemma_count_in_zero(s.drop_last(), h);
    } else {
        assert(0 <= j < s.len() - 1);
        assert(s.drop_last()[j] as int == h);
        lemma_count_in_one(s.drop_last(), h);
    }
}

} // verus!
