//! Reference-counted cells owned each by a single CPU.
//!
//! A cell's count is only ever touched from the CPU named in the cell, inside
//! a restartable critical section, so plain loads and stores suffice and the
//! cell's cache line never bounces between cores. A release that finds itself
//! on the wrong CPU (the thread migrated) must not touch the count; it defers
//! the release to the owning CPU's worker instead.
//!
//! The cells live in an arena that stands for the heap: a handle is an index,
//! allocation appends a slot, deallocation empties it, and both are counted,
//! so that every allocation can be shown to meet exactly one deallocation.

use crate::cache_line::CacheLineAligned;
use crate::per_cpu_thread::{run_on_cpu, CpuWorkers};
use crate::rseq::rseq;
use crate::Stats;
use vstd::prelude::*;

verus! {

/// A reference-counted cell owned by a single CPU.
pub struct PerCpuRc<T> {
    /// How many holders the cell has: owning slots, queued releases and
    /// transient readers. When it drops to 0, the cell is freed.
    pub(crate) rc: u64,
    /// The id of the CPU that owns this cell. Never changes.
    pub(crate) cpu_id: u32,
    /// The stored value. Never changes.
    pub value: T,
    /// The cell wants a cache line of its own: only the owning CPU touches it.
    pub(crate) _aligned: CacheLineAligned<()>,
}

/// What a release found.
#[derive(Clone, Copy, Debug, PartialEq, Eq, Structural)]
pub enum ReleaseStatus {
    /// The count was reduced by one and is still positive.
    Alive,
    /// The count was reduced to zero; the cell is to be freed.
    Dead,
    /// The count was not touched: the release ran on a CPU that does not own
    /// the cell, and was re-submitted to the owning CPU's worker.
    OffCpu,
}

/// How many slots of the arena are occupied.
pub open spec fn live_count<T>(s: Seq<Option<PerCpuRc<T>>>) -> nat
    decreases s.len(),
{
    if s.len() == 0 {
        0
    } else {
        live_count(s.drop_last()) + (if s.last() is Some {
            1nat
        } else {
            0nat
        })
    }
}

/// The heap of per-CPU cells. Handles are indices; a freed handle is never
/// reused, so a handle names one allocation for good.
pub struct PcrArena<T> {
    pub(crate) slots: Vec<Option<PerCpuRc<T>>>,
    pub(crate) deallocations: u64,
}

impl<T> PcrArena<T> {
    /// How many cells were ever allocated.
    pub open(crate) spec fn num_slots(&self) -> int {
        self.slots@.len() as int
    }

    /// Whether handle `h` names an allocated, not yet freed cell.
    pub open(crate) spec fn live(&self, h: int) -> bool {
        0 <= h < self.slots@.len() && self.slots@[h] is Some
    }

    /// The reference count of the cell at `h`.
    pub open(crate) spec fn rc_of(&self, h: int) -> int {
        self.slots@[h]->Some_0.rc as int
    }

    /// The owning CPU of the cell at `h`.
    pub open(crate) spec fn cpu_of(&self, h: int) -> int {
        self.slots@[h]->Some_0.cpu_id as int
    }

    /// The value stored in the cell at `h`.
    pub open(crate) spec fn value_of(&self, h: int) -> T {
        self.slots@[h]->Some_0.value
    }

    /// How many cells were freed.
    pub open(crate) spec fn deallocations_spec(&self) -> int {
        self.deallocations as int
    }

    /// The books balance: every allocated cell is either still occupied or
    /// was freed exactly once.
    pub open(crate) spec fn inv(&self) -> bool {
        self.deallocations as nat + live_count(self.slots@) == self.slots@.len()
    }

    /// A fresh arena: nothing allocated, nothing freed.
    pub fn empty() -> (r: Self)
        ensures
            r.inv(),
            r.num_slots() == 0,
            r.deallocations_spec() == 0,
    {
        PcrArena { slots: Vec::new(), deallocations: 0 }
    }

    /// How many cells were ever allocated.
    pub fn allocations(&self) -> (n: usize)
        ensures
            n == self.num_slots(),
    {
        self.slots.len()
    }

    /// How many cells were freed.
    pub fn deallocations(&self) -> (n: u64)
        ensures
            n == self.deallocations_spec(),
    {
        self.deallocations
    }
}

/// The slot `h` looks the same in both arenas.
pub open spec fn slot_unchanged<T>(pre: PcrArena<T>, post: PcrArena<T>, h: int) -> bool {
    &&& post.live(h) == pre.live(h)
    &&& post.rc_of(h) == pre.rc_of(h)
    &&& post.cpu_of(h) == pre.cpu_of(h)
    &&& post.value_of(h) == pre.value_of(h)
}

/// Occupancy under one slot write: the count loses the old entry's occupancy
/// and gains the new entry's.
proof fn lemma_live_count_update<T>(s: Seq<Option<PerCpuRc<T>>>, i: int, v: Option<PerCpuRc<T>>)
    requires
        0 <= i < s.len(),
    ensures
        live_count(s.update(i, v)) + (if s[i] is Some {
            1nat
        } else {
            0nat
        }) == live_count(s) + (if v is Some {
            1nat
        } else {
            0nat
        }),
    decreases s.len(),
{
    if i == s.len() - 1 {
        assert(s.update(i, v).drop_last() =~= s.drop_last());
    } else {
        assert(s.update(i, v).drop_last() =~= s.drop_last().update(i, v));
        lemma_live_count_update(s.drop_last(), i, v);
    }
}

/// Occupancy under appending a slot.
proof fn lemma_live_count_push<T>(s: Seq<Option<PerCpuRc<T>>>, v: Option<PerCpuRc<T>>)
    ensures
        live_count(s.push(v)) == live_count(s) + (if v is Some {
            1nat
        } else {
            0nat
        }),
{
    assert(s.push(v).drop_last() =~= s);
}

/// An occupied slot makes the occupancy count positive.
proof fn lemma_live_count_pos<T>(s: Seq<Option<PerCpuRc<T>>>, h: int)
    requires
        0 <= h < s.len(),
        s[h] is Some,
    ensures
        live_count(s) >= 1,
    decreases s.len(),
{
    if h < s.len() - 1 {
        lemma_live_count_pos(s.drop_last(), h);
    }
}

/// A fully freed arena has balanced books: as many deallocations as
/// allocations.
pub proof fn lemma_balanced<T>(arena: PcrArena<T>)
    requires
        arena.inv(),
        forall|h: int| 0 <= h < arena.num_slots() ==> !arena.live(h),
    ensures
        arena.deallocations_spec() == arena.num_slots(),
{
    assert forall|i: int| 0 <= i < arena.slots@.len() implies !(arena.slots@[i] is Some) by {
        assert(!arena.live(i));
    }
    lemma_live_count_none(arena.slots@);
}

/// A sequence of empty slots has occupancy zero.
proof fn lemma_live_count_none<T>(s: Seq<Option<PerCpuRc<T>>>)
    requires
        forall|i: int| 0 <= i < s.len() ==> !(s[i] is Some),
    ensures
        live_count(s) == 0,
    decreases s.len(),
{
    if s.len() > 0 {
        lemma_live_count_none(s.drop_last());
    }
}

/// Allocates a new cell owned by CPU `cpu_id`, holding `value`, with one
/// holder: the caller, who owns the fresh reference.
pub fn new<T>(arena: &mut PcrArena<T>, cpu_id: u32, value: T) -> (h: usize)
    requires
        old(arena).inv(),
    ensures
        final(arena).inv(),
        h == old(arena).num_slots(),
        final(arena).num_slots() == old(arena).num_slots() + 1,
        final(arena).live(h as int),
        final(arena).rc_of(h as int) == 1,
        final(arena).cpu_of(h as int) == cpu_id,
        final(arena).value_of(h as int) == value,
        final(arena).deallocations_spec() == old(arena).deallocations_spec(),
        forall|k: int|
            0 <= k < old(arena).num_slots() ==> slot_unchanged(*old(arena), *final(arena), k),
{
    let h = arena.slots.len();
    let cell = PerCpuRc { rc: 1, cpu_id, value, _aligned: CacheLineAligned(()) };
    arena.slots.push(Some(cell));
    proof {
        lemma_live_count_push(old(arena).slots@, arena.slots@.last());
    }
    h
}

/// Frees the cell at `h`. The caller must know that no holder is left beyond
/// at most its own final reference.
pub fn dealloc<T>(arena: &mut PcrArena<T>, h: usize)
    requires
        old(arena).inv(),
        old(arena).live(h as int),
        old(arena).rc_of(h as int) <= 1,
    ensures
        final(arena).inv(),
        final(arena).num_slots() == old(arena).num_slots(),
        !final(arena).live(h as int),
        final(arena).deallocations_spec() == old(arena).deallocations_spec() + 1,
        forall|k: int|
            0 <= k < old(arena).num_slots() && k != h ==> slot_unchanged(
                *old(arena),
                *final(arena),
                k,
            ),
{
    let n = arena.slots.len();
    proof {
        lemma_live_count_pos(old(arena).slots@, h as int);
        assert(old(arena).deallocations < n);
        lemma_live_count_update(old(arena).slots@, h as int, None);
    }
    arena.slots.set(h, None);
    arena.deallocations = arena.deallocations + 1;
}

/// Acquires a reference to the cell the reader's CPU currently serves.
///
/// Models one restartable critical section: read the current CPU `c` from the
/// thread's kernel record, fetch the handle in slot `c` of `value_by_cpu`, and
/// increment that cell's count — all atomically with respect to preemption and
/// migration, so the increment provably happens on the CPU that owns the cell.
pub fn acquire<T>(arena: &mut PcrArena<T>, value_by_cpu: &Vec<usize>, rs: &rseq) -> (h: usize)
    requires
        old(arena).inv(),
        (rs.cpu_id as int) < value_by_cpu@.len(),
        old(arena).live(value_by_cpu@[rs.cpu_id as int] as int),
        old(arena).rc_of(value_by_cpu@[rs.cpu_id as int] as int) < u64::MAX,
    ensures
        final(arena).inv(),
        h == value_by_cpu@[rs.cpu_id as int],
        final(arena).num_slots() == old(arena).num_slots(),
        final(arena).deallocations_spec() == old(arena).deallocations_spec(),
        final(arena).live(h as int),
        final(arena).rc_of(h as int) == old(arena).rc_of(h as int) + 1,
        final(arena).cpu_of(h as int) == old(arena).cpu_of(h as int),
        final(arena).value_of(h as int) == old(arena).value_of(h as int),
        forall|k: int|
            0 <= k < old(arena).num_slots() && k != h ==> slot_unchanged(
                *old(arena),
                *final(arena),
                k,
            ),
{
    let cpu = rs.cpu_id as usize;
    let h = value_by_cpu[cpu];
    let mut taken: Option<PerCpuRc<T>> = None;
    arena.slots.set_and_swap(h, &mut taken);
    match taken {
        Some(mut cell) => {
            cell.rc = cell.rc + 1;
            proof {
                lemma_live_count_update(old(arena).slots@, h as int, None);
                lemma_live_count_update(arena.slots@, h as int, Some(cell));
            }
            arena.slots.set(h, Some(cell));
        },
        None => {
            proof {
                assert(false);
            }
        },
    }
    h
}

/// One restartable critical section around the count: on the owning CPU the
/// count is reduced by one and the cell reports whether holders remain; on any
/// other CPU nothing is touched.
fn release_critical<T>(arena: &mut PcrArena<T>, rs: &rseq, h: usize) -> (st: ReleaseStatus)
    requires
        old(arena).inv(),
        old(arena).live(h as int),
        old(arena).rc_of(h as int) >= 1,
    ensures
        final(arena).inv(),
        final(arena).num_slots() == old(arena).num_slots(),
        final(arena).deallocations_spec() == old(arena).deallocations_spec(),
        final(arena).live(h as int),
        final(arena).cpu_of(h as int) == old(arena).cpu_of(h as int),
        final(arena).value_of(h as int) == old(arena).value_of(h as int),
        rs.cpu_id as int != old(arena).cpu_of(h as int) ==> {
            &&& st == ReleaseStatus::OffCpu
            &&& final(arena).rc_of(h as int) == old(arena).rc_of(h as int)
        },
        rs.cpu_id as int == old(arena).cpu_of(h as int) ==> {
            &&& final(arena).rc_of(h as int) == old(arena).rc_of(h as int) - 1
            &&& st == (if old(arena).rc_of(h as int) == 1 {
                ReleaseStatus::Dead
            } else {
                ReleaseStatus::Alive
            })
        },
        forall|k: int|
            0 <= k < old(arena).num_slots() && k != h ==> slot_unchanged(
                *old(arena),
                *final(arena),
                k,
            ),
{
    let mut taken: Option<PerCpuRc<T>> = None;
    arena.slots.set_and_swap(h, &mut taken);
    match taken {
        Some(mut cell) => {
            let st;
            if rs.cpu_id != cell.cpu_id {
                st = ReleaseStatus::OffCpu;
            } else {
                if cell.rc == 1 {
                    st = ReleaseStatus::Dead;
                } else {
                    st = ReleaseStatus::Alive;
                }
                cell.rc = cell.rc - 1;
            }
            proof {
                lemma_live_count_update(old(arena).slots@, h as int, None);
                lemma_live_count_update(arena.slots@, h as int, Some(cell));
            }
            arena.slots.set(h, Some(cell));
            st
        },
        None => {
            proof {
                assert(false);
            }
            ReleaseStatus::OffCpu
        },
    }
}

/// What a release leaves behind on the owning CPU: the count goes down by
/// one, and the last holder frees the cell.
pub open spec fn counted_down<T>(pre: PcrArena<T>, post: PcrArena<T>, h: int) -> bool {
    &&& pre.rc_of(h) > 1 ==> {
        &&& post.live(h)
        &&& post.rc_of(h) == pre.rc_of(h) - 1
        &&& post.cpu_of(h) == pre.cpu_of(h)
        &&& post.value_of(h) == pre.value_of(h)
        &&& post.deallocations_spec() == pre.deallocations_spec()
    }
    &&& pre.rc_of(h) == 1 ==> {
        &&& !post.live(h)
        &&& post.deallocations_spec() == pre.deallocations_spec() + 1
    }
}

/// What a deferred release leaves behind: the owner's queue gains the handle
/// at its end; nothing else of the workers moves.
pub open spec fn deferred_to_owner(pre: CpuWorkers, post: CpuWorkers, owner: int, h: int) -> bool {
    &&& post.num_cpus() == pre.num_cpus()
    &&& post.queue(owner) == pre.queue(owner).push(h as usize)
    &&& forall|c: int| 0 <= c < pre.num_cpus() && c != owner ==> post.queue(c) == pre.queue(c)
    &&& post.is_started(owner)
    &&& forall|c: int|
        0 <= c < pre.num_cpus() && c != owner ==> post.is_started(c) == pre.is_started(c)
}

/// The very slow path of a release that ran on the wrong CPU: count the event
/// and submit the release to the owning CPU's worker.
fn release_off_cpu(workers: &mut CpuWorkers, stats: &mut Stats, cpu_id: u32, h: usize)
    requires
        old(workers).inv(),
        (cpu_id as int) < old(workers).num_cpus(),
    ensures
        final(workers).inv(),
        deferred_to_owner(*old(workers), *final(workers), cpu_id as int, h as int),
        final(stats).num_off_cpu_release == old(stats).num_off_cpu_release.wrapping_add(1),
{
    stats.num_off_cpu_release = stats.num_off_cpu_release.wrapping_add(1);
    run_on_cpu(workers, cpu_id as usize, h);
}

/// Releases one reference to the cell at `h`.
///
/// On the owning CPU the count goes down by one, and the last holder frees
/// the cell. On any other CPU the count is left alone and the release is
/// handed to the owning CPU's worker; the off-CPU counter records the event.
pub fn release<T>(
    arena: &mut PcrArena<T>,
    workers: &mut CpuWorkers,
    stats: &mut Stats,
    rs: &rseq,
    h: usize,
) -> (st: ReleaseStatus)
    requires
        old(arena).inv(),
        old(workers).inv(),
        old(arena).live(h as int),
        old(arena).rc_of(h as int) >= 1,
        old(arena).cpu_of(h as int) < old(workers).num_cpus(),
    ensures
        final(arena).inv(),
        final(workers).inv(),
        final(arena).num_slots() == old(arena).num_slots(),
        final(workers).num_cpus() == old(workers).num_cpus(),
        forall|k: int|
            0 <= k < old(arena).num_slots() && k != h ==> slot_unchanged(
                *old(arena),
                *final(arena),
                k,
            ),
        st == (if rs.cpu_id as int != old(arena).cpu_of(h as int) {
            ReleaseStatus::OffCpu
        } else if old(arena).rc_of(h as int) == 1 {
            ReleaseStatus::Dead
        } else {
            ReleaseStatus::Alive
        }),
        // On the owning CPU: the count goes down; workers and counters rest.
        rs.cpu_id as int == old(arena).cpu_of(h as int) ==> {
            &&& counted_down(*old(arena), *final(arena), h as int)
            &&& *final(workers) == *old(workers)
            &&& *final(stats) == *old(stats)
        },
        // On the wrong CPU: nothing of the cell is touched; the release is
        // deferred to the owning CPU's worker and the event is counted.
        rs.cpu_id as int != old(arena).cpu_of(h as int) ==> {
            &&& slot_unchanged(*old(arena), *final(arena), h as int)
            &&& final(arena).deallocations_spec() == old(arena).deallocations_spec()
            &&& deferred_to_owner(
                *old(workers),
                *final(workers),
                old(arena).cpu_of(h as int),
                h as int,
            )
            &&& final(stats).num_off_cpu_release == old(stats).num_off_cpu_release.wrapping_add(1)
        },
{
    let cpu_id = cpu_id_of(arena, h);
    let st = release_critical(arena, rs, h);
    let ghost mid = *arena;
    match st {
        ReleaseStatus::Alive => st,
        ReleaseStatus::Dead => {
            // The count hit zero: free the cell.
            dealloc(arena, h);
            proof {
                assert forall|k: int| 0 <= k < old(arena).num_slots() && k != h implies slot_unchanged(*old(arena), *arena, k) by {
                    assert(slot_unchanged(*old(arena), mid, k));
                    assert(slot_unchanged(mid, *arena, k));
                }
            }
            st
        },
        ReleaseStatus::OffCpu => {
            release_off_cpu(workers, stats, cpu_id, h);
            st
        },
    }
}

/// The owning CPU of the cell at `h`.
pub fn cpu_id_of<T>(arena: &PcrArena<T>, h: usize) -> (c: u32)
    requires
        arena.live(h as int),
    ensures
        c == arena.cpu_of(h as int),
{
    match &arena.slots[h] {
        Some(cell) => cell.cpu_id,
        None => unreached(),
    }
}

/// The reference count of the cell at `h`.
pub fn rc_value<T>(arena: &PcrArena<T>, h: usize) -> (r: u64)
    requires
        arena.live(h as int),
    ensures
        r == arena.rc_of(h as int),
{
    match &arena.slots[h] {
        Some(cell) => cell.rc,
        None => unreached(),
    }
}

/// The value stored in the cell at `h`.
pub fn value_ref<T>(arena: &PcrArena<T>, h: usize) -> (v: &T)
    requires
        arena.live(h as int),
    ensures
        *v == arena.value_of(h as int),
{
    match &arena.slots[h] {
        Some(cell) => &cell.value,
        None => unreached(),
    }
}

/// Releases a reference on the owning CPU itself: what the owning CPU's
/// worker does for each deferred release handed to it.
///
/// The worker is pinned, so the release can never come back off-CPU; the
/// count always goes down, and the last holder frees the cell.
pub fn release_on_owner<T>(arena: &mut PcrArena<T>, rs: &rseq, h: usize)
    requires
        old(arena).inv(),
        old(arena).live(h as int),
        old(arena).rc_of(h as int) >= 1,
        rs.cpu_id as int == old(arena).cpu_of(h as int),
    ensures
        final(arena).inv(),
        final(arena).num_slots() == old(arena).num_slots(),
        counted_down(*old(arena), *final(arena), h as int),
        forall|k: int|
            0 <= k < old(arena).num_slots() && k != h ==> slot_unchanged(
                *old(arena),
                *final(arena),
                k,
            ),
{
    let st = release_critical(arena, rs, h);
    let ghost mid = *arena;
    match st {
        ReleaseStatus::Dead => {
            dealloc(arena, h);
            proof {
                assert forall|k: int| 0 <= k < old(arena).num_slots() && k != h implies slot_unchanged(*old(arena), *arena, k) by {
                    assert(slot_unchanged(*old(arena), mid, k));
                    assert(slot_unchanged(mid, *arena, k));
                }
            }
        },
        ReleaseStatus::Alive => {},
        ReleaseStatus::OffCpu => {
            // The worker runs on the owning CPU, so migration can never be
            // detected here.
            proof {
                assert(false);
            }
        },
    }
}

} // verus!
