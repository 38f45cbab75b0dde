use lazy_atomic::cache_line::CacheLineAligned;
use lazy_atomic::num_off_cpu_release;
use lazy_atomic::per_cpu_rc::{acquire, dealloc, new, release, release_on_owner, PcrArena,
    ReleaseStatus};
use lazy_atomic::per_cpu_thread::{run_on_cpu, CpuWorkers};
use lazy_atomic::rseq::rseq;
use lazy_atomic::versioning::{NoVersion, Versioned, Versioning, VersioningNone, VersioningU64};
use lazy_atomic::Stats;

fn on_cpu(cpu: u32) -> rseq {
    rseq { cpu_id_start: cpu, cpu_id: cpu, rseq_cs: 0, flags: 0 }
}

#[test]
fn acquire_and_release_on_owner() {
    let mut arena: PcrArena<u64> = PcrArena::empty();
    let mut workers = CpuWorkers::new(2);
    let mut stats = Stats::new();
    let h = new(&mut arena, 0, 42);
    let slots = vec![h, h];
    let r0 = on_cpu(0);
    let got = acquire(&mut arena, &slots, &r0);
    assert_eq!(got, h);
    // Two holders now; the first release keeps the cell alive.
    let st = release(&mut arena, &mut workers, &mut stats, &r0, h);
    assert_eq!(st, ReleaseStatus::Alive);
    // The last holder's release frees it.
    let st = release(&mut arena, &mut workers, &mut stats, &r0, h);
    assert_eq!(st, ReleaseStatus::Dead);
    assert_eq!(arena.allocations(), 1);
    assert_eq!(arena.deallocations(), 1);
    assert_eq!(num_off_cpu_release(&stats), 0);
}

#[test]
fn release_on_wrong_cpu_defers_to_owner() {
    let mut arena: PcrArena<u64> = PcrArena::empty();
    let mut workers = CpuWorkers::new(2);
    let mut stats = Stats::new();
    let h = new(&mut arena, 1, 9);
    // Released from CPU 0, but CPU 1 owns the cell: nothing is freed, the
    // release is queued for CPU 1's worker, and the event is counted.
    let st = release(&mut arena, &mut workers, &mut stats, &on_cpu(0), h);
    assert_eq!(st, ReleaseStatus::OffCpu);
    assert_eq!(num_off_cpu_release(&stats), 1);
    assert_eq!(arena.deallocations(), 0);
    // The worker, pinned to CPU 1, performs the deferred release.
    release_on_owner(&mut arena, &on_cpu(1), h);
    assert_eq!(arena.deallocations(), 1);
}

#[test]
fn worker_queues_are_fifo() {
    let mut workers = CpuWorkers::new(3);
    run_on_cpu(&mut workers, 1, 10);
    run_on_cpu(&mut workers, 1, 11);
    run_on_cpu(&mut workers, 2, 20);
    run_on_cpu(&mut workers, 1, 12);
    assert_eq!(workers.queue_len(1), 3);
    assert_eq!(workers.queue_len(2), 1);
    assert_eq!(workers.queue_len(0), 0);
    // Tasks come back in submission order.
    assert_eq!(workers.pop_task(1), 10);
    assert_eq!(workers.pop_task(1), 11);
    assert_eq!(workers.pop_task(1), 12);
    assert_eq!(workers.pop_task(2), 20);
}

#[test]
fn direct_dealloc_of_sole_reference() {
    // A cell nobody else ever saw may be freed without a release: what a
    // writer does to a pending cell shadowed by a newer write.
    let mut arena: PcrArena<&str> = PcrArena::empty();
    let h = new(&mut arena, 0, "shadowed");
    dealloc(&mut arena, h);
    assert_eq!(arena.allocations(), 1);
    assert_eq!(arena.deallocations(), 1);
}

#[test]
fn versioning_u64_counts() {
    let v0 = <VersioningU64 as Versioning>::new();
    assert_eq!(v0, 0);
    let v1 = <VersioningU64 as Versioning>::inc(v0);
    let v2 = <VersioningU64 as Versioning>::inc(v1);
    assert_eq!(v2, 2);
    let mut cell = <VersioningU64 as Versioning>::new_atomic();
    assert_eq!(<VersioningU64 as Versioning>::get(&cell), 0);
    <VersioningU64 as Versioning>::set(&mut cell, v2);
    assert_eq!(<VersioningU64 as Versioning>::get(&cell), 2);
}

#[test]
fn versioning_none_is_a_mark() {
    let v = <VersioningNone as Versioning>::new();
    let _: NoVersion = <VersioningNone as Versioning>::inc(v);
    let mut cell = <VersioningNone as Versioning>::new_atomic();
    <VersioningNone as Versioning>::set(&mut cell, v);
    let _: NoVersion = <VersioningNone as Versioning>::get(&cell);
}

#[test]
fn versioned_clone_keeps_the_stamp() {
    let v: Versioned<VersioningU64, String> =
        Versioned { version: 5, value: String::from("payload") };
    let w = v.clone();
    assert_eq!(w.version, 5);
    assert_eq!(w.value, "payload");
}

#[test]
fn cache_line_wrapper_converts() {
    let wrapped: CacheLineAligned<u64> = CacheLineAligned::from(17);
    assert_eq!(wrapped.0, 17);
    let direct = CacheLineAligned(3u8);
    assert_eq!(direct.0, 3);
}
