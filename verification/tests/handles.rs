use lazy_atomic::nmt::AtomicNmt;
use lazy_atomic::rseq::rseq;
use lazy_atomic::slc::AtomicSlc;

fn on_cpu(cpu: u32) -> rseq {
    rseq { cpu_id_start: cpu, cpu_id: cpu, rseq_cs: 0, flags: 0 }
}

#[test]
fn single_thread_basics() {
    // h = new(10); get == 10; set(20); every CPU's next get == 20.
    let mut h: AtomicNmt<u64> = AtomicNmt::new(4, 10);
    let r0 = on_cpu(0);
    assert_eq!(h.get(&r0, &r0), 10);
    h.set(20);
    for cpu in 0..4u32 {
        let r = on_cpu(cpu);
        assert_eq!(h.get(&r, &r), 20);
    }
    // And it stays 20.
    assert_eq!(h.get(&r0, &r0), 20);
}

#[test]
fn non_monotonic_read_allowed() {
    // A writer publishes 1 then 2. A reader on another CPU may lag until its
    // own next read; only eventual convergence is demanded, and no assertion
    // may fire meanwhile.
    let mut h: AtomicNmt<u64> = AtomicNmt::new(2, 0);
    let r0 = on_cpu(0);
    let r1 = on_cpu(1);
    h.set(1);
    assert_eq!(h.get(&r0, &r0), 1);
    h.set(2);
    // Whichever CPU reads next, it converges on the last value.
    assert_eq!(h.get(&r1, &r1), 2);
    assert_eq!(h.get(&r0, &r0), 2);
    assert_eq!(h.get(&r1, &r1), 2);
}

#[test]
fn eventual_consistency_after_write_burst() {
    let mut h: AtomicNmt<String> = AtomicNmt::new(3, String::from("start"));
    let values = ["a", "b", "c", "d", "last"];
    for v in values.iter() {
        h.set(String::from(*v));
    }
    // Quiescence: every CPU's reads return the last-set value, repeatedly.
    for _round in 0..3 {
        for cpu in 0..3u32 {
            let r = on_cpu(cpu);
            assert_eq!(h.get(&r, &r), "last");
        }
    }
}

#[test]
fn off_cpu_release_counted_once_per_migration() {
    // A read that starts on one CPU and drops its reference on another must
    // defer the release to the owner's worker and count it.
    let mut h: AtomicNmt<u64> = AtomicNmt::new(4, 7);
    let r0 = on_cpu(0);
    let r1 = on_cpu(1);
    assert_eq!(h.stats().num_off_cpu_release, 0);
    assert_eq!(h.get(&r0, &r1), 7);
    assert_eq!(h.stats().num_off_cpu_release, 1);
    assert_eq!(h.deferred_releases(0), 1);
    assert_eq!(h.deferred_releases(1), 0);
    // A read that stays on its CPU never touches the counter.
    assert_eq!(h.get(&r1, &r1), 7);
    assert_eq!(h.stats().num_off_cpu_release, 1);
}

#[test]
fn migration_storm_counter_bounded_by_migrations() {
    // A reader hopping CPUs on every read: the off-CPU count tracks the
    // number of migrations, not the number of reads.
    let num_cpus = 4u32;
    let mut h: AtomicNmt<u64> = AtomicNmt::new(num_cpus as usize, 1);
    let reads = 4000u64;
    let mut migrations = 0u64;
    for i in 0..reads {
        let start = (i % num_cpus as u64) as u32;
        let finish = ((i + 1) % num_cpus as u64) as u32;
        if start != finish {
            migrations += 1;
        }
        assert_eq!(h.get(&on_cpu(start), &on_cpu(finish)), 1);
    }
    assert_eq!(h.stats().num_off_cpu_release, migrations);
    // The workers catch up mid-life; the value is untouched.
    for cpu in 0..num_cpus {
        h.run_worker(&on_cpu(cpu));
        assert_eq!(h.deferred_releases(cpu as usize), 0);
    }
    assert_eq!(h.get(&on_cpu(0), &on_cpu(0)), 1);
    // A steady reader adds nothing.
    let r2 = on_cpu(2);
    for _ in 0..1000 {
        assert_eq!(h.get(&r2, &r2), 1);
    }
    assert_eq!(h.stats().num_off_cpu_release, migrations);
}

#[test]
fn destruction_frees_every_allocation() {
    // Exercise reads, writes and migrations, then tear down and drain every
    // worker: each allocation meets exactly one deallocation.
    let num_cpus = 3usize;
    let mut h: AtomicNmt<Vec<u64>> = AtomicNmt::new(num_cpus, vec![1, 2, 3]);
    for round in 0..5u64 {
        h.set(vec![round; 4]);
        for cpu in 0..num_cpus as u32 {
            let next = (cpu + 1) % num_cpus as u32;
            let got = h.get(&on_cpu(cpu), &on_cpu(next));
            assert_eq!(got, vec![round; 4]);
        }
    }
    h.set(vec![9]);
    let r0 = on_cpu(0);
    let (mut arena, mut workers, _stats) = h.teardown(&r0);
    for cpu in 0..num_cpus as u32 {
        lazy_atomic::inner::drain_worker(&mut arena, &mut workers, &on_cpu(cpu));
    }
    assert_eq!(arena.allocations() as u64, arena.deallocations());
}

#[test]
fn writer_serialization_version_two() {
    // Two writes from a fresh container: both complete, the version is
    // exactly two, and the later value is what every CPU serves.
    let mut h: AtomicSlc<String> = AtomicSlc::new(4, String::from("init"));
    h.set(String::from("a"));
    h.set(String::from("b"));
    let r0 = on_cpu(0);
    assert_eq!(h.get(&r0, &r0), "b");
    for cpu in 0..4u32 {
        let r = on_cpu(cpu);
        assert_eq!(h.get(&r, &r), "b");
    }
}

#[test]
fn writer_throughput_all_writes_complete() {
    // Several writers with no readers: the lock admits them one after the
    // other; every write completes and the last one wins.
    let writers = 8u64;
    let rounds = 100u64;
    let mut h: AtomicSlc<u64> = AtomicSlc::new(2, 0);
    for round in 0..rounds {
        for w in 0..writers {
            h.set(round * writers + w);
        }
    }
    let r0 = on_cpu(0);
    assert_eq!(*h.get(&r0, &r0), rounds * writers - 1);
}

#[test]
fn slc_short_circuit_many_reads() {
    // With the one writer paused, a million reads are all served from the
    // cache: the per-CPU path is never entered.
    let mut h: AtomicSlc<u64> = AtomicSlc::new(2, 5);
    let r0 = on_cpu(0);
    assert_eq!(h.inner_get_count(), 0);
    for _ in 0..1_000_000u64 {
        assert_eq!(*h.get(&r0, &r0), 5);
    }
    assert_eq!(h.inner_get_count(), 0);
    // One write: exactly one read refreshes the cache, the rest short-circuit.
    h.set(6);
    assert_eq!(*h.get(&r0, &r0), 6);
    let after_write = h.inner_get_count();
    for _ in 0..1_000_000u64 {
        assert_eq!(*h.get(&r0, &r0), 6);
    }
    assert_eq!(h.inner_get_count(), after_write);
}

#[test]
fn slc_set_updates_cache_and_core() {
    let mut h: AtomicSlc<u64> = AtomicSlc::new(3, 1);
    h.set(2);
    // A reader on another CPU sees the new value through the per-CPU path.
    let r2 = on_cpu(2);
    assert_eq!(*h.get(&r2, &r2), 2);
    let (mut arena, mut workers, _stats) = h.teardown(&r2);
    for cpu in 0..3u32 {
        lazy_atomic::inner::drain_worker(&mut arena, &mut workers, &on_cpu(cpu));
    }
    assert_eq!(arena.allocations() as u64, arena.deallocations());
}

#[test]
fn shadowed_pending_is_freed_by_next_write() {
    // Two writes with no read in between: the first write's pending cells are
    // shadowed and freed by the second; the books stay balanced at teardown.
    let mut h: AtomicNmt<u64> = AtomicNmt::new(2, 0);
    let before = h.allocations();
    h.set(1);
    assert_eq!(h.allocations(), before + 2);
    assert_eq!(h.deallocations(), 0);
    h.set(2);
    assert_eq!(h.allocations(), before + 4);
    // The two shadowed pending cells of the first write were freed directly.
    assert_eq!(h.deallocations(), 2);
    let r0 = on_cpu(0);
    let (mut arena, mut workers, _stats) = h.teardown(&r0);
    for cpu in 0..2u32 {
        lazy_atomic::inner::drain_worker(&mut arena, &mut workers, &on_cpu(cpu));
    }
    assert_eq!(arena.allocations() as u64, arena.deallocations());
}
