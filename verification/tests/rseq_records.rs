use lazy_atomic::rseq::{
    descriptor_valid, ensure_enabled, get_cpu, get_rseq, new_descriptor, rseq, rseq_cs,
};

fn record(cpu: u32) -> rseq {
    rseq { cpu_id_start: cpu, cpu_id: cpu, rseq_cs: 0, flags: 0 }
}

#[test]
fn get_rseq_probes_once_and_caches() {
    let mut cache: Option<rseq> = None;
    let first = get_rseq(&mut cache, record(3));
    assert_eq!(first.cpu_id, 3);
    assert_eq!(cache, Some(record(3)));
    // Later probes are ignored: the cached record wins.
    let second = get_rseq(&mut cache, record(7));
    assert_eq!(second.cpu_id, 3);
    assert_eq!(cache, Some(record(3)));
}

#[test]
fn get_cpu_reads_the_record() {
    assert_eq!(get_cpu(&record(0)), 0);
    assert_eq!(get_cpu(&record(11)), 11);
}

#[test]
fn ensure_enabled_checks_the_published_size() {
    assert!(!ensure_enabled(0));
    assert!(ensure_enabled(32));
}

#[test]
fn descriptor_well_formedness() {
    // Abort target before the critical region.
    assert!(descriptor_valid(&new_descriptor(100, 20, 50)));
    // Abort target at or after the post-commit address.
    assert!(descriptor_valid(&new_descriptor(100, 20, 120)));
    assert!(descriptor_valid(&new_descriptor(100, 20, 500)));
    // Abort target inside the critical region: the kernel refuses it.
    assert!(!descriptor_valid(&new_descriptor(100, 20, 100)));
    assert!(!descriptor_valid(&new_descriptor(100, 20, 119)));
    // Near the top of the address space the region end may exceed the word;
    // an abort target below the start is still outside.
    assert!(descriptor_valid(&new_descriptor(u64::MAX - 1, 5, 10)));
    assert!(!descriptor_valid(&new_descriptor(u64::MAX - 1, 5, u64::MAX)));
    // Reserved fields must be zero.
    let cs = rseq_cs { version: 1, flags: 0, start_ip: 100, post_commit_offset: 20, abort_ip: 50 };
    assert!(!descriptor_valid(&cs));
}
