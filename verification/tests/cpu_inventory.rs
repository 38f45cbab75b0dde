use lazy_atomic::num_cpus::num_cpus_from_possible;

#[test]
fn single_range() {
    assert_eq!(num_cpus_from_possible(b"0-7\n"), Some(8));
}

#[test]
fn single_cpu() {
    assert_eq!(num_cpus_from_possible(b"0\n"), Some(1));
}

#[test]
fn several_ranges_take_last_endpoint() {
    assert_eq!(num_cpus_from_possible(b"0-3,5-7\n"), Some(8));
    assert_eq!(num_cpus_from_possible(b"3-4,9"), Some(10));
    assert_eq!(num_cpus_from_possible(b"0,2,4"), Some(5));
}

#[test]
fn surrounding_whitespace_is_trimmed() {
    assert_eq!(num_cpus_from_possible(b" 0-15 \t\n"), Some(16));
    assert_eq!(num_cpus_from_possible(b"0-15"), Some(16));
}

#[test]
fn empty_or_garbled_text_is_rejected() {
    assert_eq!(num_cpus_from_possible(b""), None);
    assert_eq!(num_cpus_from_possible(b"\n"), None);
    assert_eq!(num_cpus_from_possible(b"abc"), None);
    assert_eq!(num_cpus_from_possible(b"0-"), None);
    assert_eq!(num_cpus_from_possible(b"0-7x"), None);
    assert_eq!(num_cpus_from_possible(b"0 7"), None);
}

#[test]
fn oversized_endpoints_are_rejected() {
    // The endpoint itself does not fit in a machine word.
    assert_eq!(num_cpus_from_possible(b"0-99999999999999999999999999"), None);
    // The endpoint fits, but the count (endpoint plus one) does not.
    assert_eq!(num_cpus_from_possible(b"0-18446744073709551615"), None);
    // The largest representable count.
    assert_eq!(
        num_cpus_from_possible(b"0-18446744073709551614"),
        Some(usize::MAX)
    );
}
