use buildbench::results::{AllResults, BinarySizes, BuildTimes, ProfileResults, insert, insert_size};

#[test]
fn two_samples_accumulate_in_append_order() {
    let mut m = BuildTimes { entries: Vec::new() };
    let rev = "c1".to_string();
    insert(&mut m, &rev, 10);
    insert(&mut m, &rev, 7);
    assert_eq!(m.entries.len(), 1);
    assert_eq!(m.entries[0].key, "c1");
    assert_eq!(m.entries[0].samples, vec![10, 7]);
}

#[test]
fn sizes_overwrite_instead_of_accumulating() {
    let mut m = BinarySizes { entries: Vec::new() };
    let rev = "c1".to_string();
    insert_size(&mut m, &rev, 100);
    insert_size(&mut m, &rev, 250);
    assert_eq!(m.entries.len(), 1);
    assert_eq!(m.entries[0].key, "c1");
    assert_eq!(m.entries[0].size, 250);
}

#[test]
fn distinct_revisions_keep_their_own_samples() {
    let mut m = BuildTimes { entries: Vec::new() };
    insert(&mut m, &"c1".to_string(), 1);
    insert(&mut m, &"c2".to_string(), 2);
    insert(&mut m, &"c1".to_string(), 3);
    assert_eq!(m.entries.len(), 2);
    assert_eq!(m.entries[0].key, "c1");
    assert_eq!(m.entries[0].samples, vec![1, 3]);
    assert_eq!(m.entries[1].key, "c2");
    assert_eq!(m.entries[1].samples, vec![2]);
}

#[test]
fn new_profile_is_empty() {
    let p = ProfileResults::new();
    assert!(p.full_build_times.entries.is_empty());
    assert!(p.partial_build_times.entries.is_empty());
    assert!(p.binary_size.entries.is_empty());
}

#[test]
fn record_fills_all_three_mappings() {
    let mut p = ProfileResults::new();
    let rev = "c1".to_string();
    p.record(&rev, 11, 12, 13);
    assert_eq!(p.full_build_times.entries[0].samples, vec![11]);
    assert_eq!(p.partial_build_times.entries[0].samples, vec![12]);
    assert_eq!(p.binary_size.entries[0].size, 13);
    p.record(&rev, 21, 22, 23);
    assert_eq!(p.full_build_times.entries[0].samples, vec![11, 21]);
    assert_eq!(p.partial_build_times.entries[0].samples, vec![12, 22]);
    assert_eq!(p.binary_size.entries[0].size, 23);
}

#[test]
fn new_all_results_has_two_empty_profiles() {
    let a = AllResults::new();
    assert!(a.debug.full_build_times.entries.is_empty());
    assert!(a.debug.partial_build_times.entries.is_empty());
    assert!(a.debug.binary_size.entries.is_empty());
    assert!(a.release.full_build_times.entries.is_empty());
    assert!(a.release.partial_build_times.entries.is_empty());
    assert!(a.release.binary_size.entries.is_empty());
}
