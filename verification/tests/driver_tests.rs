use buildbench::BenchError;
use buildbench::driver::{
    BuildMeasurements, StoredFiles, process_commit, run_from, run_step, save_checkpoint,
    save_results, warm_up,
};
use buildbench::results::AllResults;
use buildbench::resume::resume;
use buildbench::store::{decode_checkpoint, decode_results, encode_checkpoint};

fn measurements(base: u64) -> BuildMeasurements {
    BuildMeasurements {
        debug_full_time: base + 1,
        debug_partial_time: base + 2,
        debug_binary_size: base + 3,
        release_full_time: base + 4,
        release_partial_time: base + 5,
        release_binary_size: base + 6,
    }
}

#[test]
fn process_commit_records_all_six_measurements() {
    let mut results = AllResults::new();
    let rev = "c1".to_string();
    let m = measurements(100);
    assert_eq!(process_commit(&mut results, &rev, Some(&m)), Ok(()));
    assert_eq!(results.debug.full_build_times.entries[0].samples, vec![101]);
    assert_eq!(results.debug.partial_build_times.entries[0].samples, vec![102]);
    assert_eq!(results.debug.binary_size.entries[0].size, 103);
    assert_eq!(results.release.full_build_times.entries[0].samples, vec![104]);
    assert_eq!(results.release.partial_build_times.entries[0].samples, vec![105]);
    assert_eq!(results.release.binary_size.entries[0].size, 106);
}

#[test]
fn process_commit_failure_records_nothing() {
    let mut results = AllResults::new();
    results.debug.record(&"c0".to_string(), 1, 2, 3);
    let before = results.clone();
    let r = process_commit(&mut results, &"c1".to_string(), None);
    assert_eq!(r, Err(BenchError::ExecutionError));
    assert_eq!(results, before);
}

#[test]
fn save_checkpoint_leaves_results_file_alone() {
    let mut files = StoredFiles::new();
    save_results(&mut files, &AllResults::new());
    let results_before = files.results.clone();
    save_checkpoint(&mut files, &"c2".to_string());
    assert_eq!(files.checkpoint, Some(encode_checkpoint(&"c2".to_string())));
    assert_eq!(files.results, results_before);
}

#[test]
fn failed_step_keeps_checkpoint_and_old_results() {
    let mut files = StoredFiles::new();
    let mut results = AllResults::new();
    let c1 = "c1".to_string();
    assert_eq!(run_step(&mut files, &mut results, &c1, Some(&measurements(0))), Ok(()));
    let results_file_after_c1 = files.results.clone();
    let in_memory_after_c1 = results.clone();
    let c2 = "c2".to_string();
    let r = run_step(&mut files, &mut results, &c2, None);
    assert_eq!(r, Err(BenchError::ExecutionError));
    // The checkpoint already names the failed revision...
    assert_eq!(decode_checkpoint(files.checkpoint.as_ref().unwrap()), Ok(c2));
    // ...while the persisted and in-memory results are untouched.
    assert_eq!(files.results, results_file_after_c1);
    assert_eq!(results, in_memory_after_c1);
}

#[test]
fn warm_up_never_touches_persisted_state() {
    let mut files = StoredFiles::new();
    let mut results = AllResults::new();
    let c1 = "c1".to_string();
    run_step(&mut files, &mut results, &c1, Some(&measurements(500))).unwrap();
    let before = files.clone();
    warm_up(&mut files, &c1, Some(&measurements(900)));
    assert_eq!(files, before);
    warm_up(&mut files, &"unknown".to_string(), None);
    assert_eq!(files, before);
}

#[test]
fn warm_up_on_missing_files_creates_none() {
    let mut files = StoredFiles::new();
    warm_up(&mut files, &"c1".to_string(), Some(&measurements(1)));
    assert_eq!(files, StoredFiles::new());
}

#[test]
fn run_from_stops_at_first_failure_and_resumes() {
    let l = vec!["c1".to_string(), "c2".to_string(), "c3".to_string()];
    let mut files = StoredFiles::new();
    let (start, mut results) = resume(&l, &None, &None).unwrap();
    assert_eq!(start, 0);

    let outcomes = vec![Some(measurements(0)), Some(measurements(10)), None];
    let r = run_from(&mut files, &mut results, &l, start, &outcomes);
    assert_eq!(r, Err(BenchError::ExecutionError));
    assert_eq!(
        decode_checkpoint(files.checkpoint.as_ref().unwrap()),
        Ok("c3".to_string())
    );
    let persisted = decode_results(files.results.as_ref().unwrap()).unwrap();
    assert_eq!(persisted.debug.full_build_times.entries.len(), 2);

    let (start2, mut results2) = resume(&l, &files.checkpoint, &files.results).unwrap();
    assert_eq!(start2, 2);
    let outcomes2 = vec![Some(measurements(0)), Some(measurements(10)), Some(measurements(20))];
    let r2 = run_from(&mut files, &mut results2, &l, start2, &outcomes2);
    assert_eq!(r2, Ok(()));
    let fin = decode_results(files.results.as_ref().unwrap()).unwrap();
    assert_eq!(fin.debug.full_build_times.entries.len(), 3);
    assert_eq!(fin.debug.full_build_times.entries[0].samples, vec![1]);
    assert_eq!(fin.debug.full_build_times.entries[1].samples, vec![11]);
    assert_eq!(fin.debug.full_build_times.entries[2].samples, vec![21]);
}

#[test]
fn end_to_end_scenario() {
    let l = vec!["c1".to_string(), "c2".to_string(), "c3".to_string()];

    // First run: nothing persisted yet.
    let (start, mut results) = resume(&l, &None, &None).unwrap();
    assert_eq!(start, 0);
    let mut files = StoredFiles::new();
    warm_up(&mut files, &l[0], Some(&measurements(9000)));

    // The executor succeeds for c1 and c2, then fails for c3.
    let mut failed = false;
    for (i, hash) in l.iter().enumerate().skip(start) {
        let outcome = if hash == "c3" { None } else { Some(measurements(10 * i as u64)) };
        if run_step(&mut files, &mut results, hash, outcome.as_ref()).is_err() {
            failed = true;
            break;
        }
    }
    assert!(failed);

    // The checkpoint names c3; the persisted results hold c1 and c2 only.
    assert_eq!(
        decode_checkpoint(files.checkpoint.as_ref().unwrap()),
        Ok("c3".to_string())
    );
    let persisted = decode_results(files.results.as_ref().unwrap()).unwrap();
    assert_eq!(persisted.debug.full_build_times.entries.len(), 2);
    assert_eq!(persisted.debug.full_build_times.entries[0].key, "c1");
    assert_eq!(persisted.debug.full_build_times.entries[0].samples, vec![1]);
    assert_eq!(persisted.debug.full_build_times.entries[1].key, "c2");
    assert_eq!(persisted.debug.full_build_times.entries[1].samples, vec![11]);
    assert_eq!(persisted.release.binary_size.entries.len(), 2);

    // Second run, same list, with an executor that now succeeds for c3:
    // it resumes at index 2 and reprocesses exactly c3.
    let (start2, mut results2) = resume(&l, &files.checkpoint, &files.results).unwrap();
    assert_eq!(start2, 2);
    for hash in l.iter().skip(start2) {
        let outcome = Some(measurements(1000));
        run_step(&mut files, &mut results2, hash, outcome.as_ref()).unwrap();
    }

    let fin = decode_results(files.results.as_ref().unwrap()).unwrap();
    assert_eq!(fin, results2);
    // c1 and c2 are unchanged, with one sample each; c3 is newly populated.
    assert_eq!(fin.debug.full_build_times.entries.len(), 3);
    assert_eq!(fin.debug.full_build_times.entries[0].samples, vec![1]);
    assert_eq!(fin.debug.full_build_times.entries[1].samples, vec![11]);
    assert_eq!(fin.debug.full_build_times.entries[2].key, "c3");
    assert_eq!(fin.debug.full_build_times.entries[2].samples, vec![1001]);
    assert_eq!(fin.release.partial_build_times.entries[2].samples, vec![1005]);
    assert_eq!(fin.release.binary_size.entries[2].size, 1006);
    assert_eq!(
        decode_checkpoint(files.checkpoint.as_ref().unwrap()),
        Ok("c3".to_string())
    );
}
