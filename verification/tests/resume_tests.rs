use buildbench::BenchError;
use buildbench::resume::{
    commit_list_json, fresh_start, load_checkpoint, load_results, parse_commit_lines,
    parse_commit_list, resolve_resume_index, resume,
};
use buildbench::store::encode_checkpoint;

fn commits() -> Vec<String> {
    vec!["c1".to_string(), "c2".to_string(), "c3".to_string()]
}

#[test]
fn no_checkpoint_starts_at_zero() {
    let l = commits();
    assert_eq!(load_checkpoint(&None, &l), Ok(0));
    assert_eq!(resolve_resume_index(None, &l), Ok(0));
}

#[test]
fn no_checkpoint_starts_at_zero_even_with_results() {
    // The results file's contents play no part in resume-index resolution.
    let l = commits();
    let mut prior = buildbench::results::AllResults::new();
    buildbench::results::insert(
        &mut prior.debug.full_build_times,
        &"c2".to_string(),
        5,
    );
    let file = Some(buildbench::store::encode_results(&prior));
    let (start, loaded) = resume(&l, &None, &file).unwrap();
    assert_eq!(start, 0);
    assert_eq!(loaded, prior);
    // A corrupt results file, by contrast, is fatal.
    assert_eq!(
        resume(&l, &None, &Some("garbage".to_string())),
        Err(BenchError::CorruptState)
    );
}

#[test]
fn checkpoint_resumes_at_started_revision() {
    let l = commits();
    let file = Some(encode_checkpoint(&"c2".to_string()));
    assert_eq!(load_checkpoint(&file, &l), Ok(1));
}

#[test]
fn checkpoint_on_last_revision_resumes_there() {
    let l = commits();
    let file = Some(encode_checkpoint(&"c3".to_string()));
    assert_eq!(load_checkpoint(&file, &l), Ok(2));
}

#[test]
fn unknown_checkpoint_is_fatal() {
    let l = commits();
    let file = Some(encode_checkpoint(&"gone".to_string()));
    assert_eq!(
        load_checkpoint(&file, &l),
        Err(BenchError::UnknownCheckpointRevision)
    );
    let rev = "gone".to_string();
    assert_eq!(
        resolve_resume_index(Some(&rev), &l),
        Err(BenchError::UnknownCheckpointRevision)
    );
}

#[test]
fn corrupt_checkpoint_is_fatal() {
    let l = commits();
    assert_eq!(
        load_checkpoint(&Some("###".to_string()), &l),
        Err(BenchError::CorruptState)
    );
    // Trailing text after a well-formed checkpoint is corrupt too.
    let mut file = encode_checkpoint(&"c1".to_string());
    file.push('x');
    assert_eq!(
        load_checkpoint(&Some(file), &l),
        Err(BenchError::CorruptState)
    );
}

#[test]
fn fresh_start_is_empty_at_zero() {
    let (start, results) = fresh_start();
    assert_eq!(start, 0);
    assert!(results.debug.full_build_times.entries.is_empty());
    assert!(results.debug.partial_build_times.entries.is_empty());
    assert!(results.debug.binary_size.entries.is_empty());
    assert!(results.release.full_build_times.entries.is_empty());
}

#[test]
fn missing_results_file_loads_empty() {
    let loaded = load_results(&None).unwrap();
    assert!(loaded.debug.full_build_times.entries.is_empty());
    assert!(loaded.release.binary_size.entries.is_empty());
}

#[test]
fn corrupt_results_file_is_fatal() {
    assert_eq!(load_results(&Some("nope".to_string())), Err(BenchError::CorruptState));
}

#[test]
fn parses_json_revision_list() {
    let v = parse_commit_list("[\"c1\",\"c2\"]").unwrap();
    assert_eq!(v, vec!["c1".to_string(), "c2".to_string()]);
}

#[test]
fn rejects_unparsable_revision_list() {
    assert_eq!(
        parse_commit_list("not a list"),
        Err(BenchError::PersistenceError)
    );
}

#[test]
fn renders_json_revision_list() {
    let v = vec!["c1".to_string(), "c2".to_string()];
    assert_eq!(commit_list_json(&v).unwrap(), "[\"c1\",\"c2\"]");
}

#[test]
fn json_revision_list_round_trips() {
    let v = vec!["a b".to_string(), "c\"d".to_string()];
    let text = commit_list_json(&v).unwrap();
    assert_eq!(parse_commit_list(&text).unwrap(), v);
}

#[test]
fn commit_lines_come_back_reversed_without_empties() {
    let out = "c3\nc2\n\nc1\n";
    let v = parse_commit_lines(out);
    assert_eq!(
        v,
        vec!["c1".to_string(), "c2".to_string(), "c3".to_string()]
    );
}

#[test]
fn commit_lines_of_empty_output() {
    let v = parse_commit_lines("");
    assert!(v.is_empty());
    let v2 = parse_commit_lines("\n\n");
    assert!(v2.is_empty());
}
