use buildbench::BenchError;
use buildbench::results::AllResults;
use buildbench::store::{decode_checkpoint, decode_results, encode_checkpoint, encode_results};

#[test]
fn checkpoint_round_trips() {
    let rev = "0123abcd".to_string();
    let text = encode_checkpoint(&rev);
    assert_eq!(decode_checkpoint(&text), Ok(rev));
}

#[test]
fn checkpoint_round_trips_awkward_characters() {
    let rev = "a.b\n17.c\u{00e9}".to_string();
    let text = encode_checkpoint(&rev);
    assert_eq!(decode_checkpoint(&text), Ok(rev));
}

#[test]
fn checkpoint_round_trips_empty_revision() {
    let rev = String::new();
    let text = encode_checkpoint(&rev);
    assert_eq!(decode_checkpoint(&text), Ok(rev));
}

#[test]
fn checkpoint_wire_form_is_length_prefixed() {
    assert_eq!(encode_checkpoint(&"ab".to_string()), "2.ab");
    assert_eq!(encode_checkpoint(&"".to_string()), "0.");
}

#[test]
fn corrupt_checkpoints_are_rejected() {
    assert_eq!(decode_checkpoint(""), Err(BenchError::CorruptState));
    assert_eq!(decode_checkpoint("ab"), Err(BenchError::CorruptState));
    assert_eq!(decode_checkpoint("5.ab"), Err(BenchError::CorruptState));
    assert_eq!(decode_checkpoint("2.abc"), Err(BenchError::CorruptState));
    assert_eq!(
        decode_checkpoint("99999999999999999999999999.x"),
        Err(BenchError::CorruptState)
    );
}

fn sample_results() -> AllResults {
    let mut a = AllResults::new();
    let c1 = "c1".to_string();
    let c2 = "rev.two\nodd".to_string();
    a.debug.record(&c1, 11, 12, 13);
    a.debug.record(&c1, 14, 15, 16);
    a.debug.record(&c2, 21, 22, 23);
    a.release.record(&c1, 31, 32, 33);
    a.release.record(&c2, 41, 42, 43);
    a
}

#[test]
fn results_round_trip() {
    let a = sample_results();
    let text = encode_results(&a);
    assert_eq!(decode_results(&text), Ok(a));
}

#[test]
fn empty_results_round_trip() {
    let a = AllResults::new();
    let text = encode_results(&a);
    assert_eq!(text, "0.0.0.0.0.0.");
    assert_eq!(decode_results(&text), Ok(AllResults::new()));
}

#[test]
fn corrupt_results_are_rejected() {
    assert_eq!(decode_results(""), Err(BenchError::CorruptState));
    assert_eq!(decode_results("xyz"), Err(BenchError::CorruptState));
    // A truncated snapshot is corrupt.
    let text = encode_results(&sample_results());
    let truncated: String = text.chars().take(text.chars().count() - 3).collect();
    assert_eq!(decode_results(&truncated), Err(BenchError::CorruptState));
    // Trailing text after a well-formed snapshot is corrupt too.
    let mut extended = text.clone();
    extended.push('0');
    assert_eq!(decode_results(&extended), Err(BenchError::CorruptState));
}

#[test]
fn results_snapshot_is_rewritten_whole() {
    // Saving twice yields the encoding of the latest state alone.
    let mut a = AllResults::new();
    a.debug.record(&"c1".to_string(), 1, 2, 3);
    let first = encode_results(&a);
    a.debug.record(&"c2".to_string(), 4, 5, 6);
    let second = encode_results(&a);
    assert_ne!(first, second);
    assert_eq!(decode_results(&second), Ok(a));
}
