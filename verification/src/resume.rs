use vstd::prelude::*;

use crate::BenchError;
use crate::results::{AllResults, AllView, empty_profile};
use crate::store::{
    spec_dec_all, spec_dec_checkpoint, spec_enc_checkpoint, decode_checkpoint, decode_results,
    lemma_checkpoint_round_trip,
};

verus! {

/// The index of the first occurrence of `rev` in `l`, if any.
pub open spec fn spec_position(l: Seq<Seq<char>>, rev: Seq<char>) -> Option<int>
    decreases l.len(),
{
    if l.len() == 0 {
        None
    } else if l[0] == rev {
        Some(0)
    } else {
        match spec_position(l.skip(1), rev) {
            None => None,
            Some(i) => Some(i + 1),
        }
    }
}

/// The index at which processing resumes: the start of the list when no
/// checkpoint exists, else the checkpointed revision's own position (not
/// the one after it: a checkpoint means that revision was started, and its
/// results may never have been written, so it is redone).
pub open spec fn spec_resume_index(cp: Option<Seq<char>>, l: Seq<Seq<char>>) -> Result<
    int,
    BenchError,
> {
    match cp {
        None => Ok(0),
        Some(rev) => match spec_position(l, rev) {
            Some(i) => Ok(i),
            None => Err(BenchError::UnknownCheckpointRevision),
        },
    }
}

/// What resuming computes from the raw checkpoint file: no file means
/// index `0`; an undecodable file is corrupt; otherwise the checkpointed
/// revision is looked up in the list.
pub open spec fn spec_load_checkpoint(file: Option<Seq<char>>, l: Seq<Seq<char>>) -> Result<
    int,
    BenchError,
> {
    match file {
        None => Ok(0),
        Some(text) => match spec_dec_checkpoint(text) {
            None => Err(BenchError::CorruptState),
            Some(rev) => spec_resume_index(Some(rev), l),
        },
    }
}

/// What loading computes from the raw results file: no file means a fresh
/// empty accumulator; an undecodable file is corrupt.
pub open spec fn spec_load_results(file: Option<Seq<char>>) -> Result<AllView, BenchError> {
    match file {
        None => Ok(AllView { debug: empty_profile(), release: empty_profile() }),
        Some(text) => match spec_dec_all(text) {
            None => Err(BenchError::CorruptState),
            Some(a) => Ok(a),
        },
    }
}

/// The spec-level contents of an optional file.
pub open spec fn file_view(file: Option<String>) -> Option<Seq<char>> {
    match file {
        None => None,
        Some(text) => Some(text@),
    }
}

proof fn lemma_position_found(l: Seq<Seq<char>>, rev: Seq<char>, i: int)
    requires
        0 <= i < l.len(),
        l[i] == rev,
        forall|j: int| 0 <= j < i ==> l[j] != rev,
    ensures
        spec_position(l, rev) == Some(i),
    decreases i,
{
    if i > 0 {
        lemma_position_found(l.skip(1), rev, i - 1);
    }
}

proof fn lemma_position_absent(l: Seq<Seq<char>>, rev: Seq<char>)
    requires
        forall|j: int| 0 <= j < l.len() ==> l[j] != rev,
    ensures
        spec_position(l, rev) is None,
    decreases l.len(),
{
    if l.len() > 0 {
        lemma_position_absent(l.skip(1), rev);
    }
}

/// Resume idempotence: after revisions `0 .. k` of a duplicate-free list
/// have been started in order (so the persisted checkpoint holds revision
/// `k - 1`, the last one started), resolution returns `k - 1` — the last
/// started revision is redone, not skipped.
pub proof fn lemma_resume_idempotence(l: Seq<Seq<char>>, k: int)
    requires
        1 <= k <= l.len(),
        forall|i: int, j: int| 0 <= i < j < l.len() ==> l[i] != l[j],
        l[k - 1].len() <= u64::MAX as nat,
    ensures
        spec_load_checkpoint(Some(spec_enc_checkpoint(l[k - 1])), l) == Ok::<int, BenchError>(k - 1),
{
    lemma_checkpoint_round_trip(l[k - 1]);
    lemma_position_found(l, l[k - 1], k - 1);
}

/// Unknown-checkpoint failure: a persisted checkpoint holding a revision
/// that is absent from the list resolves to `UnknownCheckpointRevision`,
/// not to some index and not to a different error.
pub proof fn lemma_unknown_checkpoint(l: Seq<Seq<char>>, rev: Seq<char>)
    requires
        forall|j: int| 0 <= j < l.len() ==> l[j] != rev,
        rev.len() <= u64::MAX as nat,
    ensures
        spec_load_checkpoint(Some(spec_enc_checkpoint(rev)), l) == Err::<int, BenchError>(
            BenchError::UnknownCheckpointRevision,
        ),
{
    lemma_checkpoint_round_trip(rev);
    lemma_position_absent(l, rev);
}

fn position_of(commits: &Vec<String>, rev: &String) -> (r: Option<usize>)
    ensures
        match r {
            Some(i) => i < commits@.len() && spec_position(commits.deep_view(), rev@) == Some(
                i as int,
            ),
            None => spec_position(commits.deep_view(), rev@) is None,
        },
{
    let n = commits.len();
    let mut i: usize = 0;
    while i < n
        invariant
            n == commits@.len(),
            i <= n,
            forall|j: int| 0 <= j < i ==> commits.deep_view()[j] != rev@,
        decreases n - i,
    {
        if commits[i] == *rev {
            proof {
                assert(commits.deep_view()[i as int] == commits@[i as int]@);
                lemma_position_found(commits.deep_view(), rev@, i as int);
            }
            return Some(i);
        }
        proof {
            assert(commits.deep_view()[i as int] == commits@[i as int]@);
        }
        i += 1;
    }
    proof {
        lemma_position_absent(commits.deep_view(), rev@);
    }
    None
}

/// Resolve the resume index for a decoded checkpoint: `0` when none
/// exists, the checkpointed revision's position otherwise, and
/// `UnknownCheckpointRevision` when that revision is not in the list.
pub fn resolve_resume_index(checkpoint: Option<&String>, commits: &Vec<String>) -> (r: Result<
    usize,
    BenchError,
>)
    ensures
        match r {
            Ok(i) => spec_resume_index(
                match checkpoint {
                    Some(s) => Some(s@),
                    None => None,
                },
                commits.deep_view(),
            ) == Ok::<int, BenchError>(i as int),
            Err(e) => spec_resume_index(
                match checkpoint {
                    Some(s) => Some(s@),
                    None => None,
                },
                commits.deep_view(),
            ) == Err::<int, BenchError>(e),
        },
{
    match checkpoint {
        None => Ok(0),
        Some(rev) => match position_of(commits, rev) {
            Some(i) => Ok(i),
            None => Err(BenchError::UnknownCheckpointRevision),
        },
    }
}

/// Compute the resume index from the raw checkpoint file contents
/// (`None` when no checkpoint file exists).
pub fn load_checkpoint(file: &Option<String>, commits: &Vec<String>) -> (r: Result<
    usize,
    BenchError,
>)
    ensures
        match r {
            Ok(i) => spec_load_checkpoint(file_view(*file), commits.deep_view()) == Ok::<int, BenchError>(i as int),
            Err(e) => spec_load_checkpoint(file_view(*file), commits.deep_view()) == Err::<
                int,
                BenchError,
            >(e),
        },
{
    match file {
        None => Ok(0),
        Some(text) => match decode_checkpoint(text.as_str()) {
            Err(e) => Err(e),
            Ok(rev) => resolve_resume_index(Some(&rev), commits),
        },
    }
}

/// Load the accumulated results from the raw results file contents
/// (`None` when no results file exists): a fresh empty accumulator when
/// none exists, the decoded snapshot otherwise.
pub fn load_results(file: &Option<String>) -> (r: Result<AllResults, BenchError>)
    ensures
        match r {
            Ok(a) => spec_load_results(file_view(*file)) == Ok::<AllView, BenchError>(a@),
            Err(e) => spec_load_results(file_view(*file)) == Err::<AllView, BenchError>(e),
        },
{
    match file {
        None => Ok(AllResults::new()),
        Some(text) => decode_results(text.as_str()),
    }
}

/// A fresh start: resume index `0` and an empty accumulator.
pub fn fresh_start() -> (r: (usize, AllResults))
    ensures
        r.0 == 0,
        r.1@.debug == empty_profile(),
        r.1@.release == empty_profile(),
{
    (0, AllResults::new())
}

/// Reconcile the two persisted files with the revision list: the resume
/// index from the checkpoint file, the accumulator from the results file.
pub fn resume(
    commits: &Vec<String>,
    checkpoint_file: &Option<String>,
    results_file: &Option<String>,
) -> (r: Result<(usize, AllResults), BenchError>)
    ensures
        match r {
            Ok(ia) => spec_load_checkpoint(file_view(*checkpoint_file), commits.deep_view())
                == Ok::<int, BenchError>(ia.0 as int) && spec_load_results(file_view(*results_file))
                == Ok::<AllView, BenchError>(ia.1@),
            Err(e) => spec_load_checkpoint(file_view(*checkpoint_file), commits.deep_view())
                == Err::<int, BenchError>(e) || (spec_load_checkpoint(
                file_view(*checkpoint_file),
                commits.deep_view(),
            ) is Ok && spec_load_results(file_view(*results_file)) == Err::<AllView, BenchError>(
                e,
            )),
        },
{
    match load_checkpoint(checkpoint_file, commits) {
        Err(e) => Err(e),
        Ok(start) => match load_results(results_file) {
            Err(e) => Err(e),
            Ok(results) => Ok((start, results)),
        },
    }
}

/// The index of the first newline in `s`, or `s.len()` if there is none.
pub open spec fn first_nl(s: Seq<char>) -> nat
    decreases s.len(),
{
    if s.len() == 0 {
        0
    } else if s[0] == '\n' {
        0
    } else {
        1 + first_nl(s.skip(1))
    }
}

/// The non-empty newline-separated lines of `s`, last line of the text
/// first (the order in which a freshly generated revision list is
/// benchmarked: oldest revision, listed last, first).
pub open spec fn spec_rev_lines(s: Seq<char>) -> Seq<Seq<char>>
    decreases s.len(),
{
    if s.len() == 0 {
        Seq::empty()
    } else if first_nl(s) >= s.len() {
        seq![s]
    } else {
        let k = first_nl(s) as int;
        let line = s.take(k);
        let tail = spec_rev_lines(s.skip(k + 1));
        if line.len() > 0 {
            tail.push(line)
        } else {
            tail
        }
    }
}

fn find_nl(s: &str, len: usize, pos: usize) -> (k: usize)
    requires
        len as nat == s@.len(),
        pos <= len,
    ensures
        pos <= k <= len,
        k - pos == first_nl(s@.skip(pos as int)),
    decreases len - pos,
{
    if pos == len {
        proof {
            assert(s@.skip(pos as int).len() == 0);
        }
        return pos;
    }
    let c = s.get_char(pos);
    proof {
        assert(s@.skip(pos as int)[0] == s@[pos as int]);
    }
    if c == '\n' {
        pos
    } else {
        proof {
            assert(s@.skip(pos as int).skip(1) =~= s@.skip(pos as int + 1));
        }
        find_nl(s, len, pos + 1)
    }
}

fn rev_lines_from(s: &str, len: usize, pos: usize) -> (r: Vec<String>)
    requires
        len as nat == s@.len(),
        pos <= len,
    ensures
        r.deep_view() == spec_rev_lines(s@.skip(pos as int)),
    decreases len - pos,
{
    if pos == len {
        let v: Vec<String> = Vec::new();
        proof {
            assert(s@.skip(pos as int).len() == 0);
            assert(v.deep_view() =~= Seq::<Seq<char>>::empty());
        }
        v
    } else {
        let k = find_nl(s, len, pos);
        if k == len {
            let sub = s.substring_char(pos, len);
            let t = String::from_str(sub);
            let mut v: Vec<String> = Vec::new();
            v.push(t);
            proof {
                assert(s@.skip(pos as int) =~= s@.subrange(pos as int, len as int));
                assert(v.deep_view() =~~= seq![s@.skip(pos as int)]);
            }
            v
        } else {
            proof {
                assert(s@.skip(pos as int).skip(k - pos + 1) =~= s@.skip(k + 1));
            }
            let mut v = rev_lines_from(s, len, k + 1);
            if k > pos {
                let sub = s.substring_char(pos, k);
                let t = String::from_str(sub);
                let ghost pre = v.deep_view();
                v.push(t);
                proof {
                    assert(s@.skip(pos as int).take(k - pos) =~= s@.subrange(
                        pos as int,
                        k as int,
                    ));
                    assert(v.deep_view() =~~= pre.push(s@.subrange(pos as int, k as int)));
                }
            } else {
                proof {
                    assert(s@.skip(pos as int).take(0).len() == 0);
                }
            }
            v
        }
    }
}

/// Split freshly listed revisions into benchmark order: the non-empty
/// lines of `out`, last line first.
pub fn parse_commit_lines(out: &str) -> (r: Vec<String>)
    ensures
        r.deep_view() == spec_rev_lines(out@),
{
    let len = out.unicode_len();
    proof {
        assert(out@.skip(0) =~= out@);
    }
    rev_lines_from(out, len, 0)
}

/// Names what `serde_json::from_str::<Vec<String>>` yields on a given
/// text: the parsed revision list, or nothing when the text is not a JSON
/// array of strings.  The result depends on the text alone.
pub uninterp spec fn json_revisions_of(s: Seq<char>) -> Option<Seq<Seq<char>>>;

/// Relies on `serde_json::from_str::<Vec<String>>`: deterministically
/// parses a JSON array of strings from `s`, or fails.
#[verifier::external_body]
fn parse_revision_list_json(s: &str) -> (r: Option<Vec<String>>)
    ensures
        match r {
            Some(v) => json_revisions_of(s@) == Some(v.deep_view()),
            None => json_revisions_of(s@) is None,
        },
{
    match serde_json::from_str::<Vec<String>>(s) {
        Ok(v) => Some(v),
        Err(_) => None,
    }
}

/// Parse the revision-list file: a JSON array of revision identifiers,
/// in benchmark order.  An unparsable list is a fatal persistence error.
pub fn parse_commit_list(json: &str) -> (r: Result<Vec<String>, BenchError>)
    ensures
        match r {
            Ok(v) => json_revisions_of(json@) == Some(v.deep_view()),
            Err(e) => e == BenchError::PersistenceError && json_revisions_of(json@) is None,
        },
{
    match parse_revision_list_json(json) {
        Some(v) => Ok(v),
        None => Err(BenchError::PersistenceError),
    }
}

/// Names what `serde_json::to_string::<Vec<String>>` yields on a given
/// revision list when it succeeds.  The result depends on the list alone.
pub uninterp spec fn json_of_revisions(l: Seq<Seq<char>>) -> Seq<char>;

/// Relies on `serde_json::to_string::<Vec<String>>`: deterministically
/// renders the list as a JSON array of strings.
#[verifier::external_body]
fn revision_list_to_json(v: &Vec<String>) -> (r: Option<String>)
    ensures
        r is Some ==> r.unwrap()@ == json_of_revisions(v.deep_view()),
{
    match serde_json::to_string::<Vec<String>>(v) {
        Ok(t) => Some(t),
        Err(_) => None,
    }
}

/// Render the revision list as the revision-list file's contents.  A
/// failure to render is a fatal persistence error.
pub fn commit_list_json(commits: &Vec<String>) -> (r: Result<String, BenchError>)
    ensures
        match r {
            Ok(t) => t@ == json_of_revisions(commits.deep_view()),
            Err(e) => e == BenchError::PersistenceError,
        },
{
    match revision_list_to_json(commits) {
        Some(t) => Ok(t),
        None => Err(BenchError::PersistenceError),
    }
}

} // verus!
