use vstd::prelude::*;

use crate::BenchError;
use crate::results::{AllResults, AllView, record_profile};
use crate::store::{spec_enc_all, spec_enc_checkpoint, encode_checkpoint, encode_results};

verus! {

/// The six measurements one successful build-executor run yields for a
/// revision: for each profile a full-build time, a partial-build time
/// (both in nanoseconds) and a binary size (in bytes).
#[derive(Clone, Copy, Debug, PartialEq, Eq, Structural)]
pub struct BuildMeasurements {
    pub debug_full_time: u64,
    pub debug_partial_time: u64,
    pub debug_binary_size: u64,
    pub release_full_time: u64,
    pub release_partial_time: u64,
    pub release_binary_size: u64,
}

/// The contents of the two persisted files, `None` while a file does not
/// exist.  The surrounding program mirrors every change of this value to
/// stable storage before going on.
#[derive(Clone, Debug, PartialEq, Eq)]
pub struct StoredFiles {
    pub checkpoint: Option<String>,
    pub results: Option<String>,
}

impl StoredFiles {
    /// The spec-level contents of the checkpoint file.
    pub open spec fn checkpoint_view(&self) -> Option<Seq<char>> {
        match self.checkpoint {
            None => None,
            Some(t) => Some(t@),
        }
    }

    /// The spec-level contents of the results file.
    pub open spec fn results_view(&self) -> Option<Seq<char>> {
        match self.results {
            None => None,
            Some(t) => Some(t@),
        }
    }

    /// A state in which neither file exists yet.
    pub fn new() -> (r: Self)
        ensures
            r.checkpoint is None,
            r.results is None,
    {
        StoredFiles { checkpoint: None, results: None }
    }
}

/// Recording one revision's measurements: both duration samples appended
/// and the size overwritten, in each profile, debug before release.
pub open spec fn spec_record_all(a: AllView, k: Seq<char>, m: BuildMeasurements) -> AllView {
    AllView {
        debug: record_profile(a.debug, k, m.debug_full_time, m.debug_partial_time,
            m.debug_binary_size),
        release: record_profile(a.release, k, m.release_full_time, m.release_partial_time,
            m.release_binary_size),
    }
}

/// Overwrite the checkpoint file with `hash`, leaving the results file
/// untouched.  Written before the revision's builds begin, so that a
/// crash mid-revision resumes at this same revision.
pub fn save_checkpoint(files: &mut StoredFiles, hash: &String)
    ensures
        final(files).checkpoint_view() == Some(spec_enc_checkpoint(hash@)),
        final(files).results == old(files).results,
{
    files.checkpoint = Some(encode_checkpoint(hash));
}

/// Overwrite the results file with the full snapshot of `results`,
/// leaving the checkpoint file untouched.
pub fn save_results(files: &mut StoredFiles, results: &AllResults)
    ensures
        final(files).results_view() == Some(spec_enc_all(results@)),
        final(files).checkpoint == old(files).checkpoint,
{
    files.results = Some(encode_results(results));
}

/// Fold one revision's executor outcome into the accumulator: on success
/// all six measurements are recorded; on failure nothing is recorded —
/// not even partially — and the execution error propagates.
pub fn process_commit(
    results: &mut AllResults,
    hash: &String,
    outcome: Option<&BuildMeasurements>,
) -> (r: Result<(), BenchError>)
    ensures
        match outcome {
            Some(m) => r is Ok && final(results)@ == spec_record_all(old(results)@, hash@, *m),
            None => r == Err::<(), BenchError>(BenchError::ExecutionError) && *final(results)
                == *old(results),
        },
{
    match outcome {
        None => Err(BenchError::ExecutionError),
        Some(m) => {
            results.debug.record(hash, m.debug_full_time, m.debug_partial_time,
                m.debug_binary_size);
            results.release.record(hash, m.release_full_time, m.release_partial_time,
                m.release_binary_size);
            Ok(())
        },
    }
}

/// One step of the driver loop for the revision `hash`: persist the
/// checkpoint first, then fold in the executor's outcome, then persist
/// the updated snapshot.  On executor failure the checkpoint keeps
/// naming this revision while the results file is untouched, so a later
/// run redoes exactly this revision.
pub fn run_step(
    files: &mut StoredFiles,
    results: &mut AllResults,
    hash: &String,
    outcome: Option<&BuildMeasurements>,
) -> (r: Result<(), BenchError>)
    ensures
        final(files).checkpoint_view() == Some(spec_enc_checkpoint(hash@)),
        match outcome {
            Some(m) => r is Ok && final(results)@ == spec_record_all(old(results)@, hash@, *m)
                && final(files).results_view() == Some(spec_enc_all(final(results)@)),
            None => r == Err::<(), BenchError>(BenchError::ExecutionError) && *final(results)
                == *old(results) && final(files).results == old(files).results,
        },
{
    save_checkpoint(files, hash);
    match process_commit(results, hash, outcome) {
        Err(e) => Err(e),
        Ok(()) => {
            save_results(files, results);
            Ok(())
        },
    }
}

/// The accumulator after folding in the outcomes for revisions
/// `i .. j` of `l`, in list order (a failed outcome never arises where
/// this is applied).
pub open spec fn spec_record_seq(
    a: AllView,
    l: Seq<Seq<char>>,
    os: Seq<Option<BuildMeasurements>>,
    i: int,
    j: int,
) -> AllView
    decreases j - i,
{
    if i >= j {
        a
    } else {
        match os[i] {
            Some(m) => spec_record_seq(spec_record_all(a, l[i], m), l, os, i + 1, j),
            None => a,
        }
    }
}

/// The index of the first failed outcome at or after `i`, if any.
pub open spec fn first_failure(os: Seq<Option<BuildMeasurements>>, i: int) -> Option<int>
    decreases os.len() - i,
{
    if i < 0 || i >= os.len() {
        None
    } else if os[i] is None {
        Some(i)
    } else {
        first_failure(os, i + 1)
    }
}

proof fn lemma_record_seq_snoc(
    a: AllView,
    l: Seq<Seq<char>>,
    os: Seq<Option<BuildMeasurements>>,
    i: int,
    j: int,
)
    requires
        i <= j < os.len(),
        os[j] is Some,
        forall|q: int| i <= q < j ==> os[q] is Some,
    ensures
        spec_record_seq(a, l, os, i, j + 1) == (match os[j] {
            Some(m) => spec_record_all(spec_record_seq(a, l, os, i, j), l[j], m),
            None => a,
        }),
    decreases j - i,
{
    if i == j {
        let m = os[j]->Some_0;
        assert(spec_record_seq(a, l, os, i, j + 1) == spec_record_seq(
            spec_record_all(a, l[i], m),
            l,
            os,
            i + 1,
            j + 1,
        ));
        assert(spec_record_seq(spec_record_all(a, l[i], m), l, os, i + 1, j + 1)
            == spec_record_all(a, l[i], m));
        assert(spec_record_seq(a, l, os, i, j) == a);
    } else {
        assert(os[i] is Some);
        let m = os[i]->Some_0;
        let a1 = spec_record_all(a, l[i], m);
        lemma_record_seq_snoc(a1, l, os, i + 1, j);
        assert(spec_record_seq(a, l, os, i, j + 1) == spec_record_seq(a1, l, os, i + 1, j + 1));
        assert(spec_record_seq(a, l, os, i, j) == spec_record_seq(a1, l, os, i + 1, j));
    }
}

/// The driver loop from `start` on: for each remaining revision in order,
/// persist the checkpoint, fold in that revision's outcome, persist the
/// snapshot; stop at the first failed outcome, whose revision stays
/// checkpointed with nothing of it recorded.
pub fn run_from(
    files: &mut StoredFiles,
    results: &mut AllResults,
    commits: &Vec<String>,
    start: usize,
    outcomes: &Vec<Option<BuildMeasurements>>,
) -> (r: Result<(), BenchError>)
    requires
        outcomes@.len() == commits@.len(),
        start <= commits@.len(),
    ensures
        match first_failure(outcomes@, start as int) {
            None => {
                &&& r is Ok
                &&& final(results)@ == spec_record_seq(
                    old(results)@,
                    commits.deep_view(),
                    outcomes@,
                    start as int,
                    commits@.len() as int,
                )
                &&& start < commits@.len() ==> final(files).checkpoint_view() == Some(
                    spec_enc_checkpoint(commits.deep_view()[commits@.len() - 1]),
                ) && final(files).results_view() == Some(spec_enc_all(final(results)@))
                &&& start == commits@.len() ==> *final(files) == *old(files)
            },
            Some(j) => {
                &&& r == Err::<(), BenchError>(BenchError::ExecutionError)
                &&& final(results)@ == spec_record_seq(
                    old(results)@,
                    commits.deep_view(),
                    outcomes@,
                    start as int,
                    j,
                )
                &&& final(files).checkpoint_view() == Some(
                    spec_enc_checkpoint(commits.deep_view()[j]),
                )
                &&& j > start ==> final(files).results_view() == Some(
                    spec_enc_all(final(results)@),
                )
                &&& j == start ==> final(files).results == old(files).results
            },
        },
{
    let n = commits.len();
    let mut i: usize = start;
    while i < n
        invariant
            n == commits@.len(),
            outcomes@.len() == n,
            start <= i <= n,
            forall|q: int| start <= q < i ==> outcomes@[q] is Some,
            first_failure(outcomes@, start as int) == first_failure(outcomes@, i as int),
            results@ == spec_record_seq(
                old(results)@,
                commits.deep_view(),
                outcomes@,
                start as int,
                i as int,
            ),
            i > start ==> files.checkpoint_view() == Some(
                spec_enc_checkpoint(commits.deep_view()[i - 1]),
            ) && files.results_view() == Some(spec_enc_all(results@)),
            i == start ==> *files == *old(files),
        decreases n - i,
    {
        let hash = &commits[i];
        proof {
            assert(commits.deep_view()[i as int] == commits@[i as int]@);
        }
        let step = run_step(files, results, hash, outcomes[i].as_ref());
        match step {
            Err(e) => {
                return Err(e);
            },
            Ok(()) => {
                proof {
                    lemma_record_seq_snoc(
                        old(results)@,
                        commits.deep_view(),
                        outcomes@,
                        start as int,
                        i as int,
                    );
                }
                i += 1;
            },
        }
    }
    Ok(())
}

/// The warm-up pass: run the executor's outcome for the list's first
/// revision into a throwaway accumulator that is dropped at once.  It
/// never alters the persisted checkpoint or results contents — the files
/// are provably returned exactly as they were.
pub fn warm_up(files: &mut StoredFiles, sample_hash: &String, outcome: Option<&BuildMeasurements>)
    ensures
        *final(files) == *old(files),
{
    let mut tmp = AllResults::new();
    let _ = process_commit(&mut tmp, sample_hash, outcome);
}

} // verus!
