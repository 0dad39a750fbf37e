use vstd::prelude::*;
use vstd::string::*;

use crate::BenchError;
use crate::codec::{
    spec_enc_num, spec_enc_str, spec_enc_nums, spec_dec_num, spec_dec_str, spec_dec_nums,
    lemma_dec_enc_num, lemma_dec_enc_str, lemma_dec_enc_nums, enc_num_into, enc_str_into,
    enc_nums_from, dec_num, dec_str, dec_nums,
};
use crate::results::{
    AllResults, AllView, BinarySizes, BuildTimes, ProfileResults, ProfileView, SizeEntry,
    TimesEntry, times_view, sizes_view,
};

verus! {

// The two persisted stores are text snapshots in the format of `codec`:
// the results file is the two profiles in order, each profile its three
// mappings in order, each mapping its entry count and then its entries in
// list order; the checkpoint file is the one revision identifier.  Decoding
// accepts exactly what encoding produces, so a snapshot loads back to the
// value that was saved.

/// Lengths small enough to be written as numbers (true of every value an
/// actual store can hold).
pub open spec fn times_bounded(s: Seq<(Seq<char>, Seq<u64>)>) -> bool {
    &&& s.len() <= u64::MAX as nat
    &&& forall|i: int|
        0 <= i < s.len() ==> (#[trigger] s[i]).0.len() <= u64::MAX as nat && s[i].1.len()
            <= u64::MAX as nat
}

/// Lengths small enough to be written as numbers (true of every value an
/// actual store can hold).
pub open spec fn sizes_bounded(s: Seq<(Seq<char>, u64)>) -> bool {
    &&& s.len() <= u64::MAX as nat
    &&& forall|i: int| 0 <= i < s.len() ==> (#[trigger] s[i]).0.len() <= u64::MAX as nat
}

/// Lengths small enough to be written as numbers (true of every value an
/// actual store can hold).
pub open spec fn profile_bounded(p: ProfileView) -> bool {
    times_bounded(p.full) && times_bounded(p.partial) && sizes_bounded(p.sizes)
}

/// Lengths small enough to be written as numbers (true of every value an
/// actual store can hold).
pub open spec fn all_bounded(a: AllView) -> bool {
    profile_bounded(a.debug) && profile_bounded(a.release)
}

/// The wire form of one duration entry: key, sample count, samples.
pub open spec fn spec_enc_times_entry(e: (Seq<char>, Seq<u64>)) -> Seq<char> {
    spec_enc_str(e.0) + spec_enc_num(e.1.len()) + spec_enc_nums(e.1)
}

/// The wire form of duration entries, in list order.
pub open spec fn spec_enc_times_entries(s: Seq<(Seq<char>, Seq<u64>)>) -> Seq<char>
    decreases s.len(),
{
    if s.len() == 0 {
        Seq::empty()
    } else {
        spec_enc_times_entry(s[0]) + spec_enc_times_entries(s.skip(1))
    }
}

/// The wire form of a duration mapping: entry count, then entries.
pub open spec fn spec_enc_times(s: Seq<(Seq<char>, Seq<u64>)>) -> Seq<char> {
    spec_enc_num(s.len()) + spec_enc_times_entries(s)
}

/// Decode one duration entry from the front of `s`.
pub open spec fn spec_dec_times_entry(s: Seq<char>) -> Option<
    ((Seq<char>, Seq<u64>), Seq<char>),
> {
    match spec_dec_str(s) {
        None => None,
        Some((k, r1)) => match spec_dec_num(r1) {
            None => None,
            Some((cnt, r2)) => match spec_dec_nums(r2, cnt) {
                None => None,
                Some((v, r3)) => Some(((k, v), r3)),
            },
        },
    }
}

/// Decode `count` duration entries from the front of `s`.
pub open spec fn spec_dec_times_entries(s: Seq<char>, count: u64) -> Option<
    (Seq<(Seq<char>, Seq<u64>)>, Seq<char>),
>
    decreases count,
{
    if count == 0 {
        Some((Seq::empty(), s))
    } else {
        match spec_dec_times_entry(s) {
            None => None,
            Some((e, r)) => match spec_dec_times_entries(r, (count - 1) as u64) {
                None => None,
                Some((es, r2)) => Some((seq![e] + es, r2)),
            },
        }
    }
}

/// Decode a duration mapping from the front of `s`.
pub open spec fn spec_dec_times(s: Seq<char>) -> Option<(Seq<(Seq<char>, Seq<u64>)>, Seq<char>)> {
    match spec_dec_num(s) {
        None => None,
        Some((cnt, r)) => spec_dec_times_entries(r, cnt),
    }
}

/// The wire form of one size entry: key, then size.
pub open spec fn spec_enc_sizes_entry(e: (Seq<char>, u64)) -> Seq<char> {
    spec_enc_str(e.0) + spec_enc_num(e.1 as nat)
}

/// The wire form of size entries, in list order.
pub open spec fn spec_enc_sizes_entries(s: Seq<(Seq<char>, u64)>) -> Seq<char>
    decreases s.len(),
{
    if s.len() == 0 {
        Seq::empty()
    } else {
        spec_enc_sizes_entry(s[0]) + spec_enc_sizes_entries(s.skip(1))
    }
}

/// The wire form of a size mapping: entry count, then entries.
pub open spec fn spec_enc_sizes(s: Seq<(Seq<char>, u64)>) -> Seq<char> {
    spec_enc_num(s.len()) + spec_enc_sizes_entries(s)
}

/// Decode one size entry from the front of `s`.
pub open spec fn spec_dec_sizes_entry(s: Seq<char>) -> Option<((Seq<char>, u64), Seq<char>)> {
    match spec_dec_str(s) {
        None => None,
        Some((k, r1)) => match spec_dec_num(r1) {
            None => None,
            Some((z, r2)) => Some(((k, z), r2)),
        },
    }
}

/// Decode `count` size entries from the front of `s`.
pub open spec fn spec_dec_sizes_entries(s: Seq<char>, count: u64) -> Option<
    (Seq<(Seq<char>, u64)>, Seq<char>),
>
    decreases count,
{
    if count == 0 {
        Some((Seq::empty(), s))
    } else {
        match spec_dec_sizes_entry(s) {
            None => None,
            Some((e, r)) => match spec_dec_sizes_entries(r, (count - 1) as u64) {
                None => None,
                Some((es, r2)) => Some((seq![e] + es, r2)),
            },
        }
    }
}

/// Decode a size mapping from the front of `s`.
pub open spec fn spec_dec_sizes(s: Seq<char>) -> Option<(Seq<(Seq<char>, u64)>, Seq<char>)> {
    match spec_dec_num(s) {
        None => None,
        Some((cnt, r)) => spec_dec_sizes_entries(r, cnt),
    }
}

/// The wire form of one profile: full times, partial times, sizes.
pub open spec fn spec_enc_profile(p: ProfileView) -> Seq<char> {
    spec_enc_times(p.full) + spec_enc_times(p.partial) + spec_enc_sizes(p.sizes)
}

/// Decode one profile from the front of `s`.
pub open spec fn spec_dec_profile(s: Seq<char>) -> Option<(ProfileView, Seq<char>)> {
    match spec_dec_times(s) {
        None => None,
        Some((f, r1)) => match spec_dec_times(r1) {
            None => None,
            Some((pt, r2)) => match spec_dec_sizes(r2) {
                None => None,
                Some((z, r3)) => Some((ProfileView { full: f, partial: pt, sizes: z }, r3)),
            },
        },
    }
}

/// The wire form of the whole results snapshot: debug, then release.
pub open spec fn spec_enc_all(a: AllView) -> Seq<char> {
    spec_enc_profile(a.debug) + spec_enc_profile(a.release)
}

/// Decode a whole results snapshot; trailing input is a failure.
pub open spec fn spec_dec_all(s: Seq<char>) -> Option<AllView> {
    match spec_dec_profile(s) {
        None => None,
        Some((d, r1)) => match spec_dec_profile(r1) {
            None => None,
            Some((rl, r2)) => if r2.len() == 0 {
                Some(AllView { debug: d, release: rl })
            } else {
                None
            },
        },
    }
}

/// The wire form of the checkpoint: the one revision identifier.
pub open spec fn spec_enc_checkpoint(rev: Seq<char>) -> Seq<char> {
    spec_enc_str(rev)
}

/// Decode a checkpoint; trailing input is a failure.
pub open spec fn spec_dec_checkpoint(s: Seq<char>) -> Option<Seq<char>> {
    match spec_dec_str(s) {
        None => None,
        Some((t, r)) => if r.len() == 0 {
            Some(t)
        } else {
            None
        },
    }
}

proof fn lemma_dec_enc_times_entry(e: (Seq<char>, Seq<u64>), rest: Seq<char>)
    requires
        e.0.len() <= u64::MAX as nat,
        e.1.len() <= u64::MAX as nat,
    ensures
        spec_dec_times_entry(spec_enc_times_entry(e) + rest) == Some((e, rest)),
{
    let x2 = spec_enc_nums(e.1) + rest;
    let x1 = spec_enc_num(e.1.len()) + x2;
    assert(spec_enc_times_entry(e) + rest =~= spec_enc_str(e.0) + x1);
    lemma_dec_enc_str(e.0, x1);
    lemma_dec_enc_num(e.1.len() as u64, x2);
    lemma_dec_enc_nums(e.1, rest);
}

proof fn lemma_dec_enc_times_entries(s: Seq<(Seq<char>, Seq<u64>)>, rest: Seq<char>)
    requires
        times_bounded(s),
    ensures
        spec_dec_times_entries(spec_enc_times_entries(s) + rest, s.len() as u64) == Some((
            s,
            rest,
        )),
    decreases s.len(),
{
    if s.len() == 0 {
        assert(spec_enc_times_entries(s) + rest =~= rest);
    } else {
        assert(spec_enc_times_entries(s) + rest =~= spec_enc_times_entry(s[0]) + (
        spec_enc_times_entries(s.skip(1)) + rest));
        lemma_dec_enc_times_entry(s[0], spec_enc_times_entries(s.skip(1)) + rest);
        assert(times_bounded(s.skip(1))) by {
            assert(forall|i: int|
                0 <= i < s.skip(1).len() ==> #[trigger] s.skip(1)[i] == s[i + 1]);
        }
        lemma_dec_enc_times_entries(s.skip(1), rest);
        assert(seq![s[0]] + s.skip(1) =~= s);
    }
}

proof fn lemma_dec_enc_times(s: Seq<(Seq<char>, Seq<u64>)>, rest: Seq<char>)
    requires
        times_bounded(s),
    ensures
        spec_dec_times(spec_enc_times(s) + rest) == Some((s, rest)),
{
    assert(spec_enc_times(s) + rest =~= spec_enc_num(s.len()) + (spec_enc_times_entries(s)
        + rest));
    lemma_dec_enc_num(s.len() as u64, spec_enc_times_entries(s) + rest);
    lemma_dec_enc_times_entries(s, rest);
}

proof fn lemma_dec_enc_sizes_entry(e: (Seq<char>, u64), rest: Seq<char>)
    requires
        e.0.len() <= u64::MAX as nat,
    ensures
        spec_dec_sizes_entry(spec_enc_sizes_entry(e) + rest) == Some((e, rest)),
{
    let x1 = spec_enc_num(e.1 as nat) + rest;
    assert(spec_enc_sizes_entry(e) + rest =~= spec_enc_str(e.0) + x1);
    lemma_dec_enc_str(e.0, x1);
    lemma_dec_enc_num(e.1, rest);
}

proof fn lemma_dec_enc_sizes_entries(s: Seq<(Seq<char>, u64)>, rest: Seq<char>)
    requires
        sizes_bounded(s),
    ensures
        spec_dec_sizes_entries(spec_enc_sizes_entries(s) + rest, s.len() as u64) == Some((
            s,
            rest,
        )),
    decreases s.len(),
{
    if s.len() == 0 {
        assert(spec_enc_sizes_entries(s) + rest =~= rest);
    } else {
        assert(spec_enc_sizes_entries(s) + rest =~= spec_enc_sizes_entry(s[0]) + (
        spec_enc_sizes_entries(s.skip(1)) + rest));
        lemma_dec_enc_sizes_entry(s[0], spec_enc_sizes_entries(s.skip(1)) + rest);
        assert(sizes_bounded(s.skip(1))) by {
            assert(forall|i: int|
                0 <= i < s.skip(1).len() ==> #[trigger] s.skip(1)[i] == s[i + 1]);
        }
        lemma_dec_enc_sizes_entries(s.skip(1), rest);
        assert(seq![s[0]] + s.skip(1) =~= s);
    }
}

proof fn lemma_dec_enc_sizes(s: Seq<(Seq<char>, u64)>, rest: Seq<char>)
    requires
        sizes_bounded(s),
    ensures
        spec_dec_sizes(spec_enc_sizes(s) + rest) == Some((s, rest)),
{
    assert(spec_enc_sizes(s) + rest =~= spec_enc_num(s.len()) + (spec_enc_sizes_entries(s)
        + rest));
    lemma_dec_enc_num(s.len() as u64, spec_enc_sizes_entries(s) + rest);
    lemma_dec_enc_sizes_entries(s, rest);
}

proof fn lemma_dec_enc_profile(p: ProfileView, rest: Seq<char>)
    requires
        profile_bounded(p),
    ensures
        spec_dec_profile(spec_enc_profile(p) + rest) == Some((p, rest)),
{
    let x2 = spec_enc_sizes(p.sizes) + rest;
    let x1 = spec_enc_times(p.partial) + x2;
    assert(spec_enc_profile(p) + rest =~= spec_enc_times(p.full) + x1);
    lemma_dec_enc_times(p.full, x1);
    lemma_dec_enc_times(p.partial, x2);
    lemma_dec_enc_sizes(p.sizes, rest);
}

/// Loading a saved results snapshot yields back exactly the value that was
/// saved: decoding undoes encoding for every accumulated state.
pub proof fn lemma_results_round_trip(a: AllView)
    requires
        all_bounded(a),
    ensures
        spec_dec_all(spec_enc_all(a)) == Some(a),
{
    lemma_dec_enc_profile(a.debug, spec_enc_profile(a.release));
    lemma_dec_enc_profile(a.release, Seq::empty());
    assert(spec_enc_profile(a.release) + Seq::<char>::empty() =~= spec_enc_profile(a.release));
}

/// Loading a saved checkpoint yields back exactly the revision that was
/// saved: decoding undoes encoding for every revision identifier.
pub proof fn lemma_checkpoint_round_trip(rev: Seq<char>)
    requires
        rev.len() <= u64::MAX as nat,
    ensures
        spec_dec_checkpoint(spec_enc_checkpoint(rev)) == Some(rev),
{
    lemma_dec_enc_str(rev, Seq::empty());
    assert(spec_enc_checkpoint(rev) + Seq::<char>::empty() =~= spec_enc_checkpoint(rev));
    assert(spec_dec_str(spec_enc_checkpoint(rev)) == Some((rev, Seq::<char>::empty())));
}

fn enc_times_entries_from(m: &BuildTimes, i: usize, out: &mut String)
    requires
        i <= m.entries@.len(),
    ensures
        final(out)@ == old(out)@ + spec_enc_times_entries(m@.skip(i as int)),
    decreases m.entries@.len() - i,
{
    if i < m.entries.len() {
        let e = &m.entries[i];
        enc_str_into(&e.key, out);
        let c = e.samples.len();
        enc_num_into(c as u64, out);
        enc_nums_from(&e.samples, 0, out);
        proof {
            assert(e.samples@.skip(0) =~= e.samples@);
            assert(m@.skip(i as int)[0] == m@[i as int]);
            assert(m@.skip(i as int).skip(1) =~= m@.skip(i as int + 1));
        }
        enc_times_entries_from(m, i + 1, out);
        proof {
            assert(final(out)@ =~= old(out)@ + spec_enc_times_entries(m@.skip(i as int)));
        }
    } else {
        proof {
            assert(m@.skip(i as int).len() == 0);
            assert(final(out)@ =~= old(out)@ + spec_enc_times_entries(m@.skip(i as int)));
        }
    }
}

fn enc_times_into(m: &BuildTimes, out: &mut String)
    ensures
        final(out)@ == old(out)@ + spec_enc_times(m@),
{
    let c = m.entries.len();
    enc_num_into(c as u64, out);
    enc_times_entries_from(m, 0, out);
    proof {
        assert(m@.skip(0) =~= m@);
        assert(final(out)@ =~= old(out)@ + spec_enc_times(m@));
    }
}

fn enc_sizes_entries_from(m: &BinarySizes, i: usize, out: &mut String)
    requires
        i <= m.entries@.len(),
    ensures
        final(out)@ == old(out)@ + spec_enc_sizes_entries(m@.skip(i as int)),
    decreases m.entries@.len() - i,
{
    if i < m.entries.len() {
        let e = &m.entries[i];
        enc_str_into(&e.key, out);
        enc_num_into(e.size, out);
        proof {
            assert(m@.skip(i as int)[0] == m@[i as int]);
            assert(m@.skip(i as int).skip(1) =~= m@.skip(i as int + 1));
        }
        enc_sizes_entries_from(m, i + 1, out);
        proof {
            assert(final(out)@ =~= old(out)@ + spec_enc_sizes_entries(m@.skip(i as int)));
        }
    } else {
        proof {
            assert(m@.skip(i as int).len() == 0);
            assert(final(out)@ =~= old(out)@ + spec_enc_sizes_entries(m@.skip(i as int)));
        }
    }
}

fn enc_sizes_into(m: &BinarySizes, out: &mut String)
    ensures
        final(out)@ == old(out)@ + spec_enc_sizes(m@),
{
    let c = m.entries.len();
    enc_num_into(c as u64, out);
    enc_sizes_entries_from(m, 0, out);
    proof {
        assert(m@.skip(0) =~= m@);
        assert(final(out)@ =~= old(out)@ + spec_enc_sizes(m@));
    }
}

fn enc_profile_into(p: &ProfileResults, out: &mut String)
    ensures
        final(out)@ == old(out)@ + spec_enc_profile(p@),
{
    enc_times_into(&p.full_build_times, out);
    enc_times_into(&p.partial_build_times, out);
    enc_sizes_into(&p.binary_size, out);
    proof {
        assert(final(out)@ =~= old(out)@ + spec_enc_profile(p@));
    }
}

/// Encode the full results snapshot for persistence.
pub fn encode_results(r: &AllResults) -> (out: String)
    ensures
        out@ == spec_enc_all(r@),
{
    let mut out = String::new();
    enc_profile_into(&r.debug, &mut out);
    enc_profile_into(&r.release, &mut out);
    proof {
        assert(out@ =~= spec_enc_all(r@));
    }
    out
}

/// Encode the checkpointed revision for persistence.
pub fn encode_checkpoint(hash: &String) -> (out: String)
    ensures
        out@ == spec_enc_checkpoint(hash@),
{
    let mut out = String::new();
    enc_str_into(hash, &mut out);
    proof {
        assert(out@ =~= spec_enc_checkpoint(hash@));
    }
    out
}

fn dec_times_entry(s: &str, len: usize, pos: usize) -> (r: Result<(TimesEntry, usize), BenchError>)
    requires
        len as nat == s@.len(),
        pos <= len,
    ensures
        match r {
            Ok(ep) => pos <= ep.1 <= len && spec_dec_times_entry(s@.skip(pos as int)) == Some((
                ep.0@,
                s@.skip(ep.1 as int),
            )),
            Err(e) => e == BenchError::CorruptState && spec_dec_times_entry(
                s@.skip(pos as int),
            ) is None,
        },
{
    match dec_str(s, len, pos) {
        Err(e) => Err(e),
        Ok((k, p1)) => match dec_num(s, len, p1) {
            Err(e) => Err(e),
            Ok((cnt, p2)) => match dec_nums(s, len, p2, cnt) {
                Err(e) => Err(e),
                Ok((v, p3)) => Ok((TimesEntry { key: k, samples: v }, p3)),
            },
        },
    }
}

fn dec_times_entries(s: &str, len: usize, pos: usize, count: u64) -> (r: Result<
    (Vec<TimesEntry>, usize),
    BenchError,
>)
    requires
        len as nat == s@.len(),
        pos <= len,
    ensures
        match r {
            Ok(vp) => pos <= vp.1 <= len && spec_dec_times_entries(s@.skip(pos as int), count)
                == Some((times_view(vp.0@), s@.skip(vp.1 as int))),
            Err(e) => e == BenchError::CorruptState && spec_dec_times_entries(
                s@.skip(pos as int),
                count,
            ) is None,
        },
    decreases count,
{
    if count == 0 {
        let v: Vec<TimesEntry> = Vec::new();
        proof {
            assert(times_view(v@) =~= Seq::<(Seq<char>, Seq<u64>)>::empty());
        }
        Ok((v, pos))
    } else {
        match dec_times_entry(s, len, pos) {
            Err(e) => Err(e),
            Ok((e, p1)) => match dec_times_entries(s, len, p1, count - 1) {
                Err(e2) => Err(e2),
                Ok((mut v, p2)) => {
                    let ghost pre = v@;
                    let ghost ev = e@;
                    v.insert(0, e);
                    proof {
                        assert(times_view(v@) =~~= seq![ev] + times_view(pre));
                    }
                    Ok((v, p2))
                },
            },
        }
    }
}

fn dec_times(s: &str, len: usize, pos: usize) -> (r: Result<(BuildTimes, usize), BenchError>)
    requires
        len as nat == s@.len(),
        pos <= len,
    ensures
        match r {
            Ok(mp) => pos <= mp.1 <= len && spec_dec_times(s@.skip(pos as int)) == Some((
                mp.0@,
                s@.skip(mp.1 as int),
            )),
            Err(e) => e == BenchError::CorruptState && spec_dec_times(s@.skip(pos as int)) is None,
        },
{
    match dec_num(s, len, pos) {
        Err(e) => Err(e),
        Ok((cnt, p1)) => match dec_times_entries(s, len, p1, cnt) {
            Err(e) => Err(e),
            Ok((v, p2)) => Ok((BuildTimes { entries: v }, p2)),
        },
    }
}

fn dec_sizes_entry(s: &str, len: usize, pos: usize) -> (r: Result<(SizeEntry, usize), BenchError>)
    requires
        len as nat == s@.len(),
        pos <= len,
    ensures
        match r {
            Ok(ep) => pos <= ep.1 <= len && spec_dec_sizes_entry(s@.skip(pos as int)) == Some((
                ep.0@,
                s@.skip(ep.1 as int),
            )),
            Err(e) => e == BenchError::CorruptState && spec_dec_sizes_entry(
                s@.skip(pos as int),
            ) is None,
        },
{
    match dec_str(s, len, pos) {
        Err(e) => Err(e),
        Ok((k, p1)) => match dec_num(s, len, p1) {
            Err(e) => Err(e),
            Ok((z, p2)) => Ok((SizeEntry { key: k, size: z }, p2)),
        },
    }
}

fn dec_sizes_entries(s: &str, len: usize, pos: usize, count: u64) -> (r: Result<
    (Vec<SizeEntry>, usize),
    BenchError,
>)
    requires
        len as nat == s@.len(),
        pos <= len,
    ensures
        match r {
            Ok(vp) => pos <= vp.1 <= len && spec_dec_sizes_entries(s@.skip(pos as int), count)
                == Some((sizes_view(vp.0@), s@.skip(vp.1 as int))),
            Err(e) => e == BenchError::CorruptState && spec_dec_sizes_entries(
                s@.skip(pos as int),
                count,
            ) is None,
        },
    decreases count,
{
    if count == 0 {
        let v: Vec<SizeEntry> = Vec::new();
        proof {
            assert(sizes_view(v@) =~= Seq::<(Seq<char>, u64)>::empty());
        }
        Ok((v, pos))
    } else {
        match dec_sizes_entry(s, len, pos) {
            Err(e) => Err(e),
            Ok((e, p1)) => match dec_sizes_entries(s, len, p1, count - 1) {
                Err(e2) => Err(e2),
                Ok((mut v, p2)) => {
                    let ghost pre = v@;
                    let ghost ev = e@;
                    v.insert(0, e);
                    proof {
                        assert(sizes_view(v@) =~~= seq![ev] + sizes_view(pre));
                    }
                    Ok((v, p2))
                },
            },
        }
    }
}

fn dec_sizes(s: &str, len: usize, pos: usize) -> (r: Result<(BinarySizes, usize), BenchError>)
    requires
        len as nat == s@.len(),
        pos <= len,
    ensures
        match r {
            Ok(mp) => pos <= mp.1 <= len && spec_dec_sizes(s@.skip(pos as int)) == Some((
                mp.0@,
                s@.skip(mp.1 as int),
            )),
            Err(e) => e == BenchError::CorruptState && spec_dec_sizes(s@.skip(pos as int)) is None,
        },
{
    match dec_num(s, len, pos) {
        Err(e) => Err(e),
        Ok((cnt, p1)) => match dec_sizes_entries(s, len, p1, cnt) {
            Err(e) => Err(e),
            Ok((v, p2)) => Ok((BinarySizes { entries: v }, p2)),
        },
    }
}

fn dec_profile(s: &str, len: usize, pos: usize) -> (r: Result<(ProfileResults, usize), BenchError>)
    requires
        len as nat == s@.len(),
        pos <= len,
    ensures
        match r {
            Ok(pp) => pos <= pp.1 <= len && spec_dec_profile(s@.skip(pos as int)) == Some((
                pp.0@,
                s@.skip(pp.1 as int),
            )),
            Err(e) => e == BenchError::CorruptState && spec_dec_profile(
                s@.skip(pos as int),
            ) is None,
        },
{
    match dec_times(s, len, pos) {
        Err(e) => Err(e),
        Ok((f, p1)) => match dec_times(s, len, p1) {
            Err(e) => Err(e),
            Ok((pt, p2)) => match dec_sizes(s, len, p2) {
                Err(e) => Err(e),
                Ok((z, p3)) => Ok((
                    ProfileResults {
                        full_build_times: f,
                        partial_build_times: pt,
                        binary_size: z,
                    },
                    p3,
                )),
            },
        },
    }
}

/// Decode a persisted results snapshot, or report it as corrupt.
pub fn decode_results(text: &str) -> (r: Result<AllResults, BenchError>)
    ensures
        match r {
            Ok(a) => spec_dec_all(text@) == Some(a@),
            Err(e) => e == BenchError::CorruptState && spec_dec_all(text@) is None,
        },
{
    let len = text.unicode_len();
    proof {
        assert(text@.skip(0) =~= text@);
    }
    match dec_profile(text, len, 0) {
        Err(e) => Err(e),
        Ok((d, p1)) => match dec_profile(text, len, p1) {
            Err(e) => Err(e),
            Ok((rl, p2)) => {
                if p2 == len {
                    proof {
                        assert(text@.skip(p2 as int).len() == 0);
                    }
                    Ok(AllResults { debug: d, release: rl })
                } else {
                    proof {
                        assert(text@.skip(p2 as int).len() > 0);
                    }
                    Err(BenchError::CorruptState)
                }
            },
        },
    }
}

/// Decode a persisted checkpoint, or report it as corrupt.
pub fn decode_checkpoint(text: &str) -> (r: Result<String, BenchError>)
    ensures
        match r {
            Ok(t) => spec_dec_checkpoint(text@) == Some(t@),
            Err(e) => e == BenchError::CorruptState && spec_dec_checkpoint(text@) is None,
        },
{
    let len = text.unicode_len();
    proof {
        assert(text@.skip(0) =~= text@);
    }
    match dec_str(text, len, 0) {
        Err(e) => Err(e),
        Ok((t, p)) => {
            if p == len {
                proof {
                    assert(text@.skip(p as int).len() == 0);
                }
                Ok(t)
            } else {
                proof {
                    assert(text@.skip(p as int).len() > 0);
                }
                Err(BenchError::CorruptState)
            }
        },
    }
}

} // verus!
