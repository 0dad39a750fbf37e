use vstd::prelude::*;

verus! {

/// One revision's ordered duration samples under one mapping.
#[derive(Clone, Debug, PartialEq, Eq)]
pub struct TimesEntry {
    pub key: String,
    pub samples: Vec<u64>,
}

impl View for TimesEntry {
    type V = (Seq<char>, Seq<u64>);

    open spec fn view(&self) -> Self::V {
        (self.key@, self.samples@)
    }
}

/// Revision -> ordered sequence of duration samples (append-only),
/// kept as an association list in insertion order.
#[derive(Clone, Debug, PartialEq, Eq)]
pub struct BuildTimes {
    pub entries: Vec<TimesEntry>,
}

/// The spec-level contents of a sequence of duration entries.
pub open spec fn times_view(es: Seq<TimesEntry>) -> Seq<(Seq<char>, Seq<u64>)> {
    es.map_values(|e: TimesEntry| e@)
}

impl View for BuildTimes {
    type V = Seq<(Seq<char>, Seq<u64>)>;

    open spec fn view(&self) -> Self::V {
        times_view(self.entries@)
    }
}

/// One revision's binary size under one mapping.
#[derive(Clone, Debug, PartialEq, Eq)]
pub struct SizeEntry {
    pub key: String,
    pub size: u64,
}

impl View for SizeEntry {
    type V = (Seq<char>, u64);

    open spec fn view(&self) -> Self::V {
        (self.key@, self.size)
    }
}

/// Revision -> binary size in bytes (last write wins),
/// kept as an association list in insertion order.
#[derive(Clone, Debug, PartialEq, Eq)]
pub struct BinarySizes {
    pub entries: Vec<SizeEntry>,
}

/// The spec-level contents of a sequence of size entries.
pub open spec fn sizes_view(es: Seq<SizeEntry>) -> Seq<(Seq<char>, u64)> {
    es.map_values(|e: SizeEntry| e@)
}

impl View for BinarySizes {
    type V = Seq<(Seq<char>, u64)>;

    open spec fn view(&self) -> Self::V {
        sizes_view(self.entries@)
    }
}

/// The samples recorded for key `k`, or `None` if `k` has no entry.
pub open spec fn times_lookup(s: Seq<(Seq<char>, Seq<u64>)>, k: Seq<char>) -> Option<Seq<u64>>
    decreases s.len(),
{
    if s.len() == 0 {
        None
    } else if s[0].0 == k {
        Some(s[0].1)
    } else {
        times_lookup(s.skip(1), k)
    }
}

/// Append one duration sample for key `k`, creating the entry if absent.
pub open spec fn times_insert(
    s: Seq<(Seq<char>, Seq<u64>)>,
    k: Seq<char>,
    d: u64,
) -> Seq<(Seq<char>, Seq<u64>)>
    decreases s.len(),
{
    if s.len() == 0 {
        seq![(k, seq![d])]
    } else if s[0].0 == k {
        seq![(s[0].0, s[0].1 + seq![d])] + s.skip(1)
    } else {
        seq![s[0]] + times_insert(s.skip(1), k, d)
    }
}

/// The size recorded for key `k`, or `None` if `k` has no entry.
pub open spec fn sizes_lookup(s: Seq<(Seq<char>, u64)>, k: Seq<char>) -> Option<u64>
    decreases s.len(),
{
    if s.len() == 0 {
        None
    } else if s[0].0 == k {
        Some(s[0].1)
    } else {
        sizes_lookup(s.skip(1), k)
    }
}

/// Overwrite the size for key `k`, creating the entry if absent.
pub open spec fn sizes_insert(
    s: Seq<(Seq<char>, u64)>,
    k: Seq<char>,
    z: u64,
) -> Seq<(Seq<char>, u64)>
    decreases s.len(),
{
    if s.len() == 0 {
        seq![(k, z)]
    } else if s[0].0 == k {
        seq![(s[0].0, z)] + s.skip(1)
    } else {
        seq![s[0]] + sizes_insert(s.skip(1), k, z)
    }
}

proof fn lemma_times_insert_found(s: Seq<(Seq<char>, Seq<u64>)>, k: Seq<char>, d: u64, i: int)
    requires
        0 <= i < s.len(),
        s[i].0 == k,
        forall|j: int| 0 <= j < i ==> s[j].0 != k,
    ensures
        times_insert(s, k, d) =~= s.update(i, (s[i].0, s[i].1 + seq![d])),
    decreases i,
{
    if i == 0 {
        assert(times_insert(s, k, d) =~= s.update(0, (s[0].0, s[0].1 + seq![d])));
    } else {
        lemma_times_insert_found(s.skip(1), k, d, i - 1);
        assert(times_insert(s, k, d) =~= s.update(i, (s[i].0, s[i].1 + seq![d])));
    }
}

proof fn lemma_times_insert_absent(s: Seq<(Seq<char>, Seq<u64>)>, k: Seq<char>, d: u64)
    requires
        forall|j: int| 0 <= j < s.len() ==> s[j].0 != k,
    ensures
        times_insert(s, k, d) =~= s.push((k, seq![d])),
    decreases s.len(),
{
    if s.len() == 0 {
        assert(times_insert(s, k, d) =~= s.push((k, seq![d])));
    } else {
        lemma_times_insert_absent(s.skip(1), k, d);
        assert(times_insert(s, k, d) =~= s.push((k, seq![d])));
    }
}

proof fn lemma_sizes_insert_found(s: Seq<(Seq<char>, u64)>, k: Seq<char>, z: u64, i: int)
    requires
        0 <= i < s.len(),
        s[i].0 == k,
        forall|j: int| 0 <= j < i ==> s[j].0 != k,
    ensures
        sizes_insert(s, k, z) =~= s.update(i, (s[i].0, z)),
    decreases i,
{
    if i == 0 {
        assert(sizes_insert(s, k, z) =~= s.update(0, (s[0].0, z)));
    } else {
        lemma_sizes_insert_found(s.skip(1), k, z, i - 1);
        assert(sizes_insert(s, k, z) =~= s.update(i, (s[i].0, z)));
    }
}

proof fn lemma_sizes_insert_absent(s: Seq<(Seq<char>, u64)>, k: Seq<char>, z: u64)
    requires
        forall|j: int| 0 <= j < s.len() ==> s[j].0 != k,
    ensures
        sizes_insert(s, k, z) =~= s.push((k, z)),
    decreases s.len(),
{
    if s.len() == 0 {
        assert(sizes_insert(s, k, z) =~= s.push((k, z)));
    } else {
        lemma_sizes_insert_absent(s.skip(1), k, z);
        assert(sizes_insert(s, k, z) =~= s.push((k, z)));
    }
}

/// Appending a sample for `k` appends to `k`'s sample sequence (creating it
/// from nothing if absent) and leaves every other key's samples unchanged.
pub proof fn lemma_times_insert_lookup(
    s: Seq<(Seq<char>, Seq<u64>)>,
    k: Seq<char>,
    d: u64,
    k2: Seq<char>,
)
    ensures
        times_lookup(times_insert(s, k, d), k) == (match times_lookup(s, k) {
            Some(v) => Some(v + seq![d]),
            None => Some(seq![d]),
        }),
        k2 != k ==> times_lookup(times_insert(s, k, d), k2) == times_lookup(s, k2),
    decreases s.len(),
{
    let t = times_insert(s, k, d);
    if s.len() == 0 {
        assert(t == seq![(k, seq![d])]);
        assert(t[0].0 == k);
        if k2 != k {
            assert(times_lookup(t, k2) == times_lookup(t.skip(1), k2));
            assert(t.skip(1).len() == 0);
        }
    } else if s[0].0 == k {
        assert(t[0] == (s[0].0, s[0].1 + seq![d]));
        assert(t.skip(1) =~= s.skip(1));
        if k2 != k {
            assert(times_lookup(t, k2) == times_lookup(t.skip(1), k2));
            assert(times_lookup(s, k2) == times_lookup(s.skip(1), k2));
        }
    } else {
        lemma_times_insert_lookup(s.skip(1), k, d, k2);
        assert(t[0] == s[0]);
        assert(t.skip(1) =~= times_insert(s.skip(1), k, d));
        if t[0].0 == k2 {
            assert(times_lookup(t, k2) == Some(t[0].1));
            assert(times_lookup(s, k2) == Some(s[0].1));
        } else {
            assert(times_lookup(t, k2) == times_lookup(t.skip(1), k2));
            assert(times_lookup(s, k2) == times_lookup(s.skip(1), k2));
        }
    }
}

/// Overwriting the size for `k` makes `k`'s recorded size the new value
/// (whether or not one was present) and leaves every other key unchanged.
pub proof fn lemma_sizes_insert_lookup(
    s: Seq<(Seq<char>, u64)>,
    k: Seq<char>,
    z: u64,
    k2: Seq<char>,
)
    ensures
        sizes_lookup(sizes_insert(s, k, z), k) == Some(z),
        k2 != k ==> sizes_lookup(sizes_insert(s, k, z), k2) == sizes_lookup(s, k2),
    decreases s.len(),
{
    let t = sizes_insert(s, k, z);
    if s.len() == 0 {
        assert(t == seq![(k, z)]);
        assert(t[0].0 == k);
        if k2 != k {
            assert(sizes_lookup(t, k2) == sizes_lookup(t.skip(1), k2));
            assert(t.skip(1).len() == 0);
        }
    } else if s[0].0 == k {
        assert(t[0] == (s[0].0, z));
        assert(t.skip(1) =~= s.skip(1));
        if k2 != k {
            assert(sizes_lookup(t, k2) == sizes_lookup(t.skip(1), k2));
            assert(sizes_lookup(s, k2) == sizes_lookup(s.skip(1), k2));
        }
    } else {
        lemma_sizes_insert_lookup(s.skip(1), k, z, k2);
        assert(t[0] == s[0]);
        assert(t.skip(1) =~= sizes_insert(s.skip(1), k, z));
        if t[0].0 == k2 {
            assert(sizes_lookup(t, k2) == Some(t[0].1));
            assert(sizes_lookup(s, k2) == Some(s[0].1));
        } else {
            assert(sizes_lookup(t, k2) == sizes_lookup(t.skip(1), k2));
            assert(sizes_lookup(s, k2) == sizes_lookup(s.skip(1), k2));
        }
    }
}

/// Recording two duration samples for the same key yields that key's
/// sample sequence extended by both, in append order; recording two sizes
/// for the same key keeps only the second.
pub proof fn lemma_accumulation(
    s: Seq<(Seq<char>, Seq<u64>)>,
    z: Seq<(Seq<char>, u64)>,
    k: Seq<char>,
    d1: u64,
    d2: u64,
    z1: u64,
    z2: u64,
)
    ensures
        times_lookup(times_insert(times_insert(s, k, d1), k, d2), k) == (
        match times_lookup(s, k) {
            Some(v) => Some(v + seq![d1] + seq![d2]),
            None => Some(seq![d1, d2]),
        }),
        sizes_lookup(sizes_insert(sizes_insert(z, k, z1), k, z2), k) == Some(z2),
{
    lemma_times_insert_lookup(s, k, d1, k);
    lemma_times_insert_lookup(times_insert(s, k, d1), k, d2, k);
    lemma_sizes_insert_lookup(z, k, z1, k);
    lemma_sizes_insert_lookup(sizes_insert(z, k, z1), k, z2, k);
    if times_lookup(s, k) is None {
        assert(seq![d1] + seq![d2] =~= seq![d1, d2]);
    }
}

/// Append duration sample `d` for `hash`, creating the entry if absent.
pub fn insert(map: &mut BuildTimes, hash: &String, d: u64)
    ensures
        final(map)@ == times_insert(old(map)@, hash@, d),
{
    let n = map.entries.len();
    let mut i: usize = 0;
    while i < n
        invariant
            *map == *old(map),
            n == map.entries.len(),
            i <= n,
            forall|j: int| 0 <= j < i ==> map.entries@[j].key@ != hash@,
        decreases n - i,
    {
        if map.entries[i].key == *hash {
            proof {
                lemma_times_insert_found(map@, hash@, d, i as int);
            }
            map.entries[i].samples.push(d);
            proof {
                assert(map@ =~~= old(map)@.update(
                    i as int,
                    (old(map)@[i as int].0, old(map)@[i as int].1 + seq![d]),
                ));
            }
            return ;
        }
        i += 1;
    }
    proof {
        lemma_times_insert_absent(map@, hash@, d);
    }
    let mut samples: Vec<u64> = Vec::new();
    samples.push(d);
    map.entries.push(TimesEntry { key: hash.clone(), samples });
    proof {
        assert(map@ =~= old(map)@.push((hash@, seq![d])));
    }
}

/// Overwrite the binary size for `hash`, creating the entry if absent.
pub fn insert_size(map: &mut BinarySizes, hash: &String, z: u64)
    ensures
        final(map)@ == sizes_insert(old(map)@, hash@, z),
{
    let n = map.entries.len();
    let mut i: usize = 0;
    while i < n
        invariant
            *map == *old(map),
            n == map.entries.len(),
            i <= n,
            forall|j: int| 0 <= j < i ==> map.entries@[j].key@ != hash@,
        decreases n - i,
    {
        if map.entries[i].key == *hash {
            proof {
                lemma_sizes_insert_found(map@, hash@, z, i as int);
            }
            map.entries[i].size = z;
            proof {
                assert(map@ =~= old(map)@.update(
                    i as int,
                    (old(map)@[i as int].0, z),
                ));
            }
            return ;
        }
        i += 1;
    }
    proof {
        lemma_sizes_insert_absent(map@, hash@, z);
    }
    map.entries.push(SizeEntry { key: hash.clone(), size: z });
    proof {
        assert(map@ =~= old(map)@.push((hash@, z)));
    }
}

/// The spec-level contents of one build profile's results.
pub struct ProfileView {
    pub full: Seq<(Seq<char>, Seq<u64>)>,
    pub partial: Seq<(Seq<char>, Seq<u64>)>,
    pub sizes: Seq<(Seq<char>, u64)>,
}

/// The spec-level contents of the whole accumulated state.
pub struct AllView {
    pub debug: ProfileView,
    pub release: ProfileView,
}

/// Per build profile: full-build times, partial-build times, binary sizes.
#[derive(Clone, Debug, PartialEq, Eq)]
pub struct ProfileResults {
    pub full_build_times: BuildTimes,
    pub partial_build_times: BuildTimes,
    pub binary_size: BinarySizes,
}

impl View for ProfileResults {
    type V = ProfileView;

    open spec fn view(&self) -> ProfileView {
        ProfileView {
            full: self.full_build_times@,
            partial: self.partial_build_times@,
            sizes: self.binary_size@,
        }
    }
}

/// The full accumulated state of a benchmark run: one `ProfileResults`
/// for the debug profile and one for the release profile.
#[derive(Clone, Debug, PartialEq, Eq)]
pub struct AllResults {
    pub debug: ProfileResults,
    pub release: ProfileResults,
}

impl View for AllResults {
    type V = AllView;

    open spec fn view(&self) -> AllView {
        AllView { debug: self.debug@, release: self.release@ }
    }
}

/// A profile with all three mappings empty.
pub open spec fn empty_profile() -> ProfileView {
    ProfileView {
        full: Seq::empty(),
        partial: Seq::empty(),
        sizes: Seq::empty(),
    }
}

/// Record one revision's three measurements into a profile.
pub open spec fn record_profile(
    p: ProfileView,
    k: Seq<char>,
    full_d: u64,
    partial_d: u64,
    z: u64,
) -> ProfileView {
    ProfileView {
        full: times_insert(p.full, k, full_d),
        partial: times_insert(p.partial, k, partial_d),
        sizes: sizes_insert(p.sizes, k, z),
    }
}

impl ProfileResults {
    /// A profile with all three mappings empty.
    pub fn new() -> (r: Self)
        ensures
            r@ == empty_profile(),
    {
        let r = ProfileResults {
            full_build_times: BuildTimes { entries: Vec::new() },
            partial_build_times: BuildTimes { entries: Vec::new() },
            binary_size: BinarySizes { entries: Vec::new() },
        };
        proof {
            assert(r@.full =~= empty_profile().full);
            assert(r@.partial =~= empty_profile().partial);
            assert(r@.sizes =~= empty_profile().sizes);
        }
        r
    }

    /// Append the two duration samples for `hash` and overwrite its size.
    pub fn record(&mut self, hash: &String, full_d: u64, partial_d: u64, z: u64)
        ensures
            final(self)@ == record_profile(old(self)@, hash@, full_d, partial_d, z),
    {
        insert(&mut self.full_build_times, hash, full_d);
        insert(&mut self.partial_build_times, hash, partial_d);
        insert_size(&mut self.binary_size, hash, z);
    }
}

impl AllResults {
    /// Fresh empty accumulated state: both profiles empty.
    pub fn new() -> (r: Self)
        ensures
            r@.debug == empty_profile(),
            r@.release == empty_profile(),
    {
        AllResults { debug: ProfileResults::new(), release: ProfileResults::new() }
    }
}

} // verus!
