//! The statistics aggregate: per-compression-code byte counters plus global
//! counts, with an associative, commutative merge so that per-thread
//! instances can be folded into one run-wide report in any order.

use vstd::prelude::*;

verus! {

/// A compression algorithm code as recorded on an extent
/// (0 = none, 1 = zlib, 2 = lzo, 3 = zstd, anything else unknown).
#[derive(Clone, Copy, Debug, PartialEq, Eq, Structural)]
pub struct CompressionType(pub u8);

/// Byte totals of one compression bucket.
#[derive(Clone, Copy, Debug, PartialEq, Eq, Structural)]
pub struct ExtentInfo {
    pub disk_bytes: u64,
    pub uncompressed_bytes: u64,
    pub referenced_bytes: u64,
}

impl Default for ExtentInfo {
    /// An empty bucket.
    fn default() -> (r: Self)
        ensures
            r.disk_bytes == 0,
            r.uncompressed_bytes == 0,
            r.referenced_bytes == 0,
    {
        ExtentInfo { disk_bytes: 0, uncompressed_bytes: 0, referenced_bytes: 0 }
    }
}

/// The mathematical value of one bucket.
#[verifier::ext_equal]
pub ghost struct Totals {
    pub disk: int,
    pub unc: int,
    pub refd: int,
}

/// The mathematical value of a whole `Statistic`.
#[verifier::ext_equal]
pub ghost struct StatView {
    pub n_files: int,
    pub n_extents: int,
    pub n_refs: int,
    pub n_inline: int,
    pub buckets: Map<u8, Totals>,
}

pub open spec fn totals_of(e: ExtentInfo) -> Totals {
    Totals {
        disk: e.disk_bytes as int,
        unc: e.uncompressed_bytes as int,
        refd: e.referenced_bytes as int,
    }
}

pub open spec fn zero_totals() -> Totals {
    Totals { disk: 0, unc: 0, refd: 0 }
}

pub open spec fn add_totals(a: Totals, b: Totals) -> Totals {
    Totals { disk: a.disk + b.disk, unc: a.unc + b.unc, refd: a.refd + b.refd }
}

/// The bucket of `m` at code `c`, empty when the code has no bucket yet.
pub open spec fn get_or_zero(m: Map<u8, Totals>, c: u8) -> Totals {
    if m.dom().contains(c) {
        m[c]
    } else {
        zero_totals()
    }
}

/// The bucket mapping an association list denotes.
pub open spec fn assoc_map(s: Seq<(CompressionType, ExtentInfo)>) -> Map<u8, Totals>
    decreases s.len(),
{
    if s.len() == 0 {
        Map::empty()
    } else {
        assoc_map(s.drop_last()).insert(s.last().0.0, totals_of(s.last().1))
    }
}

/// Each compression code appears at most once in the list.
pub open spec fn unique_keys(s: Seq<(CompressionType, ExtentInfo)>) -> bool {
    forall|i: int, j: int| 0 <= i < j < s.len() ==> (#[trigger] s[i]).0.0 != (#[trigger] s[j]).0.0
}

/// Whether code `c` appears in the list.
pub open spec fn key_in(s: Seq<(CompressionType, ExtentInfo)>, c: u8) -> bool {
    exists|i: int| 0 <= i < s.len() && (#[trigger] s[i]).0.0 == c
}

/// Total referenced bytes summed over the list's buckets.
pub open spec fn seq_refd_total(s: Seq<(CompressionType, ExtentInfo)>) -> int
    decreases s.len(),
{
    if s.len() == 0 {
        0
    } else {
        seq_refd_total(s.drop_last()) + s.last().1.referenced_bytes
    }
}

/// A code is in the denoted map exactly when it appears in the list.
pub proof fn lemma_assoc_map_dom(s: Seq<(CompressionType, ExtentInfo)>, c: u8)
    ensures
        assoc_map(s).dom().contains(c) <==> key_in(s, c),
    decreases s.len(),
{
    if s.len() > 0 {
        lemma_assoc_map_dom(s.drop_last(), c);
        if key_in(s.drop_last(), c) {
            let i = choose|i: int| 0 <= i < s.drop_last().len() && (#[trigger] s.drop_last()[i]).0.0
                == c;
            assert(s[i].0.0 == c);
        }
        if key_in(s, c) && s.last().0.0 != c {
            let i = choose|i: int| 0 <= i < s.len() && (#[trigger] s[i]).0.0 == c;
            assert(s.drop_last()[i].0.0 == c);
        }
    }
}

/// With unique keys, the entry at index `i` gives the denoted bucket of its code.
pub proof fn lemma_assoc_map_index(s: Seq<(CompressionType, ExtentInfo)>, i: int)
    requires
        unique_keys(s),
        0 <= i < s.len(),
    ensures
        assoc_map(s).dom().contains(s[i].0.0),
        assoc_map(s)[s[i].0.0] == totals_of(s[i].1),
    decreases s.len(),
{
    if i == s.len() - 1 {
        assert(s[i] == s.last());
    } else {
        assert(unique_keys(s.drop_last())) by {
            assert(forall|x: int, y: int|
                0 <= x < y < s.drop_last().len() ==> (#[trigger] s.drop_last()[x]).0.0 != (
                #[trigger] s.drop_last()[y]).0.0) by {
                assert(forall|x: int|
                    0 <= x < s.drop_last().len() ==> #[trigger] s.drop_last()[x] == s[x]);
            }
        }
        assert(s.drop_last()[i] == s[i]);
        lemma_assoc_map_index(s.drop_last(), i);
        assert(s[i].0.0 != s.last().0.0);
    }
}

/// Appending an entry for a fresh code inserts its bucket.
pub proof fn lemma_assoc_map_push(
    s: Seq<(CompressionType, ExtentInfo)>,
    c: CompressionType,
    v: ExtentInfo,
)
    ensures
        assoc_map(s.push((c, v))) == assoc_map(s).insert(c.0, totals_of(v)),
        seq_refd_total(s.push((c, v))) == seq_refd_total(s) + v.referenced_bytes,
{
    assert(s.push((c, v)).drop_last() =~= s);
    assert(s.push((c, v)).last() == (c, v));
}

/// Replacing the entry at `i` re-points its code at the new bucket.
pub proof fn lemma_assoc_map_update(s: Seq<(CompressionType, ExtentInfo)>, i: int, v: ExtentInfo)
    requires
        unique_keys(s),
        0 <= i < s.len(),
    ensures
        assoc_map(s.update(i, (s[i].0, v))) =~= assoc_map(s).insert(s[i].0.0, totals_of(v)),
        seq_refd_total(s.update(i, (s[i].0, v))) == seq_refd_total(s) - s[i].1.referenced_bytes
            + v.referenced_bytes,
        unique_keys(s.update(i, (s[i].0, v))),
    decreases s.len(),
{
    let t = s.update(i, (s[i].0, v));
    assert(unique_keys(t)) by {
        assert(forall|x: int| 0 <= x < t.len() ==> (#[trigger] t[x]).0.0 == s[x].0.0);
    }
    if i == s.len() - 1 {
        assert(t.drop_last() =~= s.drop_last());
        assert(t.last() == (s[i].0, v));
        assert(assoc_map(t) =~= assoc_map(s).insert(s[i].0.0, totals_of(v)));
    } else {
        assert(unique_keys(s.drop_last())) by {
            assert(forall|x: int|
                0 <= x < s.drop_last().len() ==> #[trigger] s.drop_last()[x] == s[x]);
        }
        assert(t.drop_last() =~= s.drop_last().update(i, (s[i].0, v)));
        assert(s.drop_last()[i] == s[i]);
        lemma_assoc_map_update(s.drop_last(), i, v);
        assert(t.last() == s.last());
        assert(s[i].0.0 != s.last().0.0);
        assert(assoc_map(t) =~= assoc_map(s).insert(s[i].0.0, totals_of(v)));
    }
}

} // verus!

verus! {

/// Per-compression-code byte totals plus global counts; one instance per
/// worker during a walk, merged pairwise into the final report.
///
/// Buckets are kept as an association list with unique codes; its
/// mathematical value is the bucket mapping it denotes.
#[derive(Clone, Debug)]
pub struct Statistic {
    pub extent_info: Vec<(CompressionType, ExtentInfo)>,
    pub n_files: usize,
    pub n_extents: usize,
    pub n_refs: usize,
    pub n_inline: usize,
}

impl View for Statistic {
    type V = StatView;

    open spec fn view(&self) -> StatView {
        StatView {
            n_files: self.n_files as int,
            n_extents: self.n_extents as int,
            n_refs: self.n_refs as int,
            n_inline: self.n_inline as int,
            buckets: assoc_map(self.extent_info@),
        }
    }
}

impl Default for Statistic {
    /// Empty statistics: no files, no extents, no buckets.
    fn default() -> (r: Self)
        ensures
            r.wf(),
            r@ == empty_stat_view(),
            r.extent_info@.len() == 0,
    {
        let r = Statistic {
            extent_info: Vec::new(),
            n_files: 0,
            n_extents: 0,
            n_refs: 0,
            n_inline: 0,
        };
        proof {
            assert(r@.buckets =~= empty_stat_view().buckets);
            assert(r@ =~= empty_stat_view());
        }
        r
    }
}

pub open spec fn empty_stat_view() -> StatView {
    StatView { n_files: 0, n_extents: 0, n_refs: 0, n_inline: 0, buckets: Map::empty() }
}

/// Merge of two bucket mappings: codes present in either side, matching
/// buckets summed.
pub open spec fn merged_buckets(a: Map<u8, Totals>, b: Map<u8, Totals>) -> Map<u8, Totals> {
    Map::new(
        |c: u8| a.dom().contains(c) || b.dom().contains(c),
        |c: u8| add_totals(get_or_zero(a, c), get_or_zero(b, c)),
    )
}

/// Merge of two statistics: every scalar counter summed, buckets merged.
pub open spec fn merged(a: StatView, b: StatView) -> StatView {
    StatView {
        n_files: a.n_files + b.n_files,
        n_extents: a.n_extents + b.n_extents,
        n_refs: a.n_refs + b.n_refs,
        n_inline: a.n_inline + b.n_inline,
        buckets: merged_buckets(a.buckets, b.buckets),
    }
}

/// Merging statistics is commutative.
pub proof fn lemma_merge_commutative(a: StatView, b: StatView)
    ensures
        merged(a, b) == merged(b, a),
{
    assert(merged_buckets(a.buckets, b.buckets) =~= merged_buckets(b.buckets, a.buckets));
    assert(merged(a, b) =~= merged(b, a));
}

/// Merging statistics is associative.
pub proof fn lemma_merge_associative(a: StatView, b: StatView, c: StatView)
    ensures
        merged(merged(a, b), c) == merged(a, merged(b, c)),
{
    assert(merged_buckets(merged_buckets(a.buckets, b.buckets), c.buckets) =~= merged_buckets(
        a.buckets,
        merged_buckets(b.buckets, c.buckets),
    ));
    assert(merged(merged(a, b), c) =~= merged(a, merged(b, c)));
}

/// Merging per-worker statistics in any order yields identical totals:
/// the two-sided regroupings of three statistics all agree.
pub proof fn lemma_merge_order_irrelevant(a: StatView, b: StatView, c: StatView)
    ensures
        merged(merged(a, b), c) == merged(a, merged(b, c)),
        merged(merged(a, b), c) == merged(b, merged(a, c)),
{
    lemma_merge_associative(a, b, c);
    lemma_merge_commutative(a, b);
    lemma_merge_associative(b, a, c);
}

/// The empty statistic is the merge identity.
pub proof fn lemma_merge_identity(a: StatView)
    ensures
        merged(empty_stat_view(), a) == a,
        merged(a, empty_stat_view()) == a,
{
    assert(merged_buckets(empty_stat_view().buckets, a.buckets) =~= a.buckets);
    assert(merged(empty_stat_view(), a) =~= a);
    lemma_merge_commutative(a, empty_stat_view());
}

impl Statistic {
    /// The bucket list holds each compression code at most once.
    pub open spec fn wf(self) -> bool {
        unique_keys(self.extent_info@)
    }

    /// Adds byte deltas to the bucket of code `c`, creating the bucket when
    /// the code has not been seen; every other part of the statistic is kept.
    pub fn bucket_add(&mut self, c: CompressionType, disk: u64, unc: u64, refd: u64)
        requires
            old(self).wf(),
            get_or_zero(old(self)@.buckets, c.0).disk + disk <= u64::MAX,
            get_or_zero(old(self)@.buckets, c.0).unc + unc <= u64::MAX,
            get_or_zero(old(self)@.buckets, c.0).refd + refd <= u64::MAX,
        ensures
            final(self).wf(),
            final(self)@ == (StatView {
                buckets: old(self)@.buckets.insert(
                    c.0,
                    add_totals(
                        get_or_zero(old(self)@.buckets, c.0),
                        Totals { disk: disk as int, unc: unc as int, refd: refd as int },
                    ),
                ),
                ..old(self)@
            }),
            seq_refd_total(final(self).extent_info@) == seq_refd_total(old(self).extent_info@)
                + refd,
    {
        let ghost s0 = self.extent_info@;
        let n = self.extent_info.len();
        let mut i: usize = 0;
        while i < n
            invariant
                *self == *old(self),
                old(self).wf(),
                get_or_zero(old(self)@.buckets, c.0).disk + disk <= u64::MAX,
                get_or_zero(old(self)@.buckets, c.0).unc + unc <= u64::MAX,
                get_or_zero(old(self)@.buckets, c.0).refd + refd <= u64::MAX,
                n == self.extent_info@.len(),
                i <= n,
                forall|j: int| 0 <= j < i ==> (#[trigger] self.extent_info@[j]).0.0 != c.0,
            decreases n - i,
        {
            let entry = self.extent_info[i];
            if entry.0.0 == c.0 {
                proof {
                    lemma_assoc_map_index(self.extent_info@, i as int);
                }
                let updated = ExtentInfo {
                    disk_bytes: entry.1.disk_bytes + disk,
                    uncompressed_bytes: entry.1.uncompressed_bytes + unc,
                    referenced_bytes: entry.1.referenced_bytes + refd,
                };
                proof {
                    lemma_assoc_map_update(self.extent_info@, i as int, updated);
                }
                self.extent_info[i] = (entry.0, updated);
                proof {
                    assert(final(self)@ =~= (StatView {
                        buckets: old(self)@.buckets.insert(
                            c.0,
                            add_totals(
                                get_or_zero(old(self)@.buckets, c.0),
                                Totals { disk: disk as int, unc: unc as int, refd: refd as int },
                            ),
                        ),
                        ..old(self)@
                    }));
                }
                return ;
            }
            i = i + 1;
        }
        proof {
            lemma_assoc_map_dom(self.extent_info@, c.0);
            assert(!key_in(self.extent_info@, c.0));
            lemma_assoc_map_push(
                self.extent_info@,
                c,
                ExtentInfo { disk_bytes: disk, uncompressed_bytes: unc, referenced_bytes: refd },
            );
        }
        self.extent_info.push(
            (c, ExtentInfo { disk_bytes: disk, uncompressed_bytes: unc, referenced_bytes: refd }),
        );
        proof {
            assert(unique_keys(final(self).extent_info@)) by {
                assert(forall|j: int|
                    0 <= j < s0.len() ==> #[trigger] final(self).extent_info@[j] == s0[j]);
            }
            assert(final(self)@ =~= (StatView {
                buckets: old(self)@.buckets.insert(
                    c.0,
                    add_totals(
                        get_or_zero(old(self)@.buckets, c.0),
                        Totals { disk: disk as int, unc: unc as int, refd: refd as int },
                    ),
                ),
                ..old(self)@
            }));
        }
    }
}

} // verus!

verus! {

/// Merging against a side extended by a fresh bucket inserts that bucket,
/// summed with the other side's.
pub proof fn lemma_merged_buckets_insert(
    m1: Map<u8, Totals>,
    m2: Map<u8, Totals>,
    c: u8,
    t: Totals,
)
    ensures
        merged_buckets(m1, m2.insert(c, t)) == merged_buckets(m1, m2).insert(
            c,
            add_totals(get_or_zero(m1, c), t),
        ),
{
    assert(merged_buckets(m1, m2.insert(c, t)) =~= merged_buckets(m1, m2).insert(
        c,
        add_totals(get_or_zero(m1, c), t),
    ));
}

impl Statistic {
    /// Folds `rhs` into `self`: every scalar counter summed, matching
    /// buckets summed, buckets present only in `rhs` inserted. This is the
    /// merge applied once per worker at pool-drain time; by
    /// [`lemma_merge_commutative`] and [`lemma_merge_associative`] the order
    /// of the folds cannot change the final value.
    pub fn add_assign(&mut self, rhs: &Statistic)
        requires
            old(self).wf(),
            rhs.wf(),
            old(self).n_files + rhs.n_files <= usize::MAX,
            old(self).n_extents + rhs.n_extents <= usize::MAX,
            old(self).n_refs + rhs.n_refs <= usize::MAX,
            old(self).n_inline + rhs.n_inline <= usize::MAX,
            forall|c: u8|
                get_or_zero(old(self)@.buckets, c).disk + get_or_zero(rhs@.buckets, c).disk
                    <= u64::MAX && get_or_zero(old(self)@.buckets, c).unc + get_or_zero(
                    rhs@.buckets,
                    c,
                ).unc <= u64::MAX && get_or_zero(old(self)@.buckets, c).refd + get_or_zero(
                    rhs@.buckets,
                    c,
                ).refd <= u64::MAX,
        ensures
            final(self).wf(),
            final(self)@ == merged(old(self)@, rhs@),
    {
        let ghost m1 = old(self)@.buckets;
        let ghost t = rhs.extent_info@;
        self.n_files = self.n_files + rhs.n_files;
        self.n_extents = self.n_extents + rhs.n_extents;
        self.n_refs = self.n_refs + rhs.n_refs;
        self.n_inline = self.n_inline + rhs.n_inline;
        proof {
            assert(t.take(0) =~= Seq::<(CompressionType, ExtentInfo)>::empty());
            assert(self@.buckets =~= merged_buckets(m1, assoc_map(t.take(0))));
        }
        let n = rhs.extent_info.len();
        let mut i: usize = 0;
        while i < n
            invariant
                self.wf(),
                rhs.wf(),
                t == rhs.extent_info@,
                m1 == old(self)@.buckets,
                n == t.len(),
                i <= n,
                self@.n_files == old(self)@.n_files + rhs@.n_files,
                self@.n_extents == old(self)@.n_extents + rhs@.n_extents,
                self@.n_refs == old(self)@.n_refs + rhs@.n_refs,
                self@.n_inline == old(self)@.n_inline + rhs@.n_inline,
                self@.buckets == merged_buckets(m1, assoc_map(t.take(i as int))),
                forall|c: u8|
                    get_or_zero(m1, c).disk + get_or_zero(rhs@.buckets, c).disk <= u64::MAX
                        && get_or_zero(m1, c).unc + get_or_zero(rhs@.buckets, c).unc <= u64::MAX
                        && get_or_zero(m1, c).refd + get_or_zero(rhs@.buckets, c).refd <= u64::MAX,
            decreases n - i,
        {
            let entry = rhs.extent_info[i];
            let ghost part = assoc_map(t.take(i as int));
            proof {
                lemma_assoc_map_index(t, i as int);
                lemma_assoc_map_dom(t.take(i as int), entry.0.0);
                if key_in(t.take(i as int), entry.0.0) {
                    let j = choose|j: int|
                        0 <= j < t.take(i as int).len() && (#[trigger] t.take(i as int)[j]).0.0
                            == entry.0.0;
                    assert(t[j].0.0 == t[i as int].0.0);
                    assert(false);
                }
                assert(get_or_zero(merged_buckets(m1, part), entry.0.0) == get_or_zero(
                    m1,
                    entry.0.0,
                ));
                assert(get_or_zero(rhs@.buckets, entry.0.0) == totals_of(entry.1));
            }
            self.bucket_add(
                entry.0,
                entry.1.disk_bytes,
                entry.1.uncompressed_bytes,
                entry.1.referenced_bytes,
            );
            proof {
                lemma_assoc_map_push(t.take(i as int), entry.0, entry.1);
                assert(t.take(i as int).push(entry) =~= t.take(i + 1));
                lemma_merged_buckets_insert(m1, part, entry.0.0, totals_of(entry.1));
                assert(add_totals(
                    get_or_zero(m1, entry.0.0),
                    Totals {
                        disk: entry.1.disk_bytes as int,
                        unc: entry.1.uncompressed_bytes as int,
                        refd: entry.1.referenced_bytes as int,
                    },
                ) == add_totals(get_or_zero(m1, entry.0.0), totals_of(entry.1)));
            }
            i = i + 1;
        }
        proof {
            assert(t.take(n as int) =~= t);
            assert(self@ =~= merged(old(self)@, rhs@));
        }
    }
}

} // verus!

verus! {

/// Every bucket of a real statistic was decoded from `u64` counters, so its
/// mathematical totals stay within the carrier.
pub proof fn lemma_buckets_bounded(st: Statistic, c: u8)
    requires
        st.wf(),
    ensures
        0 <= get_or_zero(st@.buckets, c).disk <= u64::MAX,
        0 <= get_or_zero(st@.buckets, c).unc <= u64::MAX,
        0 <= get_or_zero(st@.buckets, c).refd <= u64::MAX,
{
    lemma_assoc_map_dom(st.extent_info@, c);
    if key_in(st.extent_info@, c) {
        let i = choose|i: int|
            0 <= i < st.extent_info@.len() && (#[trigger] st.extent_info@[i]).0.0 == c;
        lemma_assoc_map_index(st.extent_info@, i);
    }
}

} // verus!

verus! {

impl Statistic {
    /// The byte totals recorded for compression code `c`, all zero when the
    /// code has no bucket yet.
    pub fn bucket_totals(&self, c: CompressionType) -> (r: ExtentInfo)
        requires
            self.wf(),
        ensures
            totals_of(r) == get_or_zero(self@.buckets, c.0),
    {
        let n = self.extent_info.len();
        let mut i: usize = 0;
        while i < n
            invariant
                self.wf(),
                n == self.extent_info@.len(),
                i <= n,
                forall|j: int| 0 <= j < i ==> (#[trigger] self.extent_info@[j]).0.0 != c.0,
            decreases n - i,
        {
            let entry = self.extent_info[i];
            if entry.0.0 == c.0 {
                proof {
                    lemma_assoc_map_index(self.extent_info@, i as int);
                }
                return entry.1;
            }
            i = i + 1;
        }
        proof {
            lemma_assoc_map_dom(self.extent_info@, c.0);
            if key_in(self.extent_info@, c.0) {
                let j = choose|j: int|
                    0 <= j < self.extent_info@.len() && (#[trigger] self.extent_info@[j]).0.0
                        == c.0;
                assert(false);
            }
        }
        ExtentInfo { disk_bytes: 0, uncompressed_bytes: 0, referenced_bytes: 0 }
    }
}

} // verus!
