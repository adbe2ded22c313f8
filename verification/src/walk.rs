//! Per-file accumulation of extent records into statistics, and the
//! registry of physical extent ids that deduplicates extents shared between
//! files (or referenced twice by one file).
//!
//! Directory listing, file opening and the worker pool live in the
//! surrounding binary; it hands each file's decoded records to the
//! enumerator here. The registry is the one piece of state shared between
//! workers: the binary guards it with a lock, and only the "was newly
//! inserted" answer of [`SharedExtentRegistry::insert`] ever influences the
//! totals, so the final aggregate does not depend on thread interleaving.

use vstd::prelude::*;

use crate::btrfs::{btrfs_ioctl_search_args_v2_64KB, BtrfsFileExtentItem, BtrfsFileExtentType};
use crate::stats::{
    add_totals, get_or_zero, seq_refd_total, CompressionType, StatView, Statistic, Totals,
};

verus! {

/// The set of physical extent start addresses observed so far across the
/// whole run. Grows monotonically; entries are never removed.
pub struct SharedExtentRegistry {
    pub ids: Vec<u64>,
}

impl View for SharedExtentRegistry {
    type V = Set<u64>;

    open spec fn view(&self) -> Set<u64> {
        Set::new(|x: u64| self.ids@.contains(x))
    }
}

impl SharedExtentRegistry {
    /// An empty registry, created once before any work is dispatched.
    pub fn new() -> (r: Self)
        ensures
            r@ == Set::<u64>::empty(),
    {
        let r = SharedExtentRegistry { ids: Vec::new() };
        proof {
            assert(r@ =~= Set::<u64>::empty());
        }
        r
    }

    /// Records a physical extent id; true exactly when this is the first
    /// time the id has been seen. This check-and-insert is the sole signal
    /// deciding whether an extent's disk usage is counted.
    pub fn insert(&mut self, id: u64) -> (newly: bool)
        ensures
            newly == !old(self)@.contains(id),
            final(self)@ == old(self)@.insert(id),
    {
        let n = self.ids.len();
        let mut i: usize = 0;
        while i < n
            invariant
                *self == *old(self),
                n == self.ids@.len(),
                i <= n,
                forall|j: int| 0 <= j < i ==> self.ids@[j] != id,
            decreases n - i,
        {
            if self.ids[i] == id {
                proof {
                    assert(old(self)@.contains(id));
                    assert(old(self)@.insert(id) =~= old(self)@);
                }
                return false;
            }
            i = i + 1;
        }
        proof {
            assert(!old(self)@.contains(id));
        }
        self.ids.push(id);
        proof {
            let s_old = old(self).ids@;
            let s_new = self.ids@;
            assert forall|x: u64| s_new.contains(x) implies (s_old.contains(x) || x == id) by {
                let j = choose|j: int| 0 <= j < s_new.len() && s_new[j] == x;
                if j < s_old.len() {
                    assert(s_old[j] == x);
                }
            };
            assert forall|x: u64| s_old.contains(x) || x == id implies s_new.contains(x) by {
                if s_old.contains(x) {
                    let j = choose|j: int| 0 <= j < s_old.len() && s_old[j] == x;
                    assert(s_new[j] == x);
                } else {
                    assert(s_new[s_old.len() as int] == id);
                }
            };
            assert(self@ =~= old(self)@.insert(id));
        }
        true
    }
}

/// Registry idempotence: once an id has been inserted it stays present, so
/// by the contract of [`SharedExtentRegistry::insert`] — which answers
/// "newly inserted" exactly when the id was absent — the same id is reported
/// new at most once across the run: the first insert leaves it present, and
/// every later registry state `t` has grown from that one, whichever thread
/// performed the intervening insertions.
pub proof fn lemma_registry_idempotent(s: Set<u64>, id: u64, t: Set<u64>)
    requires
        s.insert(id).subset_of(t),
    ensures
        s.insert(id).contains(id),
        t.contains(id),
{
    assert(s.insert(id).contains(id));
}

/// Whether a record is an inline extent.
pub open spec fn is_inline(r: BtrfsFileExtentItem) -> bool {
    r.kind == BtrfsFileExtentType::INLINE
}

/// What one record contributes to the statistics and to the registry.
///
/// An inline payload is private to its file by construction and never enters
/// the registry; its bytes are counted unconditionally. A non-inline extent
/// has its physical size counted only when its id is new to the registry,
/// while its referenced length is counted on every occurrence.
pub open spec fn accum_step(s: StatView, reg: Set<u64>, r: BtrfsFileExtentItem) -> (
    StatView,
    Set<u64>,
) {
    let c = r.compression;
    if is_inline(r) {
        (
            StatView {
                n_inline: s.n_inline + 1,
                buckets: s.buckets.insert(
                    c,
                    add_totals(
                        get_or_zero(s.buckets, c),
                        Totals {
                            disk: r.disk_num_bytes as int,
                            unc: r.ram_bytes as int,
                            refd: r.ram_bytes as int,
                        },
                    ),
                ),
                ..s
            },
            reg,
        )
    } else if !reg.contains(r.disk_bytenr->Some_0) {
        (
            StatView {
                n_extents: s.n_extents + 1,
                n_refs: s.n_refs + 1,
                buckets: s.buckets.insert(
                    c,
                    add_totals(
                        get_or_zero(s.buckets, c),
                        Totals {
                            disk: r.disk_num_bytes as int,
                            unc: r.ram_bytes as int,
                            refd: r.num_bytes as int,
                        },
                    ),
                ),
                ..s
            },
            reg.insert(r.disk_bytenr->Some_0),
        )
    } else {
        (
            StatView {
                n_refs: s.n_refs + 1,
                buckets: s.buckets.insert(
                    c,
                    add_totals(
                        get_or_zero(s.buckets, c),
                        Totals { disk: 0, unc: 0, refd: r.num_bytes as int },
                    ),
                ),
                ..s
            },
            reg,
        )
    }
}

/// The machine limits one step must respect: the touched counters and the
/// touched bucket must not overflow their carriers.
pub open spec fn accum_step_fits(s: StatView, reg: Set<u64>, r: BtrfsFileExtentItem) -> bool {
    let c = r.compression;
    if is_inline(r) {
        &&& s.n_inline + 1 <= usize::MAX
        &&& get_or_zero(s.buckets, c).disk + r.disk_num_bytes <= u64::MAX
        &&& get_or_zero(s.buckets, c).unc + r.ram_bytes <= u64::MAX
        &&& get_or_zero(s.buckets, c).refd + r.ram_bytes <= u64::MAX
    } else if !reg.contains(r.disk_bytenr->Some_0) {
        &&& s.n_extents + 1 <= usize::MAX
        &&& s.n_refs + 1 <= usize::MAX
        &&& get_or_zero(s.buckets, c).disk + r.disk_num_bytes <= u64::MAX
        &&& get_or_zero(s.buckets, c).unc + r.ram_bytes <= u64::MAX
        &&& get_or_zero(s.buckets, c).refd + r.num_bytes <= u64::MAX
    } else {
        &&& s.n_refs + 1 <= usize::MAX
        &&& get_or_zero(s.buckets, c).refd + r.num_bytes <= u64::MAX
    }
}

/// Accounts one record of a file, consulting and possibly growing the shared
/// registry; true exactly when the record was inline, after which the file is
/// fully accounted for (an inline extent is its file's only extent).
///
/// An inline record never inserts anything into the registry.
pub fn accumulate_record(
    stat: &mut Statistic,
    registry: &mut SharedExtentRegistry,
    rec: &BtrfsFileExtentItem,
) -> (inline_done: bool)
    requires
        rec.wf(),
        old(stat).wf(),
        accum_step_fits(old(stat)@, old(registry)@, *rec),
    ensures
        final(stat).wf(),
        inline_done == is_inline(*rec),
        (final(stat)@, final(registry)@) == accum_step(old(stat)@, old(registry)@, *rec),
        is_inline(*rec) ==> final(registry)@ == old(registry)@,
        seq_refd_total(final(stat).extent_info@) == seq_refd_total(old(stat).extent_info@)
            + rec.num_bytes,
{
    let c = CompressionType(rec.compression);
    proof {
        crate::stats::lemma_buckets_bounded(*stat, rec.compression);
    }
    if rec.type_() == BtrfsFileExtentType::INLINE {
        stat.bucket_add(c, rec.disk_num_bytes, rec.ram_bytes, rec.ram_bytes);
        stat.n_inline = stat.n_inline + 1;
        proof {
            assert(final(stat)@ =~= accum_step(old(stat)@, old(registry)@, *rec).0);
        }
        true
    } else {
        let bytenr = match rec.disk_bytenr() {
            Some(b) => b,
            None => {
                proof {
                    assert(false);
                }
                0
            },
        };
        let newly = registry.insert(bytenr);
        if newly {
            stat.bucket_add(c, rec.disk_num_bytes, rec.ram_bytes, rec.num_bytes);
            stat.n_extents = stat.n_extents + 1;
            stat.n_refs = stat.n_refs + 1;
            proof {
                assert(final(stat)@ =~= accum_step(old(stat)@, old(registry)@, *rec).0);
            }
        } else {
            stat.bucket_add(c, 0, 0, rec.num_bytes);
            stat.n_refs = stat.n_refs + 1;
            proof {
                assert(old(registry)@.insert(bytenr) =~= old(registry)@);
                assert(final(stat)@ =~= accum_step(old(stat)@, old(registry)@, *rec).0);
            }
        }
        false
    }
}

} // verus!

verus! {

/// Folds [`accum_step`] over a file's records in order, stopping after an
/// inline record: an inline extent is its file's only extent, so the rest of
/// the sequence is not consulted.
pub open spec fn accum_seq(s: StatView, reg: Set<u64>, recs: Seq<BtrfsFileExtentItem>) -> (
    StatView,
    Set<u64>,
)
    decreases recs.len(),
{
    if recs.len() == 0 {
        (s, reg)
    } else {
        let next = accum_step(s, reg, recs[0]);
        if is_inline(recs[0]) {
            next
        } else {
            accum_seq(next.0, next.1, recs.drop_first())
        }
    }
}

/// The machine limits the whole fold must respect, step by step.
pub open spec fn accum_seq_fits(s: StatView, reg: Set<u64>, recs: Seq<BtrfsFileExtentItem>) -> bool
    decreases recs.len(),
{
    if recs.len() == 0 {
        true
    } else {
        accum_step_fits(s, reg, recs[0]) && {
            let next = accum_step(s, reg, recs[0]);
            is_inline(recs[0]) || accum_seq_fits(next.0, next.1, recs.drop_first())
        }
    }
}

/// Sum of the logical lengths (`num_bytes`) of a record sequence.
pub open spec fn sum_num_bytes(recs: Seq<BtrfsFileExtentItem>) -> int
    decreases recs.len(),
{
    if recs.len() == 0 {
        0
    } else {
        recs[0].num_bytes + sum_num_bytes(recs.drop_first())
    }
}

/// The records the fold actually consumes: everything up to and including
/// the first inline record.
pub open spec fn processed_prefix(recs: Seq<BtrfsFileExtentItem>) -> Seq<BtrfsFileExtentItem>
    decreases recs.len(),
{
    if recs.len() == 0 {
        recs
    } else if is_inline(recs[0]) {
        seq![recs[0]]
    } else {
        seq![recs[0]] + processed_prefix(recs.drop_first())
    }
}

pub proof fn lemma_sum_num_bytes_push(s: Seq<BtrfsFileExtentItem>, x: BtrfsFileExtentItem)
    ensures
        sum_num_bytes(s.push(x)) == sum_num_bytes(s) + x.num_bytes,
    decreases s.len(),
{
    if s.len() == 0 {
        assert(s.push(x)[0] == x);
        assert(s.push(x).drop_first() =~= Seq::<BtrfsFileExtentItem>::empty());
        assert(sum_num_bytes(Seq::<BtrfsFileExtentItem>::empty()) == 0);
        assert(sum_num_bytes(s) == 0);
    } else {
        assert(s.push(x)[0] == s[0]);
        assert(s.push(x).drop_first() =~= s.drop_first().push(x));
        lemma_sum_num_bytes_push(s.drop_first(), x);
    }
}

/// Accounts one file's records in order against the statistics and the
/// shared registry, mirroring the fold [`accum_seq`]: processing stops after
/// an inline record.
///
/// Bytes-referenced law: the referenced-bytes total, summed over all
/// buckets, grows by exactly the sum of `num_bytes` over the consumed
/// records — an inline record's `num_bytes` equals its `ram_bytes`, which is
/// what is added to its bucket.
pub fn work_on_extents(
    stat: &mut Statistic,
    registry: &mut SharedExtentRegistry,
    records: &Vec<BtrfsFileExtentItem>,
)
    requires
        old(stat).wf(),
        forall|k: int| 0 <= k < records@.len() ==> (#[trigger] records@[k]).wf(),
        accum_seq_fits(old(stat)@, old(registry)@, records@),
    ensures
        final(stat).wf(),
        (final(stat)@, final(registry)@) == accum_seq(old(stat)@, old(registry)@, records@),
        seq_refd_total(final(stat).extent_info@) == seq_refd_total(old(stat).extent_info@)
            + sum_num_bytes(processed_prefix(records@)),
{
    let n = records.len();
    let mut i: usize = 0;
    let mut stop: bool = false;
    proof {
        assert(records@.take(0) =~= Seq::<BtrfsFileExtentItem>::empty());
        assert(records@.skip(0) =~= records@);
        assert(Seq::<BtrfsFileExtentItem>::empty() + processed_prefix(records@)
            =~= processed_prefix(records@));
    }
    while i < n && !stop
        invariant
            n == records@.len(),
            i <= n,
            stat.wf(),
            forall|k: int| 0 <= k < records@.len() ==> (#[trigger] records@[k]).wf(),
            !stop ==> accum_seq(old(stat)@, old(registry)@, records@) == accum_seq(
                stat@,
                registry@,
                records@.skip(i as int),
            ),
            !stop ==> accum_seq_fits(stat@, registry@, records@.skip(i as int)),
            !stop ==> seq_refd_total(stat.extent_info@) == seq_refd_total(old(stat).extent_info@)
                + sum_num_bytes(records@.take(i as int)),
            !stop ==> processed_prefix(records@) == records@.take(i as int) + processed_prefix(
                records@.skip(i as int),
            ),
            stop ==> ((stat@, registry@) == accum_seq(old(stat)@, old(registry)@, records@)),
            stop ==> seq_refd_total(stat.extent_info@) == seq_refd_total(old(stat).extent_info@)
                + sum_num_bytes(processed_prefix(records@)),
        decreases n - i,
    {
        let ghost rest = records@.skip(i as int);
        let ghost prev_s = stat@;
        let ghost prev_g = registry@;
        let ghost prev_refd = seq_refd_total(stat.extent_info@);
        let rec = records[i];
        proof {
            assert(rest.len() > 0);
            assert(rest[0] == records@[i as int]);
        }
        let done = accumulate_record(stat, registry, &rec);
        proof {
            assert(rest.drop_first() =~= records@.skip(i as int + 1));
            assert(records@.take(i as int + 1) =~= records@.take(i as int).push(
                records@[i as int],
            ));
            lemma_sum_num_bytes_push(records@.take(i as int), records@[i as int]);
            if done {
                assert(processed_prefix(rest) =~= seq![rest[0]]);
                assert(records@.take(i as int) + processed_prefix(rest) =~= records@.take(
                    i as int,
                ).push(records@[i as int]));
            } else {
                assert((records@.take(i as int) + seq![records@[i as int]]) + processed_prefix(
                    records@.skip(i as int + 1),
                ) =~= records@.take(i as int + 1) + processed_prefix(
                    records@.skip(i as int + 1),
                ));
                assert(processed_prefix(rest) =~= seq![rest[0]] + processed_prefix(
                    rest.drop_first(),
                ));
                assert(records@.take(i as int) + (seq![records@[i as int]] + processed_prefix(
                    records@.skip(i as int + 1),
                )) =~= (records@.take(i as int) + seq![records@[i as int]]) + processed_prefix(
                    records@.skip(i as int + 1),
                ));
            }
        }
        i = i + 1;
        if done {
            stop = true;
        }
    }
    proof {
        if !stop {
            assert(records@.skip(n as int) =~= Seq::<BtrfsFileExtentItem>::empty());
            assert(records@.take(n as int) =~= records@);
            assert(records@ + processed_prefix(records@.skip(n as int)) =~= records@);
        }
    }
}

} // verus!

verus! {

/// The statistic with one more file counted; what a file contributes before
/// any of its records are consulted.
pub open spec fn file_counted(s: StatView) -> StatView {
    StatView { n_files: s.n_files + 1, ..s }
}

/// One worker's state: the reusable search-request buffer, the registry of
/// physical extents seen so far, and the statistics gathered by this worker.
pub struct FileExtentsEnumerator {
    pub args: btrfs_ioctl_search_args_v2_64KB,
    pub seen_extents: SharedExtentRegistry,
    pub stat: Statistic,
}

impl FileExtentsEnumerator {
    /// A fresh enumerator over the given registry of already-seen extents,
    /// with empty statistics and a search buffer primed for reuse.
    pub fn with_shared(seen_extents: SharedExtentRegistry) -> (r: Self)
        ensures
            r.stat.wf(),
            r.stat@ == crate::stats::empty_stat_view(),
            r.seen_extents == seen_extents,
            r.args.wf(),
    {
        FileExtentsEnumerator {
            args: btrfs_ioctl_search_args_v2_64KB::new_search_file_extent_data(0),
            stat: Statistic::default(),
            seen_extents,
        }
    }

    /// Accounts one regular file: counts it, then folds its decoded extent
    /// records into this worker's statistics, consulting the shared
    /// registry. A file with no records contributes only the file count.
    pub fn work_on_file_records(&mut self, records: &Vec<BtrfsFileExtentItem>)
        requires
            old(self).stat.wf(),
            old(self).stat.n_files + 1 <= usize::MAX,
            forall|k: int| 0 <= k < records@.len() ==> (#[trigger] records@[k]).wf(),
            accum_seq_fits(
                file_counted(old(self).stat@),
                old(self).seen_extents@,
                records@,
            ),
        ensures
            final(self).stat.wf(),
            final(self).args == old(self).args,
            (final(self).stat@, final(self).seen_extents@) == accum_seq(
                file_counted(old(self).stat@),
                old(self).seen_extents@,
                records@,
            ),
            seq_refd_total(final(self).stat.extent_info@) == seq_refd_total(
                old(self).stat.extent_info@,
            ) + sum_num_bytes(processed_prefix(records@)),
    {
        self.stat.n_files = self.stat.n_files + 1;
        proof {
            assert(self.stat@ =~= file_counted(old(self).stat@));
        }
        work_on_extents(&mut self.stat, &mut self.seen_extents, records);
    }
}

} // verus!

verus! {

/// References to an extent already present in the registry add only
/// referenced bytes and reference counts: no disk usage, no uncompressed
/// bytes, no unique-extent count, and the registry itself does not change.
pub proof fn lemma_accum_seq_repeat(
    s: StatView,
    g: Set<u64>,
    recs: Seq<BtrfsFileExtentItem>,
    x: u64,
    c0: u8,
)
    requires
        forall|k: int|
            0 <= k < recs.len() ==> !is_inline(#[trigger] recs[k]) && recs[k].disk_bytenr == Some(
                x,
            ) && recs[k].compression == c0,
        g.contains(x),
    ensures
        accum_seq(s, g, recs).1 == g,
        accum_seq(s, g, recs).0.n_files == s.n_files,
        accum_seq(s, g, recs).0.n_extents == s.n_extents,
        accum_seq(s, g, recs).0.n_inline == s.n_inline,
        accum_seq(s, g, recs).0.n_refs == s.n_refs + recs.len(),
        get_or_zero(accum_seq(s, g, recs).0.buckets, c0).disk == get_or_zero(s.buckets, c0).disk,
        get_or_zero(accum_seq(s, g, recs).0.buckets, c0).unc == get_or_zero(s.buckets, c0).unc,
        get_or_zero(accum_seq(s, g, recs).0.buckets, c0).refd == get_or_zero(s.buckets, c0).refd
            + sum_num_bytes(recs),
        forall|c: u8|
            c != c0 ==> get_or_zero(accum_seq(s, g, recs).0.buckets, c) == get_or_zero(
                s.buckets,
                c,
            ),
    decreases recs.len(),
{
    if recs.len() == 0 {
        assert(sum_num_bytes(recs) == 0);
    } else {
        let r0 = recs[0];
        let next = accum_step(s, g, r0);
        assert(!is_inline(r0) && r0.disk_bytenr == Some(x) && r0.compression == c0);
        assert(next.1 == g);
        assert(next.0.buckets == s.buckets.insert(
            c0,
            add_totals(
                get_or_zero(s.buckets, c0),
                Totals { disk: 0, unc: 0, refd: r0.num_bytes as int },
            ),
        ));
        assert(get_or_zero(next.0.buckets, c0).refd == get_or_zero(s.buckets, c0).refd
            + r0.num_bytes);
        assert(forall|k: int|
            0 <= k < recs.drop_first().len() ==> #[trigger] recs.drop_first()[k] == recs[k + 1]);
        lemma_accum_seq_repeat(next.0, next.1, recs.drop_first(), x, c0);
        assert(sum_num_bytes(recs) == r0.num_bytes + sum_num_bytes(recs.drop_first()));
        assert forall|c: u8| c != c0 implies get_or_zero(
            accum_seq(s, g, recs).0.buckets,
            c,
        ) == get_or_zero(s.buckets, c) by {
            assert(get_or_zero(next.0.buckets, c) == get_or_zero(s.buckets, c));
        };
    }
}

/// Disk-usage additivity under sharing (reflink): when several records —
/// from one file or many — all reference the same physical extent that no
/// one has seen yet, folding them adds the extent's `disk_num_bytes` and
/// `ram_bytes` to its compression bucket exactly once, counts one unique
/// extent, and accumulates `referenced_bytes` once per referencing record.
pub proof fn lemma_shared_extent_counted_once(
    s: StatView,
    g: Set<u64>,
    recs: Seq<BtrfsFileExtentItem>,
    x: u64,
    c0: u8,
)
    requires
        recs.len() > 0,
        forall|k: int|
            0 <= k < recs.len() ==> !is_inline(#[trigger] recs[k]) && recs[k].disk_bytenr == Some(
                x,
            ) && recs[k].compression == c0,
        !g.contains(x),
    ensures
        accum_seq(s, g, recs).1 == g.insert(x),
        accum_seq(s, g, recs).0.n_files == s.n_files,
        accum_seq(s, g, recs).0.n_inline == s.n_inline,
        accum_seq(s, g, recs).0.n_extents == s.n_extents + 1,
        accum_seq(s, g, recs).0.n_refs == s.n_refs + recs.len(),
        get_or_zero(accum_seq(s, g, recs).0.buckets, c0).disk == get_or_zero(s.buckets, c0).disk
            + recs[0].disk_num_bytes,
        get_or_zero(accum_seq(s, g, recs).0.buckets, c0).unc == get_or_zero(s.buckets, c0).unc
            + recs[0].ram_bytes,
        get_or_zero(accum_seq(s, g, recs).0.buckets, c0).refd == get_or_zero(s.buckets, c0).refd
            + sum_num_bytes(recs),
        forall|c: u8|
            c != c0 ==> get_or_zero(accum_seq(s, g, recs).0.buckets, c) == get_or_zero(
                s.buckets,
                c,
            ),
{
    let r0 = recs[0];
    let next = accum_step(s, g, r0);
    assert(!is_inline(r0) && r0.disk_bytenr == Some(x) && r0.compression == c0);
    assert(next.1 == g.insert(x));
    assert(next.1.contains(x));
    assert(next.0.buckets == s.buckets.insert(
        c0,
        add_totals(
            get_or_zero(s.buckets, c0),
            Totals {
                disk: r0.disk_num_bytes as int,
                unc: r0.ram_bytes as int,
                refd: r0.num_bytes as int,
            },
        ),
    ));
    assert(forall|k: int|
        0 <= k < recs.drop_first().len() ==> #[trigger] recs.drop_first()[k] == recs[k + 1]);
    lemma_accum_seq_repeat(next.0, next.1, recs.drop_first(), x, c0);
    assert(sum_num_bytes(recs) == r0.num_bytes + sum_num_bytes(recs.drop_first()));
    assert forall|c: u8| c != c0 implies get_or_zero(accum_seq(s, g, recs).0.buckets, c)
        == get_or_zero(s.buckets, c) by {
        assert(get_or_zero(next.0.buckets, c) == get_or_zero(s.buckets, c));
    };
}

} // verus!
