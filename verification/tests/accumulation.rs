use btrfs_compsize::btrfs::{BtrfsFileExtentItem, BtrfsFileExtentType};
use btrfs_compsize::stats::CompressionType;
use btrfs_compsize::walk::{
    accumulate_record, work_on_extents, FileExtentsEnumerator, SharedExtentRegistry,
};

fn inline_record(ram_bytes: u64, compression: u8, item_len: u32) -> BtrfsFileExtentItem {
    BtrfsFileExtentItem::from_raw(item_len, 0, 1, ram_bytes, compression, 0, 0, 0, 0, 0)
}

fn regular_record(
    compression: u8,
    disk_bytenr: u64,
    disk_num_bytes: u64,
    ram_bytes: u64,
    num_bytes: u64,
) -> BtrfsFileExtentItem {
    BtrfsFileExtentItem::from_raw(
        53, 1, 1, ram_bytes, compression, 0, disk_bytenr, disk_num_bytes, 0, num_bytes,
    )
}

#[test]
fn registry_reports_new_exactly_once() {
    let mut reg = SharedExtentRegistry::new();
    assert!(reg.insert(0x1000));
    assert!(!reg.insert(0x1000));
    assert!(!reg.insert(0x1000));
    assert!(reg.insert(0x2000));
    assert!(!reg.insert(0x2000));
    assert!(!reg.insert(0x1000));
}

#[test]
fn inline_record_keeps_out_of_registry() {
    let mut e = FileExtentsEnumerator::with_shared(SharedExtentRegistry::new());
    let rec = inline_record(100, 0, 121);
    // an inline record has no physical identity
    assert_eq!(rec.disk_bytenr(), None);
    assert_eq!(rec.num_bytes(), rec.ram_bytes());
    let done = accumulate_record(&mut e.stat, &mut e.seen_extents, &rec);
    assert!(done);
    // nothing entered the dedup registry
    assert!(e.seen_extents.ids.is_empty());
    assert_eq!(e.stat.n_inline, 1);
}

#[test]
fn inline_record_ends_the_file() {
    let mut e = FileExtentsEnumerator::with_shared(SharedExtentRegistry::new());
    let records = vec![inline_record(64, 0, 85), regular_record(0, 0x9000, 4096, 4096, 4096)];
    e.work_on_file_records(&records);
    // the record after the inline one is never consulted
    assert_eq!(e.stat.n_inline, 1);
    assert_eq!(e.stat.n_refs, 0);
    assert_eq!(e.stat.n_extents, 0);
    assert!(e.seen_extents.ids.is_empty());
}

#[test]
fn referenced_bytes_sum_over_records() {
    let mut stat = btrfs_compsize::stats::Statistic::default();
    let mut reg = SharedExtentRegistry::new();
    let records = vec![
        regular_record(0, 0x1000, 4096, 4096, 4096),
        regular_record(3, 0x2000, 512, 8192, 8192),
        regular_record(0, 0x1000, 4096, 4096, 1024),
    ];
    work_on_extents(&mut stat, &mut reg, &records);
    let total: u64 = (0..=255u8)
        .map(|c| stat.bucket_totals(CompressionType(c)).referenced_bytes)
        .sum();
    // 4096 + 8192 + 1024, one num_bytes contribution per record
    assert_eq!(total, 13312);
    assert_eq!(stat.n_refs, 3);
}

#[test]
fn scenario_empty_file() {
    let mut e = FileExtentsEnumerator::with_shared(SharedExtentRegistry::new());
    let records: Vec<BtrfsFileExtentItem> = Vec::new();
    e.work_on_file_records(&records);
    assert_eq!(e.stat.n_files, 1);
    assert_eq!(e.stat.n_extents, 0);
    assert_eq!(e.stat.n_refs, 0);
    assert_eq!(e.stat.n_inline, 0);
    for c in 0..=255u8 {
        let b = e.stat.bucket_totals(CompressionType(c));
        assert_eq!(b.disk_bytes, 0);
        assert_eq!(b.uncompressed_bytes, 0);
        assert_eq!(b.referenced_bytes, 0);
    }
}

#[test]
fn scenario_inline_file() {
    let mut e = FileExtentsEnumerator::with_shared(SharedExtentRegistry::new());
    // one inline extent: ram_bytes 100, no compression, item length 121
    let records = vec![inline_record(100, 0, 121)];
    e.work_on_file_records(&records);
    assert_eq!(e.stat.n_files, 1);
    assert_eq!(e.stat.n_inline, 1);
    assert_eq!(e.stat.n_extents, 0);
    assert_eq!(e.stat.n_refs, 0);
    let b = e.stat.bucket_totals(CompressionType(0));
    // disk usage is the item length past the fixed prefix
    assert_eq!(b.disk_bytes, 100);
    assert_eq!(b.uncompressed_bytes, 100);
    assert_eq!(b.referenced_bytes, 100);
}

#[test]
fn scenario_two_files_sharing_one_extent() {
    let mut e = FileExtentsEnumerator::with_shared(SharedExtentRegistry::new());
    let shared = regular_record(3, 0xABCD_0000, 4096, 4096, 4096);
    e.work_on_file_records(&vec![shared]);
    e.work_on_file_records(&vec![shared]);
    assert_eq!(e.stat.n_files, 2);
    // the physical extent is counted once, the references twice
    assert_eq!(e.stat.n_extents, 1);
    assert_eq!(e.stat.n_refs, 2);
    let b = e.stat.bucket_totals(CompressionType(3));
    assert_eq!(b.disk_bytes, 4096);
    assert_eq!(b.uncompressed_bytes, 4096);
    assert_eq!(b.referenced_bytes, 8192);
}

#[test]
fn scenario_partial_sharing_accumulates_references() {
    let mut e = FileExtentsEnumerator::with_shared(SharedExtentRegistry::new());
    // three references into the same physical extent, different lengths
    e.work_on_file_records(&vec![regular_record(0, 0x5000, 8192, 16384, 1000)]);
    e.work_on_file_records(&vec![regular_record(0, 0x5000, 8192, 16384, 2000)]);
    e.work_on_file_records(&vec![regular_record(0, 0x5000, 8192, 16384, 3000)]);
    assert_eq!(e.stat.n_extents, 1);
    assert_eq!(e.stat.n_refs, 3);
    let b = e.stat.bucket_totals(CompressionType(0));
    assert_eq!(b.disk_bytes, 8192);
    assert_eq!(b.uncompressed_bytes, 16384);
    assert_eq!(b.referenced_bytes, 6000);
}

#[test]
fn scenario_failed_file_leaves_others_counted() {
    let mut e = FileExtentsEnumerator::with_shared(SharedExtentRegistry::new());
    // a readable file
    e.work_on_file_records(&vec![regular_record(0, 0x1000, 4096, 4096, 4096)]);
    // an unreadable file: it is counted before its records could be read,
    // and the failure cancels nothing else
    e.work_on_file_records(&Vec::new());
    // a second readable file
    e.work_on_file_records(&vec![regular_record(0, 0x2000, 512, 512, 512)]);
    assert_eq!(e.stat.n_files, 3);
    assert_eq!(e.stat.n_extents, 2);
    assert_eq!(e.stat.n_refs, 2);
    let b = e.stat.bucket_totals(CompressionType(0));
    assert_eq!(b.disk_bytes, 4608);
    assert_eq!(b.referenced_bytes, 4608);
}

#[test]
fn unknown_kind_flows_through_like_a_regular_extent() {
    let mut e = FileExtentsEnumerator::with_shared(SharedExtentRegistry::new());
    let rec = BtrfsFileExtentItem::from_raw(53, 9, 1, 4096, 7, 0, 0x7000, 4096, 0, 4096);
    assert_eq!(rec.type_(), BtrfsFileExtentType::UNKNOWN);
    e.work_on_file_records(&vec![rec]);
    assert_eq!(e.stat.n_extents, 1);
    assert_eq!(e.stat.n_refs, 1);
    let b = e.stat.bucket_totals(CompressionType(7));
    assert_eq!(b.disk_bytes, 4096);
    assert_eq!(b.referenced_bytes, 4096);
}

#[test]
fn per_worker_statistics_merge_into_one_report() {
    // two workers sharing one registry through sequential handoff
    let mut w1 = FileExtentsEnumerator::with_shared(SharedExtentRegistry::new());
    w1.work_on_file_records(&vec![regular_record(3, 0x100, 4096, 8192, 8192)]);
    let mut w2 = FileExtentsEnumerator::with_shared(w1.seen_extents);
    w1.seen_extents = SharedExtentRegistry::new();
    w2.work_on_file_records(&vec![regular_record(3, 0x100, 4096, 8192, 8192)]);

    let mut total = btrfs_compsize::stats::Statistic::default();
    total.add_assign(&w1.stat);
    total.add_assign(&w2.stat);
    assert_eq!(total.n_files, 2);
    assert_eq!(total.n_extents, 1);
    assert_eq!(total.n_refs, 2);
    let b = total.bucket_totals(CompressionType(3));
    assert_eq!(b.disk_bytes, 4096);
    assert_eq!(b.uncompressed_bytes, 8192);
    assert_eq!(b.referenced_bytes, 16384);
}
