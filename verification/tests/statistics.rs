use btrfs_compsize::stats::{CompressionType, ExtentInfo, Statistic};

fn info(disk: u64, unc: u64, refd: u64) -> ExtentInfo {
    ExtentInfo { disk_bytes: disk, uncompressed_bytes: unc, referenced_bytes: refd }
}

fn assert_bucket(s: &Statistic, code: u8, disk: u64, unc: u64, refd: u64) {
    let b = s.bucket_totals(CompressionType(code));
    assert_eq!(b, info(disk, unc, refd));
}

fn assert_same(a: &Statistic, b: &Statistic) {
    assert_eq!(a.n_files, b.n_files);
    assert_eq!(a.n_extents, b.n_extents);
    assert_eq!(a.n_refs, b.n_refs);
    assert_eq!(a.n_inline, b.n_inline);
    for code in 0..=255u8 {
        let c = CompressionType(code);
        assert_eq!(a.bucket_totals(c), b.bucket_totals(c));
    }
}

#[test]
fn default_statistic_is_empty() {
    let s = Statistic::default();
    assert_eq!(s.n_files, 0);
    assert_eq!(s.n_extents, 0);
    assert_eq!(s.n_refs, 0);
    assert_eq!(s.n_inline, 0);
    assert!(s.extent_info.is_empty());
    assert_bucket(&s, 0, 0, 0, 0);
}

#[test]
fn default_extent_info_is_zero() {
    assert_eq!(ExtentInfo::default(), info(0, 0, 0));
}

#[test]
fn bucket_add_creates_then_sums() {
    let mut s = Statistic::default();
    s.bucket_add(CompressionType(3), 10, 20, 30);
    assert_bucket(&s, 3, 10, 20, 30);
    s.bucket_add(CompressionType(3), 1, 2, 3);
    assert_bucket(&s, 3, 11, 22, 33);
    // a different code gets its own bucket
    s.bucket_add(CompressionType(0), 5, 5, 5);
    assert_bucket(&s, 0, 5, 5, 5);
    assert_bucket(&s, 3, 11, 22, 33);
    assert_eq!(s.extent_info.len(), 2);
}

#[test]
fn merge_sums_counters_and_matching_buckets() {
    let mut a = Statistic::default();
    a.n_files = 2;
    a.n_extents = 1;
    a.n_refs = 3;
    a.bucket_add(CompressionType(0), 100, 200, 300);
    let mut b = Statistic::default();
    b.n_files = 1;
    b.n_inline = 1;
    b.bucket_add(CompressionType(0), 10, 20, 30);
    b.bucket_add(CompressionType(3), 7, 8, 9);
    a.add_assign(&b);
    assert_eq!(a.n_files, 3);
    assert_eq!(a.n_extents, 1);
    assert_eq!(a.n_refs, 3);
    assert_eq!(a.n_inline, 1);
    assert_bucket(&a, 0, 110, 220, 330);
    // a bucket present only in the right-hand side is inserted
    assert_bucket(&a, 3, 7, 8, 9);
}

#[test]
fn merge_in_any_order_yields_identical_totals() {
    let make = |files: usize, code: u8, disk: u64| {
        let mut s = Statistic::default();
        s.n_files = files;
        s.n_refs = files;
        s.bucket_add(CompressionType(code), disk, 2 * disk, 3 * disk);
        s.bucket_add(CompressionType(0), 1, 1, 1);
        s
    };
    let a = make(1, 1, 100);
    let b = make(2, 2, 200);
    let c = make(3, 3, 300);

    // merge(merge(a, b), c)
    let mut left = a.clone();
    left.add_assign(&b);
    left.add_assign(&c);

    // merge(a, merge(b, c))
    let mut bc = b.clone();
    bc.add_assign(&c);
    let mut right = a.clone();
    right.add_assign(&bc);

    // merge(b, merge(a, c))
    let mut ac = a.clone();
    ac.add_assign(&c);
    let mut mixed = b.clone();
    mixed.add_assign(&ac);

    assert_same(&left, &right);
    assert_same(&left, &mixed);
    assert_eq!(left.n_files, 6);
    assert_bucket(&left, 0, 3, 3, 3);
    assert_bucket(&left, 1, 100, 200, 300);
    assert_bucket(&left, 2, 200, 400, 600);
    assert_bucket(&left, 3, 300, 600, 900);
}

#[test]
fn merge_with_empty_changes_nothing() {
    let mut a = Statistic::default();
    a.n_files = 4;
    a.bucket_add(CompressionType(2), 11, 22, 33);
    a.add_assign(&Statistic::default());
    assert_eq!(a.n_files, 4);
    assert_bucket(&a, 2, 11, 22, 33);
}
