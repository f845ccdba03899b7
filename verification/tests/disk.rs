//! Disk-store accounting: sizes and the budgeted eviction plan.

use mapcore::disk::{cache_size, evict_if_needed, sort_by_mtime, FileEntry};

fn entry(id: u64, mtime: u64, size: u64) -> FileEntry {
    FileEntry { id, mtime, size }
}

#[test]
fn cache_size_sums_the_files() {
    let files = vec![entry(1, 10, 500), entry(2, 5, 300), entry(3, 20, 400)];
    assert_eq!(cache_size(&files), 1200);
    assert_eq!(cache_size(&Vec::new()), 0);
}

#[test]
fn cache_size_saturates() {
    let files = vec![entry(1, 0, u64::MAX), entry(2, 0, 17)];
    assert_eq!(cache_size(&files), u64::MAX);
}

#[test]
fn sort_orders_oldest_first() {
    let mut files = vec![entry(1, 10, 500), entry(2, 5, 300), entry(3, 20, 400)];
    sort_by_mtime(&mut files);
    let ids: Vec<u64> = files.iter().map(|f| f.id).collect();
    assert_eq!(ids, vec![2, 1, 3]);
}

#[test]
fn eviction_deletes_oldest_until_within_budget() {
    let mut files = vec![entry(1, 10, 500), entry(2, 5, 300), entry(3, 20, 400)];
    let deleted = evict_if_needed(&mut files, 700);
    // Oldest first: the 300-byte file alone is not enough (900 > 700),
    // so the 500-byte one goes too (400 <= 700).
    let deleted_ids: Vec<u64> = deleted.iter().map(|f| f.id).collect();
    assert_eq!(deleted_ids, vec![2, 1]);
    let kept_ids: Vec<u64> = files.iter().map(|f| f.id).collect();
    assert_eq!(kept_ids, vec![3]);
    assert_eq!(cache_size(&files), 400);
}

#[test]
fn eviction_is_a_no_op_within_budget() {
    let mut files = vec![entry(1, 10, 500), entry(2, 5, 300)];
    let deleted = evict_if_needed(&mut files, 800);
    assert!(deleted.is_empty());
    // The list is untouched, not even reordered.
    let ids: Vec<u64> = files.iter().map(|f| f.id).collect();
    assert_eq!(ids, vec![1, 2]);
}

#[test]
fn eviction_with_zero_budget_removes_everything() {
    let mut files = vec![entry(1, 10, 500), entry(2, 5, 300)];
    let deleted = evict_if_needed(&mut files, 0);
    assert_eq!(deleted.len(), 2);
    assert!(files.is_empty());
}

#[test]
fn eviction_stops_as_soon_as_the_budget_holds() {
    // 50 MiB budget, as the original sweep used.
    let budget = 50 * 1024 * 1024;
    let mut files = vec![
        entry(1, 1, 30 * 1024 * 1024),
        entry(2, 2, 30 * 1024 * 1024),
        entry(3, 3, 10 * 1024 * 1024),
    ];
    let deleted = evict_if_needed(&mut files, budget);
    let deleted_ids: Vec<u64> = deleted.iter().map(|f| f.id).collect();
    assert_eq!(deleted_ids, vec![1]);
    assert_eq!(cache_size(&files), 40 * 1024 * 1024);
}
