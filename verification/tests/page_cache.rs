use ce_gtk::page_cache::{CachedPage, PageCache, RowObject};
use ce_gtk::scan_result_model::VirtualScanRow;

fn objects(start: u64, count: u64) -> CachedPage<VirtualScanRow> {
    CachedPage(
        (start..start + count)
            .map(|i| RowObject { handle: i, row: VirtualScanRow::Loading { index: i } })
            .collect(),
    )
}

#[test]
fn the_most_recently_used_page_survives_an_insert() {
    let mut cache: PageCache<VirtualScanRow> = PageCache::new(3);
    assert!(cache.insert(0, objects(0, 2)).is_empty());
    assert!(cache.insert(2, objects(2, 2)).is_empty());
    assert!(cache.insert(4, objects(4, 2)).is_empty());
    assert!(cache.item(0, 1).is_some());
    assert_eq!(cache.insert(6, objects(6, 2)), vec![2]);
    assert_eq!(cache.insert(8, objects(8, 2)), vec![4]);
    assert!(cache.contains(0));
    assert!(!cache.contains(2));
}

#[test]
fn a_stored_page_is_found_under_its_start() {
    let mut cache: PageCache<VirtualScanRow> = PageCache::new(1);
    assert!(cache.insert(0, objects(0, 2)).is_empty());
    assert_eq!(cache.insert(2, objects(2, 2)), vec![0]);
    assert_eq!(cache.item(2, 1), Some(RowObject { handle: 3, row: VirtualScanRow::Loading { index: 3 } }));
    assert_eq!(cache.item(2, 2), None);
    assert_eq!(cache.item(0, 0), None);
}

#[test]
fn storing_a_cached_page_again_evicts_nothing() {
    let mut cache: PageCache<VirtualScanRow> = PageCache::new(2);
    cache.insert(0, objects(0, 2));
    cache.insert(2, objects(2, 2));
    assert!(cache.insert(0, objects(100, 1)).is_empty());
    assert_eq!(cache.page_items(0).expect("cached"), objects(100, 1).0);
    assert_eq!(cache.insert(4, objects(4, 1)), vec![2]);
}

#[test]
fn overwrite_keeps_the_recency_order() {
    let mut cache: PageCache<VirtualScanRow> = PageCache::new(2);
    cache.insert(0, objects(0, 1));
    cache.insert(2, objects(2, 1));
    cache.overwrite(0, objects(50, 1));
    assert_eq!(cache.insert(4, objects(4, 1)), vec![0]);
    assert!(cache.page_items(0).is_none());
}

#[test]
fn clear_drops_every_page() {
    let mut cache: PageCache<VirtualScanRow> = PageCache::new(0);
    cache.insert(0, objects(0, 1));
    cache.clear();
    assert!(!cache.contains(0));
    assert!(cache.insert(2, objects(2, 1)).is_empty());
}
