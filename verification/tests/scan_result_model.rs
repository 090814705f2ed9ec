use std::cell::Cell;
use std::rc::Rc;

use ce_gtk::bridge::{ScanHit, ScanPage};
use ce_gtk::page_cache::{CachedPage, PageCache, RowObject};
use ce_gtk::scan_result_model::{ModelEvent, ModelIssue, ScanResultModel, VirtualScanRow};

fn page(generation: u64, start: u64, total: u64, count: usize) -> ScanPage {
    ScanPage {
        generation,
        start,
        total_count: total,
        stale: false,
        error_message: String::new(),
        rows: (0..count)
            .map(|offset| ScanHit {
                address: 0x1000 + start + offset as u64,
                value: (start + offset as u64).to_string(),
            })
            .collect(),
    }
}

fn cached_page(generation: u64, start: u64, total: u64, count: usize) -> CachedPage<VirtualScanRow> {
    CachedPage(
        page(generation, start, total, count)
            .rows
            .into_iter()
            .enumerate()
            .map(|(offset, hit)| RowObject {
                handle: start + offset as u64,
                row: VirtualScanRow::Loaded {
                    index: start + offset as u64,
                    address: hit.address,
                    value: hit.value,
                },
            })
            .collect(),
    )
}

#[test]
fn bounded_page_cache_evicts_the_least_recently_used_page() {
    let mut cache = PageCache::new(2);
    assert!(cache.insert(0, cached_page(1, 0, 6, 2)).is_empty());
    assert!(cache.insert(2, cached_page(1, 2, 6, 2)).is_empty());
    let item = cache.item(0, 0).expect("cached first item");
    assert!(matches!(
        &item.row,
        VirtualScanRow::Loaded { index: 0, .. }
    ));
    assert_eq!(cache.insert(4, cached_page(1, 4, 6, 2)), vec![2]);
    assert!(cache.item(2, 0).is_none());
    assert!(cache.item(0, 0).is_some());
    assert!(cache.item(4, 0).is_some());
}

#[test]
fn model_caps_positions_but_preserves_the_real_total() {
    let mut model = ScanResultModel::new(128, 3);
    let loader = |_: u64, _: u64, _: u32| -> Result<ScanPage, String> { Err("not loaded".to_owned()) };
    model.configure(9, u64::from(u32::MAX) + 27);
    assert_eq!(model.n_items(), u32::MAX);
    assert_eq!(model.total_count(), u64::from(u32::MAX) + 27);
    assert_eq!(model.cached_row_capacity(), 384);

    model.load_page(9, 0, &loader);
    let object = model.item(0).expect("error row object");
    assert!(matches!(
        &object.row,
        VirtualScanRow::Error { index: 0, message } if message == "not loaded"
    ));
}

#[test]
fn loading_replaces_placeholders_and_stale_pages_invalidate_the_model() {
    let mut model = ScanResultModel::new(2, 2);
    let stale = Rc::new(Cell::new(false));
    let handler = {
        let stale = stale.clone();
        move |issue: ModelIssue| stale.set(matches!(issue, ModelIssue::Stale(_)))
    };
    let loader = |generation: u64, start: u64, _: u32| Ok(page(generation, start, 3, 2));
    model.configure(7, 3);
    model.load_page(7, 0, &loader);
    let object = model.item(0).expect("loaded row object");
    let repeated = model.item(0).expect("same loaded row object");
    assert_eq!(object, repeated, "loaded row identity must remain stable");
    assert!(
        matches!(
            &object.row,
            VirtualScanRow::Loaded {
                index: 0,
                address: 0x1000,
                ..
            }
        ),
        "loaded boxed row"
    );

    let stale_loader = |generation: u64, start: u64, _: u32| {
        let mut result = page(generation, start, 3, 1);
        result.stale = true;
        Ok(result)
    };
    model.load_page(7, 2, &stale_loader);
    for event in model.take_events() {
        if let ModelEvent::Issue(issue) = event {
            handler(issue);
        }
    }
    assert!(stale.get());
    assert_eq!(model.n_items(), 0);
    assert_eq!(model.total_count(), 0);
}
