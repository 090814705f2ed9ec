use ce_gtk::address_list_model::{AddressListModel, ModelEvent, ModelIssue, VirtualAddressRow};
use ce_gtk::bridge::{AddressPage, AddressRecord, FreezeMode, ScanValueType};
use ce_gtk::page_cache::{CachedPage, PageCache, RowObject};

fn record(id: i32, value: &str) -> AddressRecord {
    AddressRecord {
        id,
        description: format!("Record {id}"),
        address: 0x1000 + id as u64,
        address_expression: String::new(),
        value_type: ScanValueType::Int32,
        type_label: "4 Bytes".to_owned(),
        value: value.to_owned(),
        error_message: String::new(),
        readable: true,
        active: false,
        freeze_mode: FreezeMode::Normal,
        show_as_hex: false,
        byte_count: 4,
        is_group: false,
        collapsed: false,
        has_script: false,
        has_auto_assembler: false,
        has_lua: false,
        indent: 0,
    }
}

fn page(
    generation: u64,
    start: u64,
    total: u64,
    raw_total: u64,
    rows: Vec<AddressRecord>,
) -> AddressPage {
    AddressPage {
        generation,
        start,
        total_count: total,
        raw_total_count: raw_total,
        error_message: String::new(),
        rows,
    }
}

fn cached_page(start: u64, count: usize) -> CachedPage<VirtualAddressRow> {
    CachedPage(
        (0..count)
            .map(|offset| {
                let index = start + offset as u64;
                RowObject {
                    handle: index,
                    row: VirtualAddressRow::Loaded {
                        index,
                        record: record(index as i32 + 1, "old"),
                    },
                }
            })
            .collect(),
    )
}

#[test]
fn bounded_cache_evicts_the_least_recently_used_page() {
    let mut cache = PageCache::new(2);
    assert!(cache.insert(0, cached_page(0, 2)).is_empty());
    assert!(cache.insert(2, cached_page(2, 2)).is_empty());
    assert!(cache.item(0, 0).is_some());
    assert_eq!(cache.insert(4, cached_page(4, 2)), vec![2]);
    assert!(cache.item(2, 0).is_none());
    assert!(cache.item(0, 0).is_some());
    assert!(cache.item(4, 0).is_some());
}

#[test]
fn model_caps_positions_and_preserves_visible_and_raw_totals() {
    let mut model = AddressListModel::new(128, 3);
    let loader = |_: u64, _: u64, _: u32, _: bool| -> Result<AddressPage, String> {
        Err("not loaded".to_owned())
    };
    model.configure(9, u64::from(u32::MAX) + 27, u64::from(u32::MAX) + 99);
    assert_eq!(model.n_items(), u32::MAX);
    assert_eq!(model.total_count(), u64::from(u32::MAX) + 27);
    assert_eq!(model.raw_total_count(), u64::from(u32::MAX) + 99);
    assert_eq!(model.cached_row_capacity(), 384);

    model.load_page(9, 0, &loader);
    let object = model.item(0).expect("error row object");
    assert!(matches!(
        &object.row,
        VirtualAddressRow::Error { index: 0, message } if message == "not loaded"
    ));
}

#[test]
fn refresh_updates_loaded_objects_in_place_and_rejects_stale_pages() {
    let mut model = AddressListModel::new(2, 2);
    let loader = |generation: u64, start: u64, _: u32, refresh: bool| {
        let value = if refresh { "fresh" } else { "old" };
        Ok(page(
            generation,
            start,
            2,
            3,
            vec![record(1, value), record(2, value)],
        ))
    };
    model.configure(7, 2, 3);
    model.load_page(7, 0, &loader);
    let object = model.item(0).expect("loaded row object");
    assert_eq!(model.refresh_pages(&[0], &loader).len(), 2);
    let refreshed = model.item(0).expect("stable refreshed object");
    assert_eq!(object.handle, refreshed.handle);
    assert!(
        matches!(
            &refreshed.row,
            VirtualAddressRow::Loaded { record, .. } if record.value == "fresh"
        ),
        "boxed address row"
    );

    let stale_loader = |generation: u64, start: u64, _: u32, _: bool| {
        Ok(page(generation + 1, start, 2, 3, vec![record(1, "bad")]))
    };
    assert!(model.refresh_pages(&[0], &stale_loader).is_empty());
    assert_eq!(model.n_items(), 0);
    assert_eq!(model.total_count(), 0);
    let events = model.take_events();
    assert!(matches!(
        events.last(),
        Some(ModelEvent::Issue(ModelIssue::Stale(_)))
    ));
}
