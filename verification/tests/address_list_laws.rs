use ce_gtk::address_list_model::{
    sorted_distinct, AddressListModel, ModelEvent, ModelIssue, VirtualAddressRow,
    DEFAULT_ADDRESS_CACHE_PAGES, MAX_ADDRESS_PAGE_SIZE, STALE_HIERARCHY, STALE_PAGING_CONTRACT,
    STALE_WHILE_LOADING, UNEXPECTED_PAGE_LENGTH,
};
use ce_gtk::bridge::{AddressPage, AddressRecord, FreezeMode, ScanValueType};

fn record(id: i32, value: &str) -> AddressRecord {
    AddressRecord {
        id,
        description: format!("Record {id}"),
        address: 0x1000 + id as u64,
        address_expression: String::new(),
        value_type: ScanValueType::Int32,
        type_label: "4 Bytes".to_owned(),
        value: value.to_owned(),
        error_message: String::new(),
        readable: true,
        active: false,
        freeze_mode: FreezeMode::Normal,
        show_as_hex: false,
        byte_count: 4,
        is_group: false,
        collapsed: false,
        has_script: false,
        has_auto_assembler: false,
        has_lua: false,
        indent: 0,
    }
}

fn page(generation: u64, start: u64, total: u64, raw: u64, rows: Vec<AddressRecord>) -> AddressPage {
    AddressPage {
        generation,
        start,
        total_count: total,
        raw_total_count: raw,
        error_message: String::new(),
        rows,
    }
}

fn good_loader(generation: u64, start: u64, count: u32, refresh: bool) -> Result<AddressPage, String> {
    let total = 5;
    let end = (start + u64::from(count)).min(total);
    let value = if refresh { "fresh" } else { "old" };
    Ok(page(
        generation,
        start,
        total,
        7,
        (start..end).map(|i| record(i as i32 + 1, value)).collect(),
    ))
}

fn configured(page_size: u32) -> AddressListModel {
    let mut model = AddressListModel::new(page_size, 2);
    model.configure(3, 5, 7);
    model.take_events();
    model
}

fn last_issue(model: &mut AddressListModel) -> Option<ModelIssue> {
    model.take_events().into_iter().rev().find_map(|event| match event {
        ModelEvent::Issue(issue) => Some(issue),
        _ => None,
    })
}

#[test]
fn new_clamps_page_size_and_cache() {
    let model = AddressListModel::new(0, 0);
    assert_eq!(model.cached_row_capacity(), 1);
    let model = AddressListModel::new(10_000, DEFAULT_ADDRESS_CACHE_PAGES);
    assert_eq!(
        model.cached_row_capacity(),
        u64::from(MAX_ADDRESS_PAGE_SIZE) * DEFAULT_ADDRESS_CACHE_PAGES as u64
    );
    assert_eq!(model.n_items(), 0);
    assert!(!model.is_configured());
}

#[test]
fn page_start_rounds_down_to_the_page() {
    let model = AddressListModel::new(4, 2);
    assert_eq!(model.page_start(0), 0);
    assert_eq!(model.page_start(3), 0);
    assert_eq!(model.page_start(4), 4);
    assert_eq!(model.page_start(11), 8);
}

#[test]
fn configure_announces_the_new_positions() {
    let mut model = AddressListModel::new(2, 2);
    model.configure(3, 5, 7);
    assert_eq!(model.generation(), 3);
    assert_eq!(model.displayed_count(), 5);
    assert_eq!(
        model.take_events(),
        vec![ModelEvent::ItemsChanged { position: 0, removed: 0, added: 5 }]
    );
    assert!(model.take_events().is_empty());
}

#[test]
fn repeated_lookup_gives_the_same_placeholder_and_schedules_once() {
    let mut model = configured(2);
    let first = model.item(3).expect("placeholder");
    let second = model.item(3).expect("same placeholder");
    assert_eq!(first, second);
    assert_eq!(first.row, VirtualAddressRow::Loading { index: 3 });
    assert_eq!(
        model.take_events(),
        vec![ModelEvent::ScheduleLoad { generation: 3, page_start: 2 }]
    );
    assert!(model.item(5).is_none());
}

#[test]
fn loaded_page_shows_the_record_of_each_position() {
    let mut model = configured(2);
    let placeholder = model.item(2).expect("placeholder");
    model.load_page(3, 2, &good_loader);
    let object = model.item(3).expect("loaded");
    assert_ne!(object.handle, placeholder.handle);
    assert_eq!(
        object.row,
        VirtualAddressRow::Loaded { index: 3, record: record(4, "old") }
    );
    let events = model.take_events();
    assert!(events.contains(&ModelEvent::ItemsChanged { position: 2, removed: 2, added: 2 }));
    assert!(model.is_loaded(3));
    assert!(!model.is_loaded(0));
}

#[test]
fn last_page_holds_only_the_shown_positions() {
    let mut model = configured(2);
    model.load_page(3, 4, &good_loader);
    assert_eq!(
        model.item(4).expect("loaded").row,
        VirtualAddressRow::Loaded { index: 4, record: record(5, "old") }
    );
    assert!(model.item(5).is_none());
}

#[test]
fn page_of_another_generation_clears_the_model() {
    let mut model = configured(2);
    model.item(0);
    let loader = |generation: u64, start: u64, _: u32, _: bool| {
        Ok(page(generation + 1, start, 5, 7, vec![record(1, "x"), record(2, "x")]))
    };
    model.load_page(3, 0, &loader);
    assert_eq!(model.n_items(), 0);
    assert_eq!(model.generation(), 0);
    assert!(!model.is_configured());
    assert!(model.item(0).is_none());
    assert_eq!(
        last_issue(&mut model),
        Some(ModelIssue::Stale(STALE_WHILE_LOADING.to_owned()))
    );
}

#[test]
fn page_under_another_paging_contract_clears_the_model() {
    let mut model = configured(2);
    let loader = |generation: u64, start: u64, _: u32, _: bool| {
        Ok(page(generation, start, 6, 7, vec![record(1, "x"), record(2, "x")]))
    };
    model.load_page(3, 0, &loader);
    assert_eq!(model.n_items(), 0);
    assert_eq!(
        last_issue(&mut model),
        Some(ModelIssue::Stale(STALE_PAGING_CONTRACT.to_owned()))
    );
}

#[test]
fn failed_load_shows_error_rows_and_keeps_the_model() {
    let mut model = configured(2);
    let loader = |_: u64, _: u64, _: u32, _: bool| -> Result<AddressPage, String> {
        Err("boom".to_owned())
    };
    model.load_page(3, 2, &loader);
    assert_eq!(
        model.item(3).expect("error row").row,
        VirtualAddressRow::Error { index: 3, message: "boom".to_owned() }
    );
    assert_eq!(model.n_items(), 5);
    assert!(model.is_configured());
    assert_eq!(last_issue(&mut model), Some(ModelIssue::Page("boom".to_owned())));
}

#[test]
fn page_with_an_error_message_shows_error_rows() {
    let mut model = configured(2);
    let loader = |generation: u64, start: u64, _: u32, _: bool| {
        let mut result = page(generation, start, 5, 7, Vec::new());
        result.error_message = "unreadable".to_owned();
        Ok(result)
    };
    model.load_page(3, 0, &loader);
    assert_eq!(
        model.item(1).expect("error row").row,
        VirtualAddressRow::Error { index: 1, message: "unreadable".to_owned() }
    );
    assert_eq!(last_issue(&mut model), Some(ModelIssue::Page("unreadable".to_owned())));
}

#[test]
fn page_of_the_wrong_length_shows_error_rows() {
    let mut model = configured(2);
    let loader = |generation: u64, start: u64, _: u32, _: bool| {
        Ok(page(generation, start, 5, 7, vec![record(1, "x")]))
    };
    model.load_page(3, 0, &loader);
    assert_eq!(
        model.item(0).expect("error row").row,
        VirtualAddressRow::Error { index: 0, message: UNEXPECTED_PAGE_LENGTH.to_owned() }
    );
    assert_eq!(model.n_items(), 5);
}

#[test]
fn load_for_an_old_generation_only_drops_the_placeholder() {
    let mut model = configured(2);
    model.item(0);
    model.take_events();
    let loader = |_: u64, _: u64, _: u32, _: bool| -> Result<AddressPage, String> {
        panic!("the loader must not run for an old generation")
    };
    model.load_page(2, 0, &loader);
    assert_eq!(model.n_items(), 5);
    assert!(model.take_events().is_empty());
}

#[test]
fn refresh_changes_only_cached_requested_pages() {
    let mut model = configured(2);
    model.load_page(3, 0, &good_loader);
    model.load_page(3, 2, &good_loader);
    let second_page = model.item(2).expect("loaded");
    let refreshed = model.refresh_pages(&[0, 4, 0], &good_loader);
    assert_eq!(refreshed, vec![record(1, "fresh"), record(2, "fresh")]);
    assert_eq!(model.item(2).expect("untouched"), second_page);
    let first = model.item(0).expect("refreshed").row;
    assert_eq!(first, VirtualAddressRow::Loaded { index: 0, record: record(1, "fresh") });
}

#[test]
fn refresh_with_changed_hierarchy_clears_the_model() {
    let mut model = configured(2);
    model.load_page(3, 0, &good_loader);
    let loader = |generation: u64, start: u64, _: u32, _: bool| {
        Ok(page(generation, start, 5, 7, vec![record(8, "x"), record(9, "x")]))
    };
    assert!(model.refresh_pages(&[0], &loader).is_empty());
    assert_eq!(model.n_items(), 0);
    assert_eq!(
        last_issue(&mut model),
        Some(ModelIssue::Stale(STALE_HIERARCHY.to_owned()))
    );
}

#[test]
fn refresh_replaces_a_page_that_showed_errors() {
    let mut model = configured(2);
    let failing = |_: u64, _: u64, _: u32, _: bool| -> Result<AddressPage, String> {
        Err("boom".to_owned())
    };
    model.load_page(3, 0, &failing);
    let error_object = model.item(0).expect("error row");
    let refreshed = model.refresh_pages(&[0], &good_loader);
    assert_eq!(refreshed.len(), 2);
    let object = model.item(0).expect("replaced row");
    assert_ne!(object.handle, error_object.handle);
    assert_eq!(object.row, VirtualAddressRow::Loaded { index: 0, record: record(1, "fresh") });
}

#[test]
fn refresh_without_a_loader_does_nothing() {
    let mut model = AddressListModel::new(2, 2);
    assert!(model.refresh_pages(&[0], &good_loader).is_empty());
    assert!(model.take_events().is_empty());
}

#[test]
fn clear_empties_the_model_and_announces_it() {
    let mut model = configured(2);
    model.load_page(3, 0, &good_loader);
    model.take_events();
    model.clear();
    assert_eq!(model.n_items(), 0);
    assert_eq!(model.total_count(), 0);
    assert_eq!(model.raw_total_count(), 0);
    assert!(!model.is_configured());
    assert!(model.item(0).is_none());
    assert_eq!(
        model.take_events(),
        vec![ModelEvent::ItemsChanged { position: 0, removed: 5, added: 0 }]
    );
}

#[test]
fn sorted_distinct_orders_and_dedups() {
    assert_eq!(sorted_distinct(&[4, 0, 4, 2, 0]), vec![0, 2, 4]);
    assert!(sorted_distinct(&[]).is_empty());
}

#[test]
fn refresh_writes_matching_objects_before_the_page_turns_out_stale() {
    let mut model = configured(2);
    model.load_page(3, 0, &good_loader);
    let first = model.item(0).expect("loaded");
    model.take_events();
    let loader = |generation: u64, start: u64, _: u32, _: bool| {
        Ok(page(generation, start, 5, 7, vec![record(1, "fresh"), record(9, "x")]))
    };
    assert!(model.refresh_pages(&[0], &loader).is_empty());
    let events = model.take_events();
    assert_eq!(
        events[0],
        ModelEvent::RowUpdated(ce_gtk::page_cache::RowObject {
            handle: first.handle,
            row: VirtualAddressRow::Loaded { index: 0, record: record(1, "fresh") },
        })
    );
    assert_eq!(events[1], ModelEvent::ItemsChanged { position: 0, removed: 5, added: 0 });
    assert_eq!(
        events[2],
        ModelEvent::Issue(ModelIssue::Stale(STALE_HIERARCHY.to_owned()))
    );
    assert_eq!(events.len(), 3);
}

#[test]
fn refresh_announces_each_object_updated_in_place() {
    let mut model = AddressListModel::new(2, 2);
    model.configure(3, 5, 7);
    let loaded = |generation: u64, start: u64, _: u32, _: bool| {
        Ok(page(generation, start, 5, 7, vec![record(1, "old"), record(2, "old")]))
    };
    model.load_page(3, 0, &loaded);
    let first = model.item(0).expect("loaded");
    model.take_events();
    let refreshed = model.refresh_pages(&[0], &good_loader);
    assert_eq!(refreshed.len(), 2);
    let events = model.take_events();
    assert!(events.contains(&ModelEvent::RowUpdated(ce_gtk::page_cache::RowObject {
        handle: first.handle,
        row: VirtualAddressRow::Loaded { index: 0, record: record(1, "fresh") },
    })));
}

#[test]
fn every_object_names_its_position() {
    let mut model = configured(2);
    for position in 0..5 {
        let object = model.item(position).expect("shown position");
        let index = match object.row {
            VirtualAddressRow::Loading { index } => index,
            VirtualAddressRow::Loaded { index, .. } => index,
            VirtualAddressRow::Error { index, .. } => index,
        };
        assert_eq!(index, u64::from(position));
    }
    let placeholder = model.item(3).expect("placeholder");
    let sibling = model.item(2).expect("same page");
    assert_eq!(sibling.row, VirtualAddressRow::Loading { index: 2 });
    assert_ne!(sibling.handle, placeholder.handle);
    model.load_page(3, 2, &good_loader);
    assert_eq!(
        model.item(2).expect("loaded").row,
        VirtualAddressRow::Loaded { index: 2, record: record(3, "old") }
    );
}
