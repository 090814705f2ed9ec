use ce_gtk::bridge::{ScanHit, ScanPage};
use ce_gtk::scan_result_model::{
    ModelEvent, ModelIssue, ScanResultModel, VirtualScanRow, SCAN_CHANGED_WHILE_LOADING,
    SCAN_PAGING_CONTRACT, UNEXPECTED_SCAN_PAGE_LENGTH,
};

fn page(generation: u64, start: u64, total: u64, count: u64) -> ScanPage {
    ScanPage {
        generation,
        start,
        total_count: total,
        stale: false,
        error_message: String::new(),
        rows: (start..start + count)
            .map(|i| ScanHit { address: 0x4000 + i, value: format!("v{i}") })
            .collect(),
    }
}

fn configured() -> ScanResultModel {
    let mut model = ScanResultModel::new(2, 2);
    model.configure(5, 3);
    model.take_events();
    model
}

fn last_issue(model: &mut ScanResultModel) -> Option<ModelIssue> {
    model.take_events().into_iter().rev().find_map(|event| match event {
        ModelEvent::Issue(issue) => Some(issue),
        _ => None,
    })
}

#[test]
fn repeated_scan_lookup_gives_the_same_placeholder_and_schedules_once() {
    let mut model = configured();
    let first = model.item(2).expect("placeholder");
    assert_eq!(model.item(2).expect("same placeholder"), first);
    assert_eq!(first.row, VirtualScanRow::Loading { index: 2 });
    assert_eq!(
        model.take_events(),
        vec![ModelEvent::ScheduleLoad { generation: 5, page_start: 2 }]
    );
}

#[test]
fn loaded_scan_page_shows_the_hit_of_each_position() {
    let mut model = configured();
    let loader = |generation: u64, start: u64, _: u32| Ok(page(generation, start, 3, 2));
    model.load_page(5, 0, &loader);
    assert_eq!(
        model.item(1).expect("loaded").row,
        VirtualScanRow::Loaded { index: 1, address: 0x4001, value: "v1".to_owned() }
    );
}

#[test]
fn scan_page_of_another_generation_clears_the_model() {
    let mut model = configured();
    let loader = |generation: u64, start: u64, _: u32| Ok(page(generation + 1, start, 3, 2));
    model.load_page(5, 0, &loader);
    assert_eq!(model.n_items(), 0);
    assert!(!model.is_configured());
    assert_eq!(
        last_issue(&mut model),
        Some(ModelIssue::Stale(SCAN_CHANGED_WHILE_LOADING.to_owned()))
    );
}

#[test]
fn scan_page_under_another_paging_contract_clears_the_model() {
    let mut model = configured();
    let loader = |generation: u64, start: u64, _: u32| Ok(page(generation, start, 4, 2));
    model.load_page(5, 0, &loader);
    assert_eq!(model.n_items(), 0);
    assert_eq!(
        last_issue(&mut model),
        Some(ModelIssue::Stale(SCAN_PAGING_CONTRACT.to_owned()))
    );
}

#[test]
fn failed_scan_load_shows_error_rows_and_keeps_the_model() {
    let mut model = configured();
    let loader = |_: u64, _: u64, _: u32| -> Result<ScanPage, String> { Err("gone".to_owned()) };
    model.load_page(5, 2, &loader);
    assert_eq!(
        model.item(2).expect("error row").row,
        VirtualScanRow::Error { index: 2, message: "gone".to_owned() }
    );
    assert!(model.item(3).is_none());
    assert_eq!(model.n_items(), 3);
    assert_eq!(last_issue(&mut model), Some(ModelIssue::Page("gone".to_owned())));
}

#[test]
fn scan_page_with_an_error_message_or_wrong_length_shows_error_rows() {
    let mut model = configured();
    let with_message = |generation: u64, start: u64, _: u32| {
        let mut result = page(generation, start, 3, 0);
        result.error_message = "unreadable".to_owned();
        Ok(result)
    };
    model.load_page(5, 0, &with_message);
    assert_eq!(
        model.item(0).expect("error row").row,
        VirtualScanRow::Error { index: 0, message: "unreadable".to_owned() }
    );
    let short = |generation: u64, start: u64, _: u32| Ok(page(generation, start, 3, 0));
    model.load_page(5, 2, &short);
    assert_eq!(
        model.item(2).expect("error row").row,
        VirtualScanRow::Error { index: 2, message: UNEXPECTED_SCAN_PAGE_LENGTH.to_owned() }
    );
}

#[test]
fn clearing_the_scan_model_announces_it() {
    let mut model = configured();
    model.clear();
    assert_eq!(model.n_items(), 0);
    assert_eq!(model.total_count(), 0);
    assert_eq!(
        model.take_events(),
        vec![ModelEvent::ItemsChanged { position: 0, removed: 3, added: 0 }]
    );
}
