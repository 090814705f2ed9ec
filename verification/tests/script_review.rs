use ce_gtk::script_review::{
    next_review_start, payload_controls, payload_error_label, payload_label, payload_request,
    payload_run_button, previous_payload_offset, previous_review_start, review_controls,
    review_request, script_subtitle, table_script_kind_label, ScriptPageView, TableScriptKind,
    LUA_BLOCKED, RUN_LUA, SCRIPT_REVIEW_PAGE_SIZE, SCRIPT_TEXT_PAGE_SIZE,
};

#[test]
fn review_requests_are_capped() {
    assert_eq!(review_request(128), (128, 64));
    assert_eq!(SCRIPT_REVIEW_PAGE_SIZE, 64);
    assert_eq!(payload_request(7), (7, 65536));
    assert_eq!(SCRIPT_TEXT_PAGE_SIZE, 64 * 1024);
}

#[test]
fn review_pager_follows_the_page() {
    let empty = review_controls(&ScriptPageView { start: 0, next_start: 0, total_count: 0, truncated: false });
    assert!(!empty.previous_enabled && !empty.next_enabled);
    assert_eq!(empty.label, "No preserved scripts");
    let middle = review_controls(&ScriptPageView { start: 64, next_start: 128, total_count: 300, truncated: true });
    assert!(middle.previous_enabled && middle.next_enabled);
    assert_eq!(middle.label, "65–128 of 300");
}

#[test]
fn review_and_payload_paging_saturate() {
    assert_eq!(previous_review_start(100), 36);
    assert_eq!(previous_review_start(10), 0);
    assert_eq!(next_review_start(64), 128);
    assert_eq!(next_review_start(u64::MAX - 1), u64::MAX);
    assert_eq!(previous_payload_offset(70000), 70000 - 65536);
    assert_eq!(previous_payload_offset(100), 0);
    assert_eq!(payload_controls(0, true), (false, true));
    assert_eq!(payload_controls(65536, false), (true, false));
}

#[test]
fn scripts_are_labelled_by_owner_kind_and_size() {
    assert_eq!(
        script_subtitle(0, TableScriptKind::TableLua, 12),
        "Table-level · Table Lua · 12 bytes"
    );
    assert_eq!(
        script_subtitle(42, TableScriptKind::AutoAssembler, 0),
        "Record #42 · Auto Assembler · 0 bytes"
    );
    assert_eq!(table_script_kind_label(TableScriptKind::RecordLua), "Record Lua");
    assert_eq!(table_script_kind_label(TableScriptKind::Unknown(9)), "Unknown script");
}

#[test]
fn payload_pager_and_run_button() {
    assert_eq!(payload_label(0, 65536, 70000), "Bytes 1–65536 of 70000");
    assert_eq!(payload_label(u64::MAX, u64::MAX, 1), format!("Bytes {}–{} of 1", u64::MAX, u64::MAX));
    assert_eq!(
        payload_error_label("missing", "no_script"),
        "Could not read this payload: missing (no_script)"
    );
    assert_eq!(payload_run_button(TableScriptKind::TableLua, true), Some((RUN_LUA, true)));
    assert_eq!(payload_run_button(TableScriptKind::RecordLua, false), Some((LUA_BLOCKED, false)));
    assert_eq!(payload_run_button(TableScriptKind::AutoAssembler, true), None);
}
