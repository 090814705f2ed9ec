use ce_gtk::address_row::{
    address_label, address_row_controls, address_subtitle, address_summary, record_title,
};
use ce_gtk::bridge::{AddressRecord, FreezeMode, ScanValueType};

fn record() -> AddressRecord {
    AddressRecord {
        id: 1,
        description: "Health".to_owned(),
        address: 0x1000,
        address_expression: String::new(),
        value_type: ScanValueType::Int32,
        type_label: "4 Bytes".to_owned(),
        value: "100".to_owned(),
        error_message: String::new(),
        readable: true,
        active: false,
        freeze_mode: FreezeMode::Normal,
        show_as_hex: false,
        byte_count: 4,
        is_group: false,
        collapsed: false,
        has_script: false,
        has_auto_assembler: false,
        has_lua: false,
        indent: 0,
    }
}

#[test]
fn address_labels_show_the_address_or_the_script_trust() {
    let plain = record();
    assert_eq!(address_label(&plain, false, false), "0x0000000000001000");
    let mut expression = record();
    expression.address_expression = "game.exe+10".to_owned();
    assert_eq!(address_label(&expression, false, false), "game.exe+10 → 0x0000000000001000");
    let mut group = record();
    group.is_group = true;
    assert_eq!(address_label(&group, true, true), "Group");
    let mut both = record();
    both.has_script = true;
    both.has_auto_assembler = true;
    both.has_lua = true;
    assert_eq!(address_label(&both, true, true), "Auto Assembler trusted; Lua runnable from review");
    assert_eq!(address_label(&both, true, false), "Auto Assembler trusted; Lua blocked");
    assert_eq!(address_label(&both, false, true), "Auto Assembler blocked; Lua runnable from review");
    assert_eq!(address_label(&both, false, false), "Auto Assembler and Lua preserved; execution blocked");
    let mut aa = record();
    aa.has_script = true;
    aa.has_auto_assembler = true;
    assert_eq!(address_label(&aa, true, false), "Auto Assembler trusted; enable explicitly");
    assert_eq!(address_label(&aa, false, true), "Auto Assembler preserved; execution blocked");
    let mut lua = record();
    lua.has_script = true;
    lua.has_lua = true;
    assert_eq!(address_label(&lua, false, true), "Lua trusted; run explicitly from script review");
    assert_eq!(address_label(&lua, true, false), "Lua preserved; execution blocked");
}

#[test]
fn subtitles_and_titles() {
    let mut failing = record();
    failing.error_message = "unreadable".to_owned();
    assert_eq!(address_subtitle(&record(), false, false), "0x0000000000001000 · 4 Bytes");
    assert_eq!(
        address_subtitle(&failing, false, false),
        "0x0000000000001000 · 4 Bytes · unreadable"
    );
    let mut nested = record();
    nested.indent = 2;
    assert_eq!(record_title(&nested), "\u{a0}\u{a0}\u{a0}\u{a0}Health");
    nested.indent = -3;
    assert_eq!(record_title(&nested), "Health");
}

#[test]
fn row_controls_follow_attachment_groups_and_trust() {
    let controls = address_row_controls(&record(), true, false);
    assert!(controls.value_editable && controls.toggle_enabled);
    assert_eq!(controls.toggle_tooltip, "Freeze this value");
    assert_eq!(controls.collapse, None);
    assert!(!address_row_controls(&record(), false, true).value_editable);
    let mut aa = record();
    aa.has_script = true;
    aa.has_auto_assembler = true;
    aa.readable = false;
    aa.error_message = "gone".to_owned();
    let untrusted = address_row_controls(&aa, true, false);
    assert!(!untrusted.value_editable && !untrusted.toggle_enabled && untrusted.value_unreadable);
    assert_eq!(untrusted.value_tooltip, Some("gone".to_owned()));
    assert_eq!(untrusted.toggle_tooltip, "Trust this table before enabling Auto Assembler");
    assert!(address_row_controls(&aa, true, true).toggle_enabled);
    let mut group = record();
    group.is_group = true;
    group.collapsed = true;
    let controls = address_row_controls(&group, true, true);
    assert!(controls.toggle_hidden && !controls.toggle_enabled);
    assert_eq!(controls.collapse, Some(("pan-end-symbolic", "Expand group")));
}

#[test]
fn address_summary_counts_records_and_limits() {
    assert_eq!(
        address_summary(0, 0, 0, 4096, true),
        "Add a scan result to edit or freeze its live value."
    );
    assert_eq!(
        address_summary(1, 1, 1, 4096, false),
        "1 record · 1 visible · cache up to 4096 rows · attach to refresh values"
    );
    assert_eq!(
        address_summary(10, 7, 7, 512, true),
        "10 records · 7 visible · 3 hidden by collapsed groups · cache up to 512 rows · live values refresh automatically"
    );
    let total = u64::from(u32::MAX) + 5;
    assert_eq!(
        address_summary(total, total, u32::MAX, 1, true),
        format!(
            "{total} records · {total} visible · GTK exposes the first {} · cache up to 1 rows · live values refresh automatically",
            u32::MAX
        )
    );
}
