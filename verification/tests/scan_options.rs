use ce_gtk::bridge::ScanValueType;
use ce_gtk::scan_options::{
    scan_option_layout, BYTE_ARRAY_HINT, FLOAT_HINT, GROUPED_HINT, TEXT_HINT, VALUE_HINT,
};

#[test]
fn integer_scans_offer_hexadecimal_and_percentages() {
    let layout = scan_option_layout(ScanValueType::Int32, true, false, 0, true, false);
    assert!(layout.value_shown);
    assert!(!layout.second_value_shown);
    assert!(layout.hexadecimal_shown);
    assert!(!layout.rounding_shown);
    assert!(!layout.text_options_shown);
    assert!(layout.alignment_enabled);
    assert!(layout.percentage_shown);
    assert!(!layout.percentage_value_shown);
    assert_eq!(layout.value_hint, VALUE_HINT);
}

#[test]
fn float_scans_offer_rounding_and_a_tolerance_after_its_choice() {
    let layout = scan_option_layout(ScanValueType::Double, true, true, 3, false, true);
    assert!(layout.rounding_shown);
    assert!(layout.tolerance_shown);
    assert!(!layout.hexadecimal_shown);
    assert!(layout.second_value_shown);
    assert!(layout.second_percentage_shown);
    assert!(layout.second_percentage_enabled);
    assert!(!layout.alignment_enabled);
    assert_eq!(layout.value_hint, FLOAT_HINT);
    let other = scan_option_layout(ScanValueType::Float, true, false, 2, true, false);
    assert!(!other.tolerance_shown);
}

#[test]
fn text_scans_offer_text_options_and_ignore_alignment() {
    let layout = scan_option_layout(ScanValueType::UnicodeString, true, false, 0, true, false);
    assert!(layout.text_options_shown);
    assert!(!layout.alignment_enabled);
    assert!(!layout.percentage_shown);
    assert!(!layout.value_size_shown);
    assert_eq!(layout.value_hint, TEXT_HINT);
    let snapshot = scan_option_layout(ScanValueType::ByteArray, false, false, 0, true, false);
    assert!(snapshot.value_size_shown);
    assert!(!snapshot.value_shown);
    assert_eq!(snapshot.value_hint, BYTE_ARRAY_HINT);
}

#[test]
fn grouped_scans_always_show_the_value() {
    let layout = scan_option_layout(ScanValueType::Grouped, false, false, 0, true, false);
    assert!(layout.value_shown);
    assert_eq!(layout.value_hint, GROUPED_HINT);
    let all = scan_option_layout(ScanValueType::All, true, false, 3, true, true);
    assert!(all.hexadecimal_shown && all.rounding_shown && all.tolerance_shown);
    assert!(all.percentage_shown);
    let custom = scan_option_layout(ScanValueType::Custom, true, false, 0, true, false);
    assert!(custom.value_size_shown && !custom.percentage_shown);
}
