use ce_gtk::address_list_model::VirtualAddressRow;
use ce_gtk::row_text::{address_status, scan_row_cells, ScanRowCells, ValueStyle};
use ce_gtk::scan_result_model::VirtualScanRow;

#[test]
fn scan_rows_show_their_number_until_loaded() {
    assert_eq!(
        scan_row_cells(&VirtualScanRow::Loading { index: 41 }),
        ScanRowCells {
            address: "Result #42".to_owned(),
            value: "Loading…".to_owned(),
            style: ValueStyle::Dimmed,
            actions_enabled: false,
        }
    );
    assert_eq!(
        scan_row_cells(&VirtualScanRow::Error { index: 0, message: "unreadable".to_owned() }),
        ScanRowCells {
            address: "Result #1".to_owned(),
            value: "unreadable".to_owned(),
            style: ValueStyle::Error,
            actions_enabled: false,
        }
    );
}

#[test]
fn loaded_scan_rows_show_address_and_value() {
    assert_eq!(
        scan_row_cells(&VirtualScanRow::Loaded {
            index: 3,
            address: 0x7ff0_1234,
            value: "100".to_owned(),
        }),
        ScanRowCells {
            address: "0x000000007FF01234".to_owned(),
            value: "100".to_owned(),
            style: ValueStyle::Plain,
            actions_enabled: true,
        }
    );
}

#[test]
fn address_rows_without_a_record_say_why() {
    assert_eq!(
        address_status(&VirtualAddressRow::Loading { index: 9 }),
        Some((
            "Loading address record #10…".to_owned(),
            "Fetching this visible hierarchy page".to_owned()
        ))
    );
    assert_eq!(
        address_status(&VirtualAddressRow::Error { index: 4_294_967_294, message: "gone".to_owned() }),
        Some(("Address record #4294967295 is unavailable".to_owned(), "gone".to_owned()))
    );
}
