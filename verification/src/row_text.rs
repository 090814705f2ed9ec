//! What the list views show for a row: the cells of a scan result, and the
//! title and detail of an address row that holds no record yet.
use crate::address_list_model::VirtualAddressRow;
use crate::memory_view::{address_field, address_field_text};
use crate::scan_result_model::VirtualScanRow;
use crate::text::{decimal_digits, push_decimal, push_text, string_of};
use vstd::prelude::*;

verus! {

pub const LOADING_VALUE: &'static str = "Loading…";

pub const ADDRESS_LOADING_DETAIL: &'static str = "Fetching this visible hierarchy page";

/// `prefix`, the position `index` counted from one, and `suffix`.
pub open spec fn numbered(prefix: Seq<char>, index: u64, suffix: Seq<char>) -> Seq<char> {
    prefix + decimal_digits((index + 1) as nat) + suffix
}

/// How the value cell of a scan result looks.
#[derive(Clone, Copy, Debug, PartialEq, Eq)]
pub enum ValueStyle {
    Plain,
    Dimmed,
    Error,
}

/// The cells of a scan result row: the address or the result's number, the
/// value or what stands in its place, how the value looks, and whether the
/// row's actions can be used.
#[derive(Clone, Debug, PartialEq, Eq)]
pub struct ScanRowCells {
    pub address: String,
    pub value: String,
    pub style: ValueStyle,
    pub actions_enabled: bool,
}

/// `prefix`, then `index + 1` in decimal, then `suffix`.
fn numbered_text(prefix: &str, index: u64, suffix: &str) -> (text: String)
    requires
        index < u64::MAX,
    ensures
        text@ == numbered(prefix@, index, suffix@),
{
    let mut text = String::new();
    push_text(&mut text, prefix);
    push_decimal(&mut text, index + 1);
    push_text(&mut text, suffix);
    assert(text@ =~= numbered(prefix@, index, suffix@));
    text
}

/// The cells that the scan result list shows for `row`.
pub fn scan_row_cells(row: &VirtualScanRow) -> (cells: ScanRowCells)
    requires
        match row {
            VirtualScanRow::Loading { index } => *index < u64::MAX,
            VirtualScanRow::Error { index, .. } => *index < u64::MAX,
            VirtualScanRow::Loaded { .. } => true,
        },
    ensures
        match row {
            VirtualScanRow::Loading { index } => {
                &&& cells.address@ == numbered("Result #"@, *index, Seq::empty())
                &&& cells.value@ == LOADING_VALUE@
                &&& cells.style == ValueStyle::Dimmed
                &&& !cells.actions_enabled
            },
            VirtualScanRow::Loaded { address, value, .. } => {
                &&& cells.address@ == address_field_text(*address)
                &&& cells.value@ == value@
                &&& cells.style == ValueStyle::Plain
                &&& cells.actions_enabled
            },
            VirtualScanRow::Error { index, message } => {
                &&& cells.address@ == numbered("Result #"@, *index, Seq::empty())
                &&& cells.value@ == message@
                &&& cells.style == ValueStyle::Error
                &&& !cells.actions_enabled
            },
        },
{
    proof {
        reveal_strlit("");
    }
    match row {
        VirtualScanRow::Loading { index } => ScanRowCells {
            address: numbered_text("Result #", *index, ""),
            value: string_of(LOADING_VALUE),
            style: ValueStyle::Dimmed,
            actions_enabled: false,
        },
        VirtualScanRow::Loaded { address, value, .. } => ScanRowCells {
            address: address_field(*address),
            value: value.clone(),
            style: ValueStyle::Plain,
            actions_enabled: true,
        },
        VirtualScanRow::Error { index, message } => ScanRowCells {
            address: numbered_text("Result #", *index, ""),
            value: message.clone(),
            style: ValueStyle::Error,
            actions_enabled: false,
        },
    }
}

/// The title and detail of an address row that holds no record: the
/// record's number with what became of it, and why; none for a loaded
/// record, which gets a row of its own.
pub fn address_status(row: &VirtualAddressRow) -> (status: Option<(String, String)>)
    requires
        match row {
            VirtualAddressRow::Loading { index } => *index < u64::MAX,
            VirtualAddressRow::Error { index, .. } => *index < u64::MAX,
            VirtualAddressRow::Loaded { .. } => true,
        },
    ensures
        match row {
            VirtualAddressRow::Loading { index } => status matches Some((title, detail)) && title@
                == numbered("Loading address record #"@, *index, "…"@) && detail@
                == ADDRESS_LOADING_DETAIL@,
            VirtualAddressRow::Error { index, message } => status matches Some((title, detail))
                && title@ == numbered("Address record #"@, *index, " is unavailable"@) && detail@
                == message@,
            VirtualAddressRow::Loaded { .. } => status is None,
        },
{
    match row {
        VirtualAddressRow::Loading { index } => Some(
            (
                numbered_text("Loading address record #", *index, "…"),
                string_of(ADDRESS_LOADING_DETAIL),
            ),
        ),
        VirtualAddressRow::Error { index, message } => Some(
            (numbered_text("Address record #", *index, " is unavailable"), message.clone()),
        ),
        VirtualAddressRow::Loaded { .. } => None,
    }
}

} // verus!
