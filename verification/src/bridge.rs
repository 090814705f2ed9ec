//! The records that the engine hands the front end: processes, cheat-table
//! address records and scan hits, and the pages in which it returns them.
use crate::page_cache::ExactCopy;
use vstd::prelude::*;

verus! {

/// A running process as the engine reports it to the process chooser.
#[derive(Clone, Debug, PartialEq, Eq)]
pub struct Process {
    pub pid: i32,
    pub name: String,
    pub path: String,
    pub sandboxed: bool,
}

/// The value type that a scan or an address record reads.
#[derive(Clone, Copy, Debug, PartialEq, Eq)]
pub enum ScanValueType {
    Byte,
    Int16,
    Int32,
    Int64,
    Float,
    Double,
    String,
    UnicodeString,
    ByteArray,
    Binary,
    All,
    Grouped,
    Custom,
    Pointer,
}

/// How a frozen address record holds its value.
#[derive(Clone, Copy, Debug, PartialEq, Eq)]
pub enum FreezeMode {
    Normal,
    AllowIncrease,
    AllowDecrease,
}

/// One record of the address list, as the engine reports it.
#[derive(Clone, Debug, PartialEq, Eq)]
pub struct AddressRecord {
    pub id: i32,
    pub description: String,
    pub address: u64,
    pub address_expression: String,
    pub value_type: ScanValueType,
    pub type_label: String,
    pub value: String,
    pub error_message: String,
    pub readable: bool,
    pub active: bool,
    pub freeze_mode: FreezeMode,
    pub show_as_hex: bool,
    pub byte_count: u32,
    pub is_group: bool,
    pub collapsed: bool,
    pub has_script: bool,
    pub has_auto_assembler: bool,
    pub has_lua: bool,
    pub indent: i32,
}

impl ExactCopy for AddressRecord {
    fn exact_copy(&self) -> (copy: Self) {
        AddressRecord {
            id: self.id,
            description: self.description.clone(),
            address: self.address,
            address_expression: self.address_expression.clone(),
            value_type: self.value_type,
            type_label: self.type_label.clone(),
            value: self.value.clone(),
            error_message: self.error_message.clone(),
            readable: self.readable,
            active: self.active,
            freeze_mode: self.freeze_mode,
            show_as_hex: self.show_as_hex,
            byte_count: self.byte_count,
            is_group: self.is_group,
            collapsed: self.collapsed,
            has_script: self.has_script,
            has_auto_assembler: self.has_auto_assembler,
            has_lua: self.has_lua,
            indent: self.indent,
        }
    }
}

/// Copies a list of address records element by element.
pub fn copy_records(records: &Vec<AddressRecord>) -> (copy: Vec<AddressRecord>)
    ensures
        copy@ == records@,
{
    let mut copy: Vec<AddressRecord> = Vec::new();
    let mut i: usize = 0;
    while i < records.len()
        invariant
            i <= records.len(),
            copy@ == records@.subrange(0, i as int),
        decreases records.len() - i,
    {
        copy.push(records[i].exact_copy());
        i += 1;
        assert(copy@ =~= records@.subrange(0, i as int));
    }
    assert(records@.subrange(0, records@.len() as int) =~= records@);
    copy
}

/// One page of the address list, as the engine answers a page request.
#[derive(Clone, Debug, PartialEq, Eq)]
pub struct AddressPage {
    pub generation: u64,
    pub start: u64,
    pub total_count: u64,
    pub raw_total_count: u64,
    pub error_message: String,
    pub rows: Vec<AddressRecord>,
}

/// One scan hit: the address that matched and its value as text.
#[derive(Clone, Debug, PartialEq, Eq)]
pub struct ScanHit {
    pub address: u64,
    pub value: String,
}

/// One page of scan results, as the engine answers a page request.
#[derive(Clone, Debug, PartialEq, Eq)]
pub struct ScanPage {
    pub generation: u64,
    pub start: u64,
    pub total_count: u64,
    pub stale: bool,
    pub error_message: String,
    pub rows: Vec<ScanHit>,
}

} // verus!
