//! The read-only review of a cheat table's scripts: the capped requests it
//! makes, how it pages through the script summaries and through a payload,
//! and what it says of each.
use crate::text::{decimal_digits, decimal_text, push_decimal, push_signed_decimal, push_text};
use vstd::prelude::*;

verus! {

/// The most script summaries that one review request asks for.
pub const SCRIPT_REVIEW_PAGE_SIZE: u32 = 64;

/// The most payload bytes that one request asks for: 64 KiB.
pub const SCRIPT_TEXT_PAGE_SIZE: u32 = 65536;

/// The pager's label when the table holds no scripts.
pub const NO_SCRIPTS: &'static str = "No preserved scripts";

/// The label of a script that belongs to the table rather than a record.
pub const TABLE_LEVEL: &'static str = "Table-level";

/// The run button of a Lua payload once Lua is trusted.
pub const RUN_LUA: &'static str = "Run this Lua payload…";

/// The run button of a Lua payload while Lua is not trusted.
pub const LUA_BLOCKED: &'static str = "Lua blocked — grant trust in the review window";

/// The kind of a script that a table holds.
#[derive(Clone, Copy, Debug, PartialEq, Eq)]
pub enum TableScriptKind {
    TableLua,
    AutoAssembler,
    RecordLua,
    Unknown(u32),
}

/// What the review reads of a page of script summaries: where it starts,
/// where the next page starts, how many scripts the table holds, and
/// whether more follow.
#[derive(Clone, Copy, Debug, PartialEq, Eq)]
pub struct ScriptPageView {
    pub start: u64,
    pub next_start: u64,
    pub total_count: u64,
    pub truncated: bool,
}

/// The pager of the review: whether Previous and Next can be used, and the
/// label between them.
#[derive(Clone, Debug, PartialEq, Eq)]
pub struct PagerControls {
    pub previous_enabled: bool,
    pub next_enabled: bool,
    pub label: String,
}

/// The pager label of a page of script summaries: the positions it shows,
/// counted from one, and the number of scripts.
pub open spec fn review_label(start: u64, next_start: u64, total_count: u64) -> Seq<char> {
    if total_count == 0 {
        NO_SCRIPTS@
    } else {
        decimal_digits((start + 1) as nat) + "–"@ + decimal_digits(next_start as nat) + " of "@
            + decimal_digits(total_count as nat)
    }
}

/// The request for the page of script summaries that starts at `start`:
/// never more than `SCRIPT_REVIEW_PAGE_SIZE` of them.
pub fn review_request(start: u64) -> (request: (u64, u32))
    ensures
        request == (start, SCRIPT_REVIEW_PAGE_SIZE),
{
    (start, SCRIPT_REVIEW_PAGE_SIZE)
}

/// The pager for `page`: Previous once the page does not start at the
/// first script, Next while more scripts follow; see `review_label`.
pub fn review_controls(page: &ScriptPageView) -> (controls: PagerControls)
    requires
        page.total_count == 0 || page.start < u64::MAX,
    ensures
        controls.previous_enabled == (page.start > 0),
        controls.next_enabled == page.truncated,
        controls.label@ == review_label(page.start, page.next_start, page.total_count),
{
    let mut label = String::new();
    if page.total_count == 0 {
        push_text(&mut label, NO_SCRIPTS);
    } else {
        push_decimal(&mut label, page.start + 1);
        push_text(&mut label, "–");
        push_decimal(&mut label, page.next_start);
        push_text(&mut label, " of ");
        push_decimal(&mut label, page.total_count);
    }
    assert(label@ =~= review_label(page.start, page.next_start, page.total_count));
    PagerControls { previous_enabled: page.start > 0, next_enabled: page.truncated, label }
}

/// Where the page before the one at `start` starts: a page earlier, or at
/// the first script.
pub fn previous_review_start(start: u64) -> (previous: u64)
    ensures
        previous == if start >= SCRIPT_REVIEW_PAGE_SIZE {
            (start - SCRIPT_REVIEW_PAGE_SIZE) as u64
        } else {
            0
        },
{
    start.saturating_sub(SCRIPT_REVIEW_PAGE_SIZE as u64)
}

/// Where the page after the one at `start` starts: a page later, or at
/// `u64::MAX`.
pub fn next_review_start(start: u64) -> (next: u64)
    ensures
        next == if start + SCRIPT_REVIEW_PAGE_SIZE <= u64::MAX {
            (start + SCRIPT_REVIEW_PAGE_SIZE) as u64
        } else {
            u64::MAX
        },
{
    start.saturating_add(SCRIPT_REVIEW_PAGE_SIZE as u64)
}

/// Whom a script belongs to: the table, or the record `record_id`.
pub open spec fn record_label_text(record_id: i32) -> Seq<char> {
    if record_id == 0 {
        TABLE_LEVEL@
    } else {
        "Record #"@ + decimal_text(record_id as int)
    }
}

/// The name of a kind of script.
pub open spec fn kind_label(kind: TableScriptKind) -> &'static str {
    match kind {
        TableScriptKind::TableLua => "Table Lua",
        TableScriptKind::AutoAssembler => "Auto Assembler",
        TableScriptKind::RecordLua => "Record Lua",
        TableScriptKind::Unknown(_) => "Unknown script",
    }
}

/// The name of `kind`; see `kind_label`.
pub fn table_script_kind_label(kind: TableScriptKind) -> (label: &'static str)
    ensures
        label == kind_label(kind),
{
    match kind {
        TableScriptKind::TableLua => "Table Lua",
        TableScriptKind::AutoAssembler => "Auto Assembler",
        TableScriptKind::RecordLua => "Record Lua",
        TableScriptKind::Unknown(_) => "Unknown script",
    }
}

/// The second line of a script in the review: whom it belongs to, its
/// kind, and its size.
pub open spec fn script_subtitle_text(record_id: i32, kind: TableScriptKind, byte_count: u64) -> Seq<
    char,
> {
    record_label_text(record_id) + " · "@ + kind_label(kind)@ + " · "@ + decimal_digits(
        byte_count as nat,
    ) + " bytes"@
}

/// The second line of a script in the review; see `script_subtitle_text`.
pub fn script_subtitle(record_id: i32, kind: TableScriptKind, byte_count: u64) -> (subtitle: String)
    ensures
        subtitle@ == script_subtitle_text(record_id, kind, byte_count),
{
    let mut subtitle = String::new();
    if record_id == 0 {
        push_text(&mut subtitle, TABLE_LEVEL);
    } else {
        push_text(&mut subtitle, "Record #");
        push_signed_decimal(&mut subtitle, record_id as i64);
    }
    push_text(&mut subtitle, " · ");
    push_text(&mut subtitle, table_script_kind_label(kind));
    push_text(&mut subtitle, " · ");
    push_decimal(&mut subtitle, byte_count);
    push_text(&mut subtitle, " bytes");
    assert(subtitle@ =~= script_subtitle_text(record_id, kind, byte_count));
    subtitle
}

/// The request for the payload bytes from `offset`: never more than
/// `SCRIPT_TEXT_PAGE_SIZE` of them.
pub fn payload_request(offset: u64) -> (request: (u64, u32))
    ensures
        request == (offset, SCRIPT_TEXT_PAGE_SIZE),
{
    (offset, SCRIPT_TEXT_PAGE_SIZE)
}

/// Whether Previous and Next can be used for a payload page read at
/// `offset`: Previous once it does not start at the first byte, Next while
/// more bytes follow.
pub fn payload_controls(offset: u64, truncated: bool) -> (controls: (bool, bool))
    ensures
        controls == (offset > 0, truncated),
{
    (offset > 0, truncated)
}

/// Where the payload page before the one at `offset` starts: a page
/// earlier, or at the first byte.
pub fn previous_payload_offset(offset: u64) -> (previous: u64)
    ensures
        previous == if offset >= SCRIPT_TEXT_PAGE_SIZE {
            (offset - SCRIPT_TEXT_PAGE_SIZE) as u64
        } else {
            0
        },
{
    offset.saturating_sub(SCRIPT_TEXT_PAGE_SIZE as u64)
}

/// The pager label of a payload page: the bytes it shows, counted from
/// one, and the payload's size.
pub open spec fn payload_label_text(offset: u64, next_offset: u64, total_bytes: u64) -> Seq<char> {
    "Bytes "@ + decimal_digits(if offset == u64::MAX { u64::MAX as nat } else { (offset + 1) as nat })
        + "–"@ + decimal_digits(next_offset as nat) + " of "@ + decimal_digits(total_bytes as nat)
}

/// The pager label of a payload page; see `payload_label_text`.
pub fn payload_label(offset: u64, next_offset: u64, total_bytes: u64) -> (label: String)
    ensures
        label@ == payload_label_text(offset, next_offset, total_bytes),
{
    let mut label = String::new();
    push_text(&mut label, "Bytes ");
    push_decimal(&mut label, offset.saturating_add(1));
    push_text(&mut label, "–");
    push_decimal(&mut label, next_offset);
    push_text(&mut label, " of ");
    push_decimal(&mut label, total_bytes);
    assert(label@ =~= payload_label_text(offset, next_offset, total_bytes));
    label
}

/// The pager label when a payload page could not be read.
pub fn payload_error_label(message: &str, code: &str) -> (label: String)
    ensures
        label@ == "Could not read this payload: "@ + message@ + " ("@ + code@ + ")"@,
{
    let mut label = String::new();
    push_text(&mut label, "Could not read this payload: ");
    push_text(&mut label, message);
    push_text(&mut label, " (");
    push_text(&mut label, code);
    push_text(&mut label, ")");
    assert(label@ =~= "Could not read this payload: "@ + message@ + " ("@ + code@ + ")"@);
    label
}

/// The run button of the payload dialog: only Lua payloads get one; it
/// can be used only once Lua is trusted, and says so.
pub fn payload_run_button(kind: TableScriptKind, lua_trusted: bool) -> (button: Option<
    (&'static str, bool),
>)
    ensures
        button == if kind == TableScriptKind::TableLua || kind == TableScriptKind::RecordLua {
            Some(
                (
                    if lua_trusted {
                        RUN_LUA
                    } else {
                        LUA_BLOCKED
                    },
                    lua_trusted,
                ),
            )
        } else {
            None
        },
{
    match kind {
        TableScriptKind::TableLua | TableScriptKind::RecordLua => Some(
            (
                if lua_trusted {
                    RUN_LUA
                } else {
                    LUA_BLOCKED
                },
                lua_trusted,
            ),
        ),
        _ => None,
    }
}

} // verus!
