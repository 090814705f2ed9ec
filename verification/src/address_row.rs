//! What a row of the address list shows of its record and which of its
//! controls can be used, following the table's script trust, and the
//! summary line above the list.
use crate::bridge::AddressRecord;
use crate::memory_view::{address_field, address_field_text};
use crate::text::{decimal_digits, push_decimal, push_text};
use vstd::prelude::*;

verus! {

pub const GROUP_LABEL: &'static str = "Group";

pub const AA_AND_LUA_TRUSTED: &'static str = "Auto Assembler trusted; Lua runnable from review";

pub const AA_TRUSTED_LUA_BLOCKED: &'static str = "Auto Assembler trusted; Lua blocked";

pub const AA_BLOCKED_LUA_TRUSTED: &'static str = "Auto Assembler blocked; Lua runnable from review";

pub const AA_AND_LUA_BLOCKED: &'static str = "Auto Assembler and Lua preserved; execution blocked";

pub const AA_TRUSTED: &'static str = "Auto Assembler trusted; enable explicitly";

pub const AA_BLOCKED: &'static str = "Auto Assembler preserved; execution blocked";

pub const LUA_TRUSTED: &'static str = "Lua trusted; run explicitly from script review";

pub const LUA_BLOCKED: &'static str = "Lua preserved; execution blocked";

pub const TOGGLE_TRUSTED_AA: &'static str = "Enable or disable this trusted Auto Assembler record";

pub const TOGGLE_UNTRUSTED_AA: &'static str = "Trust this table before enabling Auto Assembler";

pub const TOGGLE_LUA: &'static str = "Lua record execution is not available yet";

pub const TOGGLE_FREEZE: &'static str = "Freeze this value";

pub const EMPTY_LIST_SUMMARY: &'static str = "Add a scan result to edit or freeze its live value.";

/// Where a record stands, or what its scripts may do under the table's
/// trust: a group, the state of its Auto Assembler and Lua scripts, or its
/// address with the expression it came from.
pub open spec fn address_label_text(record: AddressRecord, scripts_trusted: bool, lua_trusted: bool) -> Seq<
    char,
> {
    if record.is_group {
        GROUP_LABEL@
    } else if record.has_auto_assembler && record.has_lua {
        if scripts_trusted && lua_trusted {
            AA_AND_LUA_TRUSTED@
        } else if scripts_trusted {
            AA_TRUSTED_LUA_BLOCKED@
        } else if lua_trusted {
            AA_BLOCKED_LUA_TRUSTED@
        } else {
            AA_AND_LUA_BLOCKED@
        }
    } else if record.has_auto_assembler {
        if scripts_trusted {
            AA_TRUSTED@
        } else {
            AA_BLOCKED@
        }
    } else if record.has_lua {
        if lua_trusted {
            LUA_TRUSTED@
        } else {
            LUA_BLOCKED@
        }
    } else if record.address_expression@.len() == 0 {
        address_field_text(record.address)
    } else {
        record.address_expression@ + " → "@ + address_field_text(record.address)
    }
}

/// The address column of a record; see `address_label_text`.
pub fn address_label(record: &AddressRecord, scripts_trusted: bool, lua_trusted: bool) -> (label:
    String)
    ensures
        label@ == address_label_text(*record, scripts_trusted, lua_trusted),
{
    let mut label = String::new();
    if record.is_group {
        push_text(&mut label, GROUP_LABEL);
    } else if record.has_auto_assembler && record.has_lua {
        if scripts_trusted && lua_trusted {
            push_text(&mut label, AA_AND_LUA_TRUSTED);
        } else if scripts_trusted {
            push_text(&mut label, AA_TRUSTED_LUA_BLOCKED);
        } else if lua_trusted {
            push_text(&mut label, AA_BLOCKED_LUA_TRUSTED);
        } else {
            push_text(&mut label, AA_AND_LUA_BLOCKED);
        }
    } else if record.has_auto_assembler {
        if scripts_trusted {
            push_text(&mut label, AA_TRUSTED);
        } else {
            push_text(&mut label, AA_BLOCKED);
        }
    } else if record.has_lua {
        if lua_trusted {
            push_text(&mut label, LUA_TRUSTED);
        } else {
            push_text(&mut label, LUA_BLOCKED);
        }
    } else if record.address_expression.as_str().is_empty() {
        label = address_field(record.address);
    } else {
        push_text(&mut label, record.address_expression.as_str());
        push_text(&mut label, " → ");
        push_text(&mut label, address_field(record.address).as_str());
    }
    assert(label@ =~= address_label_text(*record, scripts_trusted, lua_trusted));
    label
}

/// The second column of a record: its address label, its type, and its
/// error when it has one.
pub open spec fn address_subtitle_text(record: AddressRecord, scripts_trusted: bool, lua_trusted: bool) -> Seq<
    char,
> {
    address_label_text(record, scripts_trusted, lua_trusted) + " · "@ + record.type_label@ + if record.error_message@.len()
        == 0 {
        Seq::<char>::empty()
    } else {
        " · "@ + record.error_message@
    }
}

/// The second column of a record; see `address_subtitle_text`.
pub fn address_subtitle(record: &AddressRecord, scripts_trusted: bool, lua_trusted: bool) -> (subtitle:
    String)
    ensures
        subtitle@ == address_subtitle_text(*record, scripts_trusted, lua_trusted),
{
    let mut subtitle = address_label(record, scripts_trusted, lua_trusted);
    push_text(&mut subtitle, " · ");
    push_text(&mut subtitle, record.type_label.as_str());
    if !record.error_message.as_str().is_empty() {
        push_text(&mut subtitle, " · ");
        push_text(&mut subtitle, record.error_message.as_str());
    }
    assert(subtitle@ =~= address_subtitle_text(*record, scripts_trusted, lua_trusted));
    subtitle
}

/// The first column of a record: its description, indented by two
/// no-break spaces per level of nesting.
pub open spec fn record_title_text(record: AddressRecord) -> Seq<char> {
    Seq::new(if record.indent > 0 { 2 * record.indent as nat } else { 0 }, |i: int| '\u{a0}')
        + record.description@
}

/// The first column of a record; see `record_title_text`.
pub fn record_title(record: &AddressRecord) -> (title: String)
    ensures
        title@ == record_title_text(*record),
{
    let mut title = String::new();
    let levels: u64 = if record.indent > 0 {
        record.indent as u64
    } else {
        0
    };
    let mut i: u64 = 0;
    while i < 2 * levels
        invariant
            levels <= i32::MAX,
            i <= 2 * levels,
            title@ == Seq::new(i as nat, |k: int| '\u{a0}'),
        decreases 2 * levels - i,
    {
        title.push('\u{a0}');
        i += 1;
        assert(title@ =~= Seq::new(i as nat, |k: int| '\u{a0}'));
    }
    push_text(&mut title, record.description.as_str());
    assert(title@ =~= record_title_text(*record));
    title
}

/// Which controls of a record's row can be used, and what they say.
#[derive(Clone, Debug, PartialEq, Eq)]
pub struct AddressRowControls {
    /// The value field, the freeze mode and the memory browser.
    pub value_editable: bool,
    /// The value field is marked as unreadable.
    pub value_unreadable: bool,
    /// The value field's tooltip: the record's error, if any.
    pub value_tooltip: Option<String>,
    /// The freeze or enable switch.
    pub toggle_enabled: bool,
    /// The switch's tooltip.
    pub toggle_tooltip: &'static str,
    /// The switch is hidden, as groups have none.
    pub toggle_hidden: bool,
    /// The icon and tooltip of a group's collapse button; none for a
    /// record that is not a group.
    pub collapse: Option<(&'static str, &'static str)>,
}

/// The tooltip of a record's switch.
pub open spec fn toggle_tooltip_of(record: AddressRecord, scripts_trusted: bool) -> &'static str {
    if record.has_auto_assembler {
        if scripts_trusted {
            TOGGLE_TRUSTED_AA
        } else {
            TOGGLE_UNTRUSTED_AA
        }
    } else if record.has_lua {
        TOGGLE_LUA
    } else {
        TOGGLE_FREEZE
    }
}

/// The controls of `record`'s row while the session is `attached` or not:
/// values can be edited only for an attached record that is neither a
/// group nor a script, and a script record can be switched only when it is
/// Auto Assembler and the table's scripts are trusted.
pub fn address_row_controls(record: &AddressRecord, attached: bool, scripts_trusted: bool) -> (controls:
    AddressRowControls)
    ensures
        controls.value_editable == (attached && !record.is_group && !record.has_script),
        controls.value_unreadable == !record.readable,
        match controls.value_tooltip {
            Some(tooltip) => record.error_message@.len() > 0 && tooltip@ == record.error_message@,
            None => record.error_message@.len() == 0,
        },
        controls.toggle_enabled == (attached && !record.is_group && (!record.has_script || (
        record.has_auto_assembler && scripts_trusted))),
        controls.toggle_tooltip == toggle_tooltip_of(*record, scripts_trusted),
        controls.toggle_hidden == record.is_group,
        controls.collapse == if record.is_group {
            Some(
                if record.collapsed {
                    ("pan-end-symbolic", "Expand group")
                } else {
                    ("pan-down-symbolic", "Collapse group")
                },
            )
        } else {
            None
        },
{
    let toggle_tooltip = if record.has_auto_assembler {
        if scripts_trusted {
            TOGGLE_TRUSTED_AA
        } else {
            TOGGLE_UNTRUSTED_AA
        }
    } else if record.has_lua {
        TOGGLE_LUA
    } else {
        TOGGLE_FREEZE
    };
    let collapse = if record.is_group {
        Some(
            if record.collapsed {
                ("pan-end-symbolic", "Expand group")
            } else {
                ("pan-down-symbolic", "Collapse group")
            },
        )
    } else {
        None
    };
    AddressRowControls {
        value_editable: attached && !record.is_group && !record.has_script,
        value_unreadable: !record.readable,
        value_tooltip: if record.error_message.as_str().is_empty() {
            None
        } else {
            Some(record.error_message.clone())
        },
        toggle_enabled: attached && !record.is_group && (!record.has_script || (
        record.has_auto_assembler && scripts_trusted)),
        toggle_tooltip,
        toggle_hidden: record.is_group,
        collapse,
    }
}

/// The summary above a non-empty address list: the records, those shown,
/// those hidden in collapsed groups, the positions the list view can
/// reach, the cache, and whether values refresh.
pub open spec fn address_summary_text(
    raw_total: u64,
    total: u64,
    displayed: u32,
    cache_rows: u64,
    attached: bool,
) -> Seq<char> {
    if raw_total == 0 {
        EMPTY_LIST_SUMMARY@
    } else {
        decimal_digits(raw_total as nat) + " record"@ + (if raw_total == 1 {
            Seq::<char>::empty()
        } else {
            "s"@
        }) + " · "@ + decimal_digits(total as nat) + " visible"@ + (if raw_total > total {
            " · "@ + decimal_digits((raw_total - total) as nat) + " hidden by collapsed groups"@
        } else {
            Seq::<char>::empty()
        }) + (if total > displayed {
            " · GTK exposes the first "@ + decimal_digits(displayed as nat)
        } else {
            Seq::<char>::empty()
        }) + " · cache up to "@ + decimal_digits(cache_rows as nat) + " rows"@ + if attached {
            " · live values refresh automatically"@
        } else {
            " · attach to refresh values"@
        }
    }
}

/// The summary above the address list; see `address_summary_text`.
pub fn address_summary(raw_total: u64, total: u64, displayed: u32, cache_rows: u64, attached: bool) -> (summary:
    String)
    ensures
        summary@ == address_summary_text(raw_total, total, displayed, cache_rows, attached),
{
    let mut summary = String::new();
    if raw_total == 0 {
        push_text(&mut summary, EMPTY_LIST_SUMMARY);
        assert(summary@ =~= address_summary_text(raw_total, total, displayed, cache_rows, attached));
        return summary;
    }
    push_decimal(&mut summary, raw_total);
    push_text(&mut summary, " record");
    if raw_total != 1 {
        push_text(&mut summary, "s");
    }
    push_text(&mut summary, " · ");
    push_decimal(&mut summary, total);
    push_text(&mut summary, " visible");
    if raw_total > total {
        push_text(&mut summary, " · ");
        push_decimal(&mut summary, raw_total - total);
        push_text(&mut summary, " hidden by collapsed groups");
    }
    if total > displayed as u64 {
        push_text(&mut summary, " · GTK exposes the first ");
        push_decimal(&mut summary, displayed as u64);
    }
    push_text(&mut summary, " · cache up to ");
    push_decimal(&mut summary, cache_rows);
    push_text(&mut summary, " rows");
    if attached {
        push_text(&mut summary, " · live values refresh automatically");
    } else {
        push_text(&mut summary, " · attach to refresh values");
    }
    assert(summary@ =~= address_summary_text(raw_total, total, displayed, cache_rows, attached));
    summary
}

} // verus!
