//! Which scan options the scan panel offers for the chosen value type and
//! comparison.
use crate::bridge::ScanValueType;
use vstd::prelude::*;

verus! {

/// The rounding choice after which a float tolerance can be given.
pub const TOLERANCE_ROUNDING: u32 = 3;

pub const BYTE_ARRAY_HINT: &'static str = "Bytes, for example 7F 45 ?? 46";

pub const BINARY_HINT: &'static str = "Bits, for example 0110??01";

pub const TEXT_HINT: &'static str = "Text to find";

pub const GROUPED_HINT: &'static str = "Grouped expression";

pub const CUSTOM_HINT: &'static str = "Custom formula";

pub const FLOAT_HINT: &'static str = "Floating-point value";

pub const VALUE_HINT: &'static str = "Value";

/// A value type that is scanned as an integer.
pub open spec fn is_integer_type(value_type: ScanValueType) -> bool {
    match value_type {
        ScanValueType::Byte | ScanValueType::Int16 | ScanValueType::Int32 | ScanValueType::Int64
        | ScanValueType::All | ScanValueType::Pointer => true,
        _ => false,
    }
}

/// A value type that is scanned as a floating-point number.
pub open spec fn is_floating_type(value_type: ScanValueType) -> bool {
    match value_type {
        ScanValueType::Float | ScanValueType::Double | ScanValueType::All => true,
        _ => false,
    }
}

/// A value type that is scanned as text.
pub open spec fn is_text_type(value_type: ScanValueType) -> bool {
    match value_type {
        ScanValueType::String | ScanValueType::UnicodeString => true,
        _ => false,
    }
}

/// A value type that is compared byte by byte, so that alignment does not
/// apply.
pub open spec fn is_bytewise_type(value_type: ScanValueType) -> bool {
    match value_type {
        ScanValueType::String | ScanValueType::UnicodeString | ScanValueType::ByteArray
        | ScanValueType::Binary | ScanValueType::Grouped | ScanValueType::Custom => true,
        _ => false,
    }
}

/// A value type whose values have no fixed size.
pub open spec fn is_variable_size_type(value_type: ScanValueType) -> bool {
    match value_type {
        ScanValueType::String | ScanValueType::UnicodeString | ScanValueType::ByteArray
        | ScanValueType::Binary => true,
        _ => false,
    }
}

/// The hint that the value field shows for `value_type`.
pub open spec fn value_hint(value_type: ScanValueType) -> &'static str {
    match value_type {
        ScanValueType::ByteArray => BYTE_ARRAY_HINT,
        ScanValueType::Binary => BINARY_HINT,
        ScanValueType::String | ScanValueType::UnicodeString => TEXT_HINT,
        ScanValueType::Grouped => GROUPED_HINT,
        ScanValueType::Custom => CUSTOM_HINT,
        ScanValueType::Float | ScanValueType::Double => FLOAT_HINT,
        _ => VALUE_HINT,
    }
}

/// What the scan panel offers: which fields are shown and which can be
/// changed.
#[derive(Clone, Copy, Debug, PartialEq, Eq)]
pub struct ScanOptionLayout {
    /// The value field.
    pub value_shown: bool,
    /// The second value field of a range.
    pub second_value_shown: bool,
    /// The switch that reads the value as hexadecimal.
    pub hexadecimal_shown: bool,
    /// The rounding choice, shown and enabled together.
    pub rounding_shown: bool,
    /// The float tolerance, shown and enabled together.
    pub tolerance_shown: bool,
    /// The text matching and encoding options, shown and enabled together.
    pub text_options_shown: bool,
    /// Whether the alignment can be changed.
    pub alignment_enabled: bool,
    /// The value size, shown and enabled together.
    pub value_size_shown: bool,
    /// The percentage switch, shown and enabled together.
    pub percentage_shown: bool,
    /// The percentage field.
    pub percentage_value_shown: bool,
    /// The second percentage field of a range.
    pub second_percentage_shown: bool,
    /// Whether the percentage field can be changed.
    pub percentage_value_enabled: bool,
    /// Whether the second percentage field can be changed.
    pub second_percentage_enabled: bool,
    /// The hint in the value field.
    pub value_hint: &'static str,
}

/// The scan panel for `value_type` and a comparison that takes a value or
/// not and is a range or not, with the rounding choice `rounding`, the fast
/// scan switch and the percentage switch as they stand.
pub fn scan_option_layout(
    value_type: ScanValueType,
    takes_value: bool,
    between: bool,
    rounding: u32,
    fast_scan: bool,
    percentage: bool,
) -> (layout: ScanOptionLayout)
    ensures
        layout.value_shown == (takes_value || value_type == ScanValueType::Grouped),
        layout.second_value_shown == between,
        layout.hexadecimal_shown == (takes_value && is_integer_type(value_type)),
        layout.rounding_shown == is_floating_type(value_type),
        layout.tolerance_shown == (is_floating_type(value_type) && rounding == TOLERANCE_ROUNDING),
        layout.text_options_shown == is_text_type(value_type),
        layout.alignment_enabled == (!is_bytewise_type(value_type) && fast_scan),
        layout.value_size_shown == ((!takes_value && is_variable_size_type(value_type))
            || value_type == ScanValueType::Custom),
        layout.percentage_shown == (is_floating_type(value_type) || (is_integer_type(value_type)
            && value_type != ScanValueType::All)),
        layout.percentage_value_shown == (layout.percentage_shown && percentage),
        layout.second_percentage_shown == (layout.percentage_shown && percentage && between),
        layout.percentage_value_enabled == percentage,
        layout.second_percentage_enabled == (percentage && between),
        layout.value_hint == value_hint(value_type),
        value_type == ScanValueType::Byte || value_type == ScanValueType::Int16 || value_type
            == ScanValueType::Int32 || value_type == ScanValueType::Int64 || value_type
            == ScanValueType::Pointer ==> layout.hexadecimal_shown == takes_value
            && layout.percentage_shown && !layout.rounding_shown && !layout.text_options_shown,
        value_type == ScanValueType::All ==> layout.hexadecimal_shown == takes_value
            && layout.percentage_shown && layout.rounding_shown,
        value_type == ScanValueType::Float || value_type == ScanValueType::Double
            ==> !layout.hexadecimal_shown && layout.percentage_shown && layout.rounding_shown,
        value_type == ScanValueType::String || value_type == ScanValueType::UnicodeString
            || value_type == ScanValueType::ByteArray || value_type == ScanValueType::Binary
            || value_type == ScanValueType::Grouped || value_type == ScanValueType::Custom
            ==> !layout.hexadecimal_shown && !layout.percentage_shown && !layout.rounding_shown,
{
    let integer = match value_type {
        ScanValueType::Byte | ScanValueType::Int16 | ScanValueType::Int32 | ScanValueType::Int64
        | ScanValueType::All | ScanValueType::Pointer => true,
        _ => false,
    };
    let floating = match value_type {
        ScanValueType::Float | ScanValueType::Double | ScanValueType::All => true,
        _ => false,
    };
    let text = match value_type {
        ScanValueType::String | ScanValueType::UnicodeString => true,
        _ => false,
    };
    let bytewise = match value_type {
        ScanValueType::String | ScanValueType::UnicodeString | ScanValueType::ByteArray
        | ScanValueType::Binary | ScanValueType::Grouped | ScanValueType::Custom => true,
        _ => false,
    };
    let variable_size = match value_type {
        ScanValueType::String | ScanValueType::UnicodeString | ScanValueType::ByteArray
        | ScanValueType::Binary => true,
        _ => false,
    };
    let grouped = match value_type {
        ScanValueType::Grouped => true,
        _ => false,
    };
    let custom = match value_type {
        ScanValueType::Custom => true,
        _ => false,
    };
    let all = match value_type {
        ScanValueType::All => true,
        _ => false,
    };
    let hint = match value_type {
        ScanValueType::ByteArray => BYTE_ARRAY_HINT,
        ScanValueType::Binary => BINARY_HINT,
        ScanValueType::String | ScanValueType::UnicodeString => TEXT_HINT,
        ScanValueType::Grouped => GROUPED_HINT,
        ScanValueType::Custom => CUSTOM_HINT,
        ScanValueType::Float | ScanValueType::Double => FLOAT_HINT,
        _ => VALUE_HINT,
    };
    let percentage_shown = floating || (integer && !all);
    ScanOptionLayout {
        value_shown: takes_value || grouped,
        second_value_shown: between,
        hexadecimal_shown: takes_value && integer,
        rounding_shown: floating,
        tolerance_shown: floating && rounding == TOLERANCE_ROUNDING,
        text_options_shown: text,
        alignment_enabled: !bytewise && fast_scan,
        value_size_shown: (!takes_value && variable_size) || custom,
        percentage_shown,
        percentage_value_shown: percentage_shown && percentage,
        second_percentage_shown: percentage_shown && percentage && between,
        percentage_value_enabled: percentage,
        second_percentage_enabled: percentage && between,
        value_hint: hint,
    }
}

/// The hexadecimal switch is offered exactly for the value types that hold
/// whole numbers (the four integer widths, pointers, and a scan of all
/// types), when the comparison takes a value; percentages are offered for
/// every numeric type, and for a scan of all types; rounding only where a
/// floating-point value can be read.
pub proof fn lemma_numeric_options(value_type: ScanValueType)
    ensures
        is_integer_type(value_type) <==> (value_type == ScanValueType::Byte || value_type
            == ScanValueType::Int16 || value_type == ScanValueType::Int32 || value_type
            == ScanValueType::Int64 || value_type == ScanValueType::Pointer || value_type
            == ScanValueType::All),
        is_floating_type(value_type) <==> (value_type == ScanValueType::Float || value_type
            == ScanValueType::Double || value_type == ScanValueType::All),
        is_text_type(value_type) <==> (value_type == ScanValueType::String || value_type
            == ScanValueType::UnicodeString),
        is_integer_type(value_type) ==> !is_text_type(value_type) && !is_bytewise_type(
            value_type,
        ),
{
}

} // verus!
