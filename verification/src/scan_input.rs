//! The numbers that the user types into the scan options: a 64-bit value in
//! decimal or `0x` hexadecimal, and an optional 32-bit count.
use crate::text::{chars_of, parse_unsigned, parsed_unsigned, push_text, trim_bounds, trimmed};
use vstd::prelude::*;

verus! {

/// Ends the message for a required field left blank.
pub const CANNOT_BE_EMPTY: &'static str = " cannot be empty.";

/// Ends the message for a 64-bit field that holds no number.
pub const NOT_DECIMAL_OR_HEX: &'static str = " must be a decimal number or start with 0x.";

/// Ends the message for a count field that holds no count.
pub const NOT_A_WHOLE_NUMBER: &'static str = " must be a non-negative whole number.";

/// Whether `s` starts with `0x` or `0X`.
pub open spec fn has_hex_prefix(s: Seq<char>) -> bool {
    s.len() >= 2 && s[0] == '0' && (s[1] == 'x' || s[1] == 'X')
}

/// What the field `label` reads as when it holds `text`: white space
/// around it is dropped; nothing left is an error; after `0x` or `0X` a
/// hexadecimal number, else a decimal one, that fits in 64 bits.
pub open spec fn u64_field(text: Seq<char>, label: Seq<char>) -> Result<u64, Seq<char>> {
    let t = trimmed(text);
    if t.len() == 0 {
        Err(label + CANNOT_BE_EMPTY@)
    } else {
        let reading = if has_hex_prefix(t) {
            parsed_unsigned(t.subrange(2, t.len() as int), 16, u64::MAX as nat)
        } else {
            parsed_unsigned(t, 10, u64::MAX as nat)
        };
        match reading {
            Some(value) => Ok(value as u64),
            None => Err(label + NOT_DECIMAL_OR_HEX@),
        }
    }
}

/// What the count field `label` reads as when it holds `text`: blank is
/// zero, else a decimal number that fits in 32 bits.
pub open spec fn u32_field(text: Seq<char>, label: Seq<char>) -> Result<u32, Seq<char>> {
    let t = trimmed(text);
    if t.len() == 0 {
        Ok(0)
    } else {
        match parsed_unsigned(t, 10, u32::MAX as nat) {
            Some(value) => Ok(value as u32),
            None => Err(label + NOT_A_WHOLE_NUMBER@),
        }
    }
}

/// `label` followed by `suffix`.
fn field_message(label: &str, suffix: &str) -> (message: String)
    ensures
        message@ == label@ + suffix@,
{
    let mut message = String::new();
    push_text(&mut message, label);
    push_text(&mut message, suffix);
    assert(message@ =~= label@ + suffix@);
    message
}

/// Reads the 64-bit field `label` from `text`; see `u64_field`.
pub fn parse_u64(text: &str, label: &str) -> (value: Result<u64, String>)
    ensures
        match value {
            Ok(v) => u64_field(text@, label@) == Ok::<u64, Seq<char>>(v),
            Err(message) => u64_field(text@, label@) == Err::<u64, Seq<char>>(message@),
        },
{
    let chars = chars_of(text);
    let (lo, hi) = trim_bounds(&chars);
    let ghost t = chars@.subrange(lo as int, hi as int);
    if lo == hi {
        return Err(field_message(label, CANNOT_BE_EMPTY));
    }
    let reading = if hi - lo >= 2 && chars[lo] == '0' && (chars[lo + 1] == 'x' || chars[lo + 1]
        == 'X') {
        proof {
            assert(t.subrange(2, t.len() as int) =~= chars@.subrange(lo + 2, hi as int));
        }
        parse_unsigned(&chars, lo + 2, hi, 16, u64::MAX)
    } else {
        parse_unsigned(&chars, lo, hi, 10, u64::MAX)
    };
    match reading {
        Some(v) => Ok(v),
        None => Err(field_message(label, NOT_DECIMAL_OR_HEX)),
    }
}

/// Reads the count field `label` from `text`, blank meaning zero; see
/// `u32_field`.
pub fn parse_u32_or_zero(text: &str, label: &str) -> (value: Result<u32, String>)
    ensures
        match value {
            Ok(v) => u32_field(text@, label@) == Ok::<u32, Seq<char>>(v),
            Err(message) => u32_field(text@, label@) == Err::<u32, Seq<char>>(message@),
        },
{
    let chars = chars_of(text);
    let (lo, hi) = trim_bounds(&chars);
    if lo == hi {
        return Ok(0);
    }
    match parse_unsigned(&chars, lo, hi, 10, 0xffff_ffff) {
        Some(v) => Ok(v as u32),
        None => Err(field_message(label, NOT_A_WHOLE_NUMBER)),
    }
}

} // verus!
