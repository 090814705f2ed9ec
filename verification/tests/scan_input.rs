use ce_gtk::scan_input::{parse_u32_or_zero, parse_u64};

#[test]
fn sixty_four_bit_fields_read_decimal_and_hex() {
    assert_eq!(parse_u64("42", "Value"), Ok(42));
    assert_eq!(parse_u64("  0x2A  ", "Value"), Ok(42));
    assert_eq!(parse_u64("0X2a", "Value"), Ok(42));
    assert_eq!(parse_u64("+7", "Value"), Ok(7));
    assert_eq!(parse_u64("18446744073709551615", "Value"), Ok(u64::MAX));
}

#[test]
fn sixty_four_bit_field_errors_carry_the_label() {
    assert_eq!(
        parse_u64(" \t", "Start address"),
        Err("Start address cannot be empty.".to_owned())
    );
    assert_eq!(
        parse_u64("2a", "Value"),
        Err("Value must be a decimal number or start with 0x.".to_owned())
    );
    assert_eq!(
        parse_u64("0x", "Value"),
        Err("Value must be a decimal number or start with 0x.".to_owned())
    );
    assert_eq!(
        parse_u64("18446744073709551616", "Value"),
        Err("Value must be a decimal number or start with 0x.".to_owned())
    );
    assert_eq!(
        parse_u64("-1", "Value"),
        Err("Value must be a decimal number or start with 0x.".to_owned())
    );
}

#[test]
fn count_fields_default_to_zero() {
    assert_eq!(parse_u32_or_zero("", "Alignment"), Ok(0));
    assert_eq!(parse_u32_or_zero("   ", "Alignment"), Ok(0));
    assert_eq!(parse_u32_or_zero(" 16 ", "Alignment"), Ok(16));
    assert_eq!(parse_u32_or_zero("4294967295", "Alignment"), Ok(u32::MAX));
}

#[test]
fn count_field_errors_carry_the_label() {
    assert_eq!(
        parse_u32_or_zero("4294967296", "Alignment"),
        Err("Alignment must be a non-negative whole number.".to_owned())
    );
    assert_eq!(
        parse_u32_or_zero("0x10", "Alignment"),
        Err("Alignment must be a non-negative whole number.".to_owned())
    );
    assert_eq!(
        parse_u32_or_zero("1.5", "Alignment"),
        Err("Alignment must be a non-negative whole number.".to_owned())
    );
}
