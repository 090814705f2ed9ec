use ce_gtk::memory_view::{
    address_field, format_hex_dump, page_buttons, parse_address, previous_page, EMPTY_ADDRESS,
    NOT_AN_ADDRESS, PAGE_BYTES,
};

#[test]
fn parses_cheat_engine_style_hex_addresses() {
    assert_eq!(parse_address("7ff0").unwrap(), 0x7ff0);
    assert_eq!(parse_address("0xABCD").unwrap(), 0xabcd);
    assert!(parse_address("not-an-address").is_err());
}

#[test]
fn formats_hex_and_ascii_columns() {
    let dump = format_hex_dump(0x1000, b"Hello\0world");
    assert!(dump.contains("0000000000001000"));
    assert!(dump.contains("48 65 6C 6C 6F 00 77 6F"));
    assert!(dump.contains("Hello.world"));
}

#[test]
fn address_trims_white_space_and_either_prefix() {
    assert_eq!(parse_address("  0Xff \n").unwrap(), 0xff);
    assert_eq!(parse_address("\tDeadBeef").unwrap(), 0xdead_beef);
    assert_eq!(parse_address("+10").unwrap(), 0x10);
    assert_eq!(parse_address("ffffffffffffffff").unwrap(), u64::MAX);
}

#[test]
fn address_errors_name_the_problem() {
    assert_eq!(parse_address("").unwrap_err(), EMPTY_ADDRESS);
    assert_eq!(parse_address("   ").unwrap_err(), EMPTY_ADDRESS);
    assert_eq!(parse_address("0x").unwrap_err(), EMPTY_ADDRESS);
    assert_eq!(parse_address("0xg1").unwrap_err(), NOT_AN_ADDRESS);
    assert_eq!(parse_address("10000000000000000").unwrap_err(), NOT_AN_ADDRESS);
    assert_eq!(parse_address("0x0x1").unwrap_err(), NOT_AN_ADDRESS);
}

#[test]
fn dump_of_one_short_line_is_exact() {
    let dump = format_hex_dump(0x1000, b"Hello\0world");
    assert_eq!(
        dump,
        "0000000000001000  48 65 6C 6C 6F 00 77 6F  72 6C 64                 | Hello.world\n"
    );
}

#[test]
fn dump_starts_a_line_every_sixteen_bytes() {
    let bytes: Vec<u8> = (0u8..20).collect();
    let dump = format_hex_dump(0x20, &bytes);
    let lines: Vec<&str> = dump.lines().collect();
    assert_eq!(lines.len(), 2);
    assert_eq!(
        lines[0],
        "0000000000000020  00 01 02 03 04 05 06 07  08 09 0A 0B 0C 0D 0E 0F  | ................"
    );
    assert_eq!(
        lines[1],
        "0000000000000030  10 11 12 13                                       | ...."
    );
}

#[test]
fn dump_of_nothing_is_empty() {
    assert_eq!(format_hex_dump(0x1000, b""), "");
}

#[test]
fn dump_line_addresses_saturate() {
    let bytes = [0x41u8; 17];
    let dump = format_hex_dump(u64::MAX - 3, &bytes);
    let lines: Vec<&str> = dump.lines().collect();
    assert!(lines[0].starts_with("FFFFFFFFFFFFFFFC  41 41"));
    assert!(lines[1].starts_with("FFFFFFFFFFFFFFFF  41 "));
    assert!(lines[1].ends_with("| A"));
}

#[test]
fn address_field_shows_sixteen_hex_digits() {
    assert_eq!(address_field(0x7ff0), "0x0000000000007FF0");
    assert_eq!(address_field(u64::MAX), "0xFFFFFFFFFFFFFFFF");
}

#[test]
fn page_navigation_stops_at_zero() {
    assert_eq!(previous_page(0x1000), 0x1000 - u64::from(PAGE_BYTES));
    assert_eq!(previous_page(100), 0);
    assert_eq!(page_buttons(100, 612), (false, true));
    assert_eq!(page_buttons(512, 512), (true, false));
}
