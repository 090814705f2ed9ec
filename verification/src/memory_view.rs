//! The text of the memory viewer: the address that the user types, and the
//! hex dump of a page of target memory.
use crate::paging::saturating_sum;
use crate::text::{chars_of, parsed_unsigned, parse_unsigned, string_of, trim_bounds, trimmed};
use vstd::prelude::*;

verus! {

/// The bytes that the viewer reads at a time.
pub const PAGE_BYTES: u32 = 512;

/// The most instructions that the viewer disassembles at a time.
pub const INSTRUCTION_LIMIT: u32 = 128;

pub const EMPTY_ADDRESS: &'static str = "Enter a hexadecimal address.";

pub const NOT_AN_ADDRESS: &'static str = "The address must contain hexadecimal digits (0–9, A–F).";

/// `s` without a leading `0x` or `0X`.
pub open spec fn strip_hex_prefix(s: Seq<char>) -> Seq<char> {
    if s.len() >= 2 && s[0] == '0' && (s[1] == 'x' || s[1] == 'X') {
        s.subrange(2, s.len() as int)
    } else {
        s
    }
}

/// What an address typed as `text` reads as: surrounding white space and a
/// `0x` prefix are dropped, and the rest must be a hexadecimal number that
/// fits in 64 bits; otherwise the message that explains why not.
pub open spec fn address_reading(text: Seq<char>) -> Result<u64, Seq<char>> {
    let digits = strip_hex_prefix(trimmed(text));
    if digits.len() == 0 {
        Err(EMPTY_ADDRESS@)
    } else {
        match parsed_unsigned(digits, 16, u64::MAX as nat) {
            Some(value) => Ok(value as u64),
            None => Err(NOT_AN_ADDRESS@),
        }
    }
}

/// Reads the address that the user typed; see `address_reading`.
pub fn parse_address(text: &str) -> (address: Result<u64, String>)
    ensures
        match address {
            Ok(value) => address_reading(text@) == Ok::<u64, Seq<char>>(value),
            Err(message) => address_reading(text@) == Err::<u64, Seq<char>>(message@),
        },
{
    let chars = chars_of(text);
    let (lo, hi) = trim_bounds(&chars);
    let ghost t = chars@.subrange(lo as int, hi as int);
    let mut start = lo;
    if hi - lo >= 2 && chars[lo] == '0' && (chars[lo + 1] == 'x' || chars[lo + 1] == 'X') {
        start = lo + 2;
    }
    proof {
        assert(strip_hex_prefix(t) =~= chars@.subrange(start as int, hi as int));
    }
    if start == hi {
        return Err(string_of(EMPTY_ADDRESS));
    }
    match parse_unsigned(&chars, start, hi, 16, u64::MAX) {
        Some(value) => Ok(value),
        None => Err(string_of(NOT_AN_ADDRESS)),
    }
}

/// The upper-case hexadecimal digit of `n`, for `n` below 16.
pub open spec fn hex_digit(n: nat) -> char {
    if n < 10 {
        (48 + n) as char
    } else {
        (55 + n) as char
    }
}

/// The last `count` hexadecimal digits of `value`, zero-padded, as `{:0N X}`
/// writes them.
pub open spec fn hex_digits(value: nat, count: nat) -> Seq<char>
    decreases count,
{
    if count == 0 {
        Seq::empty()
    } else {
        hex_digits(value / 16, (count - 1) as nat).push(hex_digit(value % 16))
    }
}

/// The hex column of the byte at `index` of `chunk`: two digits and a space,
/// or three spaces past the end; one more space after the eighth column.
pub open spec fn byte_cell(chunk: Seq<u8>, index: int) -> Seq<char> {
    (if index < chunk.len() {
        hex_digits(chunk[index] as nat, 2).push(' ')
    } else {
        seq![' ', ' ', ' ']
    }) + (if index == 7 {
        seq![' ']
    } else {
        Seq::<char>::empty()
    })
}

/// The first `count` hex columns of `chunk`.
pub open spec fn byte_cells(chunk: Seq<u8>, count: nat) -> Seq<char>
    decreases count,
{
    if count == 0 {
        Seq::empty()
    } else {
        byte_cells(chunk, (count - 1) as nat) + byte_cell(chunk, count - 1)
    }
}

/// How a byte shows in the text column: itself when printable ASCII, else
/// a dot.
pub open spec fn printable(b: u8) -> char {
    if 0x20 <= b && b <= 0x7e {
        b as char
    } else {
        '.'
    }
}

/// One line of the dump of the bytes `chunk`, which lie `offset` bytes past
/// `address`: the address of its first byte (saturating at `u64::MAX`),
/// sixteen hex columns, and the bytes as text.
pub open spec fn dump_line(address: u64, offset: nat, chunk: Seq<u8>) -> Seq<char> {
    hex_digits(saturating_sum(address, offset) as nat, 16) + seq![' ', ' '] + byte_cells(chunk, 16)
        + seq![' ', '|', ' '] + chunk.map_values(|b: u8| printable(b)) + seq!['\n']
}

/// The lines of the dump of `bytes`, which lie `offset` bytes past
/// `address`, sixteen bytes a line.
pub open spec fn dump_lines(address: u64, bytes: Seq<u8>, offset: nat) -> Seq<char>
    decreases bytes.len(),
{
    if bytes.len() == 0 {
        Seq::empty()
    } else if bytes.len() <= 16 {
        dump_line(address, offset, bytes)
    } else {
        dump_line(address, offset, bytes.take(16)) + dump_lines(address, bytes.skip(16), offset + 16)
    }
}

/// The hex dump of `bytes` read at `address`, sixteen bytes a line.
pub open spec fn hex_dump(address: u64, bytes: Seq<u8>) -> Seq<char> {
    dump_lines(address, bytes, 0)
}

/// The upper-case hexadecimal digit of `n`.
fn hex_digit_char(n: u64) -> (c: char)
    requires
        n < 16,
    ensures
        c == hex_digit(n as nat),
{
    if n < 10 {
        ((48 + n) as u8) as char
    } else {
        ((55 + n) as u8) as char
    }
}

/// The last `count` hexadecimal digits of `value`, zero-padded.
fn hex_text(value: u64, count: usize) -> (digits: Vec<char>)
    ensures
        digits@ == hex_digits(value as nat, count as nat),
{
    let mut digits: Vec<char> = Vec::new();
    let mut rest = value;
    let mut k: usize = 0;
    while k < count
        invariant
            k <= count,
            hex_digits(value as nat, count as nat) == hex_digits(rest as nat, (count - k) as nat)
                + digits@,
        decreases count - k,
    {
        let ghost before = digits@;
        let ghost m = (count - k) as nat;
        digits.insert(0, hex_digit_char(rest % 16));
        proof {
            assert(hex_digits(rest as nat, m) == hex_digits((rest / 16) as nat, (m - 1) as nat).push(
                hex_digit((rest % 16) as nat),
            ));
            assert(hex_digits(rest as nat, m) + before =~= hex_digits((rest / 16) as nat, (m - 1) as nat)
                + digits@);
        }
        rest = rest / 16;
        k += 1;
    }
    proof {
        assert(hex_digits(rest as nat, 0) + digits@ =~= digits@);
    }
    digits
}

/// Appends `chars` to `out`.
fn push_chars(out: &mut String, chars: &Vec<char>)
    ensures
        final(out)@ == old(out)@ + chars@,
{
    let mut i: usize = 0;
    while i < chars.len()
        invariant
            i <= chars@.len(),
            out@ == old(out)@ + chars@.subrange(0, i as int),
        decreases chars@.len() - i,
    {
        out.push(chars[i]);
        i += 1;
        assert(out@ =~= old(out)@ + chars@.subrange(0, i as int));
    }
    assert(chars@.subrange(0, chars@.len() as int) =~= chars@);
}

/// Appends the dump line of `chunk`, which lies `offset` bytes past
/// `address`, to `dump`.
fn push_dump_line(dump: &mut String, address: u64, offset: usize, chunk: &[u8])
    requires
        chunk@.len() <= 16,
    ensures
        final(dump)@ == old(dump)@ + dump_line(address, offset as nat, chunk@),
{
    let line_address = address.saturating_add(offset as u64);
    push_chars(dump, &hex_text(line_address, 16));
    dump.push(' ');
    dump.push(' ');
    let ghost header = dump@;
    let mut index: usize = 0;
    while index < 16
        invariant
            index <= 16,
            chunk@.len() <= 16,
            dump@ == header + byte_cells(chunk@, index as nat),
        decreases 16 - index,
    {
        let ghost before = dump@;
        if index < chunk.len() {
            push_chars(dump, &hex_text(chunk[index] as u64, 2));
            dump.push(' ');
        } else {
            dump.push(' ');
            dump.push(' ');
            dump.push(' ');
        }
        if index == 7 {
            dump.push(' ');
        }
        proof {
            assert(dump@ =~= before + byte_cell(chunk@, index as int));
            assert(byte_cells(chunk@, (index + 1) as nat) == byte_cells(chunk@, index as nat) + byte_cell(
                chunk@,
                index as int,
            ));
        }
        index += 1;
    }
    dump.push(' ');
    dump.push('|');
    dump.push(' ');
    let ghost columns = dump@;
    let mut i: usize = 0;
    while i < chunk.len()
        invariant
            i <= chunk@.len(),
            dump@ == columns + chunk@.take(i as int).map_values(|b: u8| printable(b)),
        decreases chunk@.len() - i,
    {
        let byte = chunk[i];
        let ghost before = dump@;
        if 0x20 <= byte && byte <= 0x7e {
            dump.push(byte as char);
        } else {
            dump.push('.');
        }
        i += 1;
        proof {
            assert(dump@ =~= columns + chunk@.take(i as int).map_values(|b: u8| printable(b)));
        }
    }
    dump.push('\n');
    proof {
        assert(chunk@.take(chunk@.len() as int) =~= chunk@);
        assert(dump@ =~= old(dump)@ + dump_line(address, offset as nat, chunk@));
    }
}

/// The hex dump of `bytes` read at `address`: one line per sixteen bytes,
/// with the address of the line, the bytes in hexadecimal, and the bytes as
/// text.
pub fn format_hex_dump(address: u64, bytes: &[u8]) -> (dump: String)
    ensures
        dump@ == hex_dump(address, bytes@),
{
    let mut dump = String::new();
    let mut offset: usize = 0;
    proof {
        assert(bytes@.skip(0) =~= bytes@);
        assert(dump@ + dump_lines(address, bytes@.skip(0), 0) =~= hex_dump(address, bytes@));
    }
    while offset < bytes.len()
        invariant
            offset <= bytes@.len(),
            dump@ + dump_lines(address, bytes@.skip(offset as int), offset as nat) == hex_dump(
                address,
                bytes@,
            ),
        decreases bytes@.len() - offset,
    {
        let rest = bytes.len() - offset;
        let end = if rest <= 16 {
            bytes.len()
        } else {
            offset + 16
        };
        let ghost tail = bytes@.skip(offset as int);
        let ghost before = dump@;
        let chunk = slice_range(bytes, offset, end);
        push_dump_line(&mut dump, address, offset, chunk);
        proof {
            if rest <= 16 {
                assert(chunk@ =~= tail);
                assert(bytes@.skip(end as int) =~= Seq::<u8>::empty());
                assert(dump_lines(address, bytes@.skip(end as int), end as nat) =~= Seq::<char>::empty());
                assert(dump@ + dump_lines(address, bytes@.skip(end as int), end as nat) =~= before
                    + dump_lines(address, tail, offset as nat));
            } else {
                assert(chunk@ =~= tail.take(16));
                assert(tail.skip(16) =~= bytes@.skip(end as int));
                assert(dump@ + dump_lines(address, bytes@.skip(end as int), end as nat) =~= before
                    + dump_lines(address, tail, offset as nat));
            }
        }
        offset = end;
    }
    proof {
        assert(bytes@.skip(offset as int) =~= Seq::<u8>::empty());
        assert(dump@ + Seq::<char>::empty() =~= dump@);
    }
    dump
}

/// An address as the viewer's address field shows it: `0x` and sixteen
/// upper-case hexadecimal digits.
pub open spec fn address_field_text(address: u64) -> Seq<char> {
    seq!['0', 'x'] + hex_digits(address as nat, 16)
}

/// The text of the address field for `address`; see `address_field_text`.
pub fn address_field(address: u64) -> (text: String)
    ensures
        text@ == address_field_text(address),
{
    let mut text = String::new();
    text.push('0');
    text.push('x');
    push_chars(&mut text, &hex_text(address, 16));
    assert(text@ =~= address_field_text(address));
    text
}

/// Where the page before the one read at `address` starts: a page
/// earlier, or at address 0.
pub fn previous_page(address: u64) -> (start: u64)
    ensures
        start == if address >= PAGE_BYTES {
            (address - PAGE_BYTES) as u64
        } else {
            0
        },
{
    address.saturating_sub(PAGE_BYTES as u64)
}

/// Whether the viewer offers the previous and the next page, for a page
/// read at `address` whose next page starts at `next_address`: a previous
/// page when a whole page fits before it, a next page when it lies past it.
pub fn page_buttons(address: u64, next_address: u64) -> (enabled: (bool, bool))
    ensures
        enabled == (address >= PAGE_BYTES, next_address > address),
{
    (address >= PAGE_BYTES as u64, next_address > address)
}

/// The bytes of `bytes` from `start` up to `end`.
fn slice_range(bytes: &[u8], start: usize, end: usize) -> (part: &[u8])
    requires
        start <= end <= bytes@.len(),
    ensures
        part@ == bytes@.subrange(start as int, end as int),
{
    vstd::slice::slice_subrange(bytes, start, end)
}

/// The character that the text column shows for the byte `b`: the byte
/// itself when it is printable ASCII, from the space to the tilde, and a dot
/// otherwise.
pub open spec fn text_column_char(b: u8) -> char {
    if 0x20 <= b && b <= 0x7e {
        b as char
    } else {
        '.'
    }
}

proof fn lemma_hex_digits_len(value: nat, count: nat)
    ensures
        hex_digits(value, count).len() == count,
    decreases count,
{
    if count > 0 {
        lemma_hex_digits_len(value / 16, (count - 1) as nat);
    }
}

proof fn lemma_byte_cells_len(chunk: Seq<u8>, count: nat)
    ensures
        byte_cells(chunk, count).len() == 3 * count + if count >= 8 {
            1int
        } else {
            0
        },
    decreases count,
{
    if count > 0 {
        lemma_byte_cells_len(chunk, (count - 1) as nat);
        lemma_hex_digits_len(0, 2);
        if count - 1 < chunk.len() {
            lemma_hex_digits_len(chunk[count - 1] as nat, 2);
        }
    }
}

/// A dump line of at most sixteen bytes is seventy characters of address
/// and hex columns, then one text character per byte, then a line break.
proof fn lemma_dump_line_text(address: u64, offset: nat, chunk: Seq<u8>)
    requires
        chunk.len() <= 16,
    ensures
        dump_line(address, offset, chunk).len() == 71 + chunk.len(),
        forall|j: int|
            0 <= j < chunk.len() ==> dump_line(address, offset, chunk)[70 + j] == text_column_char(
                #[trigger] chunk[j],
            ),
        dump_line(address, offset, chunk)[70 + chunk.len() as int] == '\n',
{
    lemma_hex_digits_len(saturating_sum(address, offset) as nat, 16);
    lemma_byte_cells_len(chunk, 16);
    let head = hex_digits(saturating_sum(address, offset) as nat, 16) + seq![' ', ' '] + byte_cells(
        chunk,
        16,
    ) + seq![' ', '|', ' '];
    assert(head.len() == 70);
    let text = chunk.map_values(|b: u8| printable(b));
    assert(dump_line(address, offset, chunk) == head + text + seq!['\n']);
    assert forall|j: int| 0 <= j < chunk.len() implies dump_line(address, offset, chunk)[70 + j]
        == text_column_char(#[trigger] chunk[j]) by {
        assert((head + text + seq!['\n'])[70 + j] == text[j]);
    }
}

/// A dump reaches past the text column of every line that holds a byte.
proof fn lemma_dump_reaches(address: u64, bytes: Seq<u8>, offset: nat, line: int, j: int)
    requires
        0 <= line,
        0 <= j < 16,
        16 * line + j < bytes.len(),
    ensures
        87 * line + 70 + j < dump_lines(address, bytes, offset).len(),
    decreases bytes.len(),
{
    if bytes.len() <= 16 {
        lemma_dump_line_text(address, offset, bytes);
        assert(dump_lines(address, bytes, offset) == dump_line(address, offset, bytes));
    } else {
        let first = bytes.take(16);
        let rest = bytes.skip(16);
        lemma_dump_line_text(address, offset, first);
        assert(dump_lines(address, bytes, offset) == dump_line(address, offset, first) + dump_lines(
            address,
            rest,
            offset + 16,
        ));
        if line > 0 {
            lemma_dump_reaches(address, rest, offset + 16, line - 1, j);
        }
    }
}

/// The text column of a dump: the byte at line `line` and column `j` of
/// `bytes` stands, after the seventy characters of its line's address and
/// hex columns, as itself when it is printable ASCII and as a dot
/// otherwise. Every full line takes eighty-seven characters.
pub proof fn lemma_dump_text_column(address: u64, bytes: Seq<u8>, offset: nat, line: int, j: int)
    requires
        0 <= line,
        0 <= j < 16,
        16 * line + j < bytes.len(),
    ensures
        87 * line + 70 + j < dump_lines(address, bytes, offset).len(),
        dump_lines(address, bytes, offset)[87 * line + 70 + j] == text_column_char(
            bytes[16 * line + j],
        ),
    decreases bytes.len(),
{
    lemma_dump_reaches(address, bytes, offset, line, j);
    if bytes.len() <= 16 {
        lemma_dump_line_text(address, offset, bytes);
        assert(dump_lines(address, bytes, offset) == dump_line(address, offset, bytes));
        assert(line == 0);
    } else {
        let first = bytes.take(16);
        let rest = bytes.skip(16);
        lemma_dump_line_text(address, offset, first);
        let line0 = dump_line(address, offset, first);
        let others = dump_lines(address, rest, offset + 16);
        assert(dump_lines(address, bytes, offset) == line0 + others);
        if line == 0 {
            assert(first[j] == bytes[j]);
        } else {
            lemma_dump_text_column(address, rest, offset + 16, line - 1, j);
            assert(rest[16 * (line - 1) + j] == bytes[16 * line + j]);
            assert((line0 + others)[87 * line + 70 + j] == others[87 * (line - 1) + 70 + j]);
        }
    }
}

/// The hex dump shows each byte of `bytes` in the text column of its line
/// as itself when it is printable ASCII (a space, punctuation, a digit or a
/// letter, through the tilde) and as a dot otherwise.
pub proof fn lemma_hex_dump_text_column(address: u64, bytes: Seq<u8>)
    ensures
        forall|line: int, j: int|
            0 <= line && 0 <= j < 16 && 16 * line + j < bytes.len() ==> hex_dump(address, bytes)[87
                * line + 70 + j] == if 0x20 <= #[trigger] bytes[16 * line + j] && bytes[16 * line
                + j] <= 0x7e {
                bytes[16 * line + j] as char
            } else {
                '.'
            },
{
    assert forall|line: int, j: int|
        0 <= line && 0 <= j < 16 && 16 * line + j < bytes.len() implies hex_dump(address, bytes)[87
        * line + 70 + j] == if 0x20 <= #[trigger] bytes[16 * line + j] && bytes[16 * line + j]
        <= 0x7e {
        bytes[16 * line + j] as char
    } else {
        '.'
    } by {
        lemma_dump_text_column(address, bytes, 0, line, j);
    }
}

} // verus!
