//! Character-level helpers: Unicode white space, trimming, and the digits
//! of unsigned numbers in the way the standard library reads them.
use vstd::prelude::*;

verus! {

broadcast use vstd::string::group_string_axioms;

/// Believed, not proved: `std::string::String::push` appends `ch` at the
/// end of `text` and changes nothing else, as its documentation says.
pub assume_specification[ std::string::String::push ](text: &mut std::string::String, ch: char)
    ensures
        final(text)@ == old(text)@.push(ch),
;

/// The characters of `text`, in order.
pub fn chars_of(text: &str) -> (chars: Vec<char>)
    ensures
        chars@ == text@,
{
    let mut chars: Vec<char> = Vec::new();
    for c in it: text.chars()
        invariant
            it.seq() == text@,
            chars@ == it.seq().take(it.index()),
        ensures
            chars@ == text@,
    {
        let ghost before = chars@;
        chars.push(c);
        proof {
            assert(chars@ =~= it.seq().take(it.index() + 1));
        }
    }
    chars
}

/// Appends the characters of `text` to `out`.
pub fn push_text(out: &mut String, text: &str)
    ensures
        final(out)@ == old(out)@ + text@,
{
    let chars = chars_of(text);
    let mut i: usize = 0;
    while i < chars.len()
        invariant
            chars@ == text@,
            i <= chars@.len(),
            out@ == old(out)@ + chars@.subrange(0, i as int),
        decreases chars@.len() - i,
    {
        out.push(chars[i]);
        i += 1;
        assert(out@ =~= old(out)@ + chars@.subrange(0, i as int));
    }
    assert(chars@.subrange(0, chars@.len() as int) =~= chars@);
}

/// A string made of the characters of `text`.
pub fn string_of(text: &str) -> (s: String)
    ensures
        s@ == text@,
{
    let mut s = String::new();
    push_text(&mut s, text);
    assert(s@ =~= text@);
    s
}

/// Whether `c` has the Unicode White_Space property, which is what
/// `char::is_whitespace` tests.
pub open spec fn is_white_space(c: char) -> bool {
    ||| ('\u{9}' <= c && c <= '\u{d}')
    ||| c == ' '
    ||| c == '\u{85}'
    ||| c == '\u{a0}'
    ||| c == '\u{1680}'
    ||| ('\u{2000}' <= c && c <= '\u{200a}')
    ||| c == '\u{2028}'
    ||| c == '\u{2029}'
    ||| c == '\u{202f}'
    ||| c == '\u{205f}'
    ||| c == '\u{3000}'
}

/// Whether `c` has the Unicode White_Space property.
pub fn white_space(c: char) -> (ws: bool)
    ensures
        ws == is_white_space(c),
{
    ('\u{9}' <= c && c <= '\u{d}') || c == ' ' || c == '\u{85}' || c == '\u{a0}' || c == '\u{1680}'
        || ('\u{2000}' <= c && c <= '\u{200a}') || c == '\u{2028}' || c == '\u{2029}' || c
        == '\u{202f}' || c == '\u{205f}' || c == '\u{3000}'
}

/// `s` without its leading white space.
pub open spec fn trim_front(s: Seq<char>) -> Seq<char>
    decreases s.len(),
{
    if s.len() > 0 && is_white_space(s[0]) {
        trim_front(s.subrange(1, s.len() as int))
    } else {
        s
    }
}

/// `s` without its trailing white space.
pub open spec fn trim_back(s: Seq<char>) -> Seq<char>
    decreases s.len(),
{
    if s.len() > 0 && is_white_space(s[s.len() - 1]) {
        trim_back(s.subrange(0, s.len() - 1))
    } else {
        s
    }
}

/// `s` without leading and trailing white space, as `str::trim` gives it.
pub open spec fn trimmed(s: Seq<char>) -> Seq<char> {
    trim_back(trim_front(s))
}

/// The bounds of `chars` without leading and trailing white space.
pub fn trim_bounds(chars: &Vec<char>) -> (bounds: (usize, usize))
    ensures
        bounds.0 <= bounds.1 <= chars@.len(),
        chars@.subrange(bounds.0 as int, bounds.1 as int) == trimmed(chars@),
{
    let n = chars.len();
    let mut lo: usize = 0;
    assert(chars@.subrange(0, n as int) =~= chars@);
    while lo < n && white_space(chars[lo])
        invariant
            lo <= n == chars@.len(),
            trim_front(chars@) == trim_front(chars@.subrange(lo as int, n as int)),
        decreases n - lo,
    {
        proof {
            let rest = chars@.subrange(lo as int, n as int);
            assert(rest.subrange(1, rest.len() as int) =~= chars@.subrange(lo + 1, n as int));
        }
        lo += 1;
    }
    let mut hi: usize = n;
    proof {
        assert(trim_front(chars@) == chars@.subrange(lo as int, n as int));
    }
    while hi > lo && white_space(chars[hi - 1])
        invariant
            lo <= hi <= n == chars@.len(),
            trim_back(chars@.subrange(lo as int, n as int)) == trim_back(
                chars@.subrange(lo as int, hi as int),
            ),
        decreases hi - lo,
    {
        proof {
            let rest = chars@.subrange(lo as int, hi as int);
            assert(rest.subrange(0, rest.len() - 1) =~= chars@.subrange(lo as int, hi - 1));
        }
        hi -= 1;
    }
    (lo, hi)
}

/// The value of digit `c` in base `radix`, as `char::to_digit` gives it.
pub open spec fn digit_value(c: char, radix: nat) -> Option<nat> {
    let v: int = if '0' <= c && c <= '9' {
        c as int - '0' as int
    } else if 'a' <= c && c <= 'z' {
        c as int - 'a' as int + 10
    } else if 'A' <= c && c <= 'Z' {
        c as int - 'A' as int + 10
    } else {
        radix as int
    };
    if v < radix {
        Some(v as nat)
    } else {
        None
    }
}

/// Whether every character of `digits` is a digit in base `radix`.
pub open spec fn all_digits(digits: Seq<char>, radix: nat) -> bool {
    forall|i: int| 0 <= i < digits.len() ==> (#[trigger] digit_value(digits[i], radix)) is Some
}

/// The number that `digits` write in base `radix`, most significant first.
pub open spec fn digits_value(digits: Seq<char>, radix: nat) -> nat
    decreases digits.len(),
{
    if digits.len() == 0 {
        0
    } else {
        digits_value(digits.drop_last(), radix) * radix + match digit_value(digits.last(), radix) {
            Some(d) => d,
            None => 0,
        }
    }
}

/// What `from_str_radix` gives for `text` in base `radix` for an unsigned
/// type whose largest value is `max`: one leading `+` is allowed, then at
/// least one digit, and the value must not exceed `max`.
pub open spec fn parsed_unsigned(text: Seq<char>, radix: nat, max: nat) -> Option<nat> {
    let digits = if text.len() > 0 && text[0] == '+' {
        text.drop_first()
    } else {
        text
    };
    if digits.len() == 0 || !all_digits(digits, radix) || digits_value(digits, radix) > max {
        None
    } else {
        Some(digits_value(digits, radix))
    }
}

/// A longer run of digits never has a smaller value than its prefix.
pub proof fn lemma_digits_value_monotone(digits: Seq<char>, k: int, radix: nat)
    requires
        0 <= k <= digits.len(),
        radix >= 1,
    ensures
        digits_value(digits.take(k), radix) <= digits_value(digits, radix),
    decreases digits.len(),
{
    if k < digits.len() {
        let shorter = digits.drop_last();
        assert(shorter.take(k) =~= digits.take(k));
        lemma_digits_value_monotone(shorter, k, radix);
        let v = digits_value(shorter, radix);
        assert(v * radix >= v) by (nonlinear_arith)
            requires
                radix >= 1,
        ;
    } else {
        assert(digits.take(k) =~= digits);
    }
}

/// The value of digit `c` in base `radix`.
pub fn char_digit(c: char, radix: u64) -> (d: Option<u64>)
    requires
        2 <= radix <= 36,
    ensures
        match d {
            Some(v) => digit_value(c, radix as nat) == Some(v as nat),
            None => digit_value(c, radix as nat) is None,
        },
{
    let v: u64 = if '0' <= c && c <= '9' {
        (c as u32 - '0' as u32) as u64
    } else if 'a' <= c && c <= 'z' {
        (c as u32 - 'a' as u32) as u64 + 10
    } else if 'A' <= c && c <= 'Z' {
        (c as u32 - 'A' as u32) as u64 + 10
    } else {
        radix
    };
    if v < radix {
        Some(v)
    } else {
        None
    }
}

/// Reads `chars[start..end]` as an unsigned number in base `radix` that
/// must not exceed `max`; see `parsed_unsigned`.
pub fn parse_unsigned(chars: &Vec<char>, start: usize, end: usize, radix: u64, max: u64) -> (value:
    Option<u64>)
    requires
        start <= end <= chars@.len(),
        2 <= radix <= 36,
    ensures
        match value {
            Some(v) => parsed_unsigned(chars@.subrange(start as int, end as int), radix as nat, max as nat)
                == Some(v as nat),
            None => parsed_unsigned(chars@.subrange(start as int, end as int), radix as nat, max as nat)
                is None,
        },
{
    let ghost text = chars@.subrange(start as int, end as int);
    let mut i = start;
    if i < end && chars[i] == '+' {
        i += 1;
    }
    let first = i;
    let ghost digits = chars@.subrange(first as int, end as int);
    proof {
        if text.len() > 0 && text[0] == '+' {
            assert(text.drop_first() =~= digits);
        } else {
            assert(text =~= digits);
        }
    }
    if i == end {
        return None;
    }
    let mut value: u64 = 0;
    while i < end
        invariant
            first <= i <= end <= chars@.len(),
            2 <= radix <= 36,
            digits == chars@.subrange(first as int, end as int),
            text == chars@.subrange(start as int, end as int),
            (if text.len() > 0 && text[0] == '+' { text.drop_first() } else { text }) == digits,
            digits.len() > 0,
            value as nat == digits_value(digits.take(i - first), radix as nat),
            value <= max,
            all_digits(digits.take(i - first), radix as nat),
        decreases end - i,
    {
        let ghost prefix = digits.take(i - first);
        let ghost next = digits.take(i - first + 1);
        proof {
            assert(next.drop_last() =~= prefix);
            assert(next.last() == chars@[i as int]);
        }
        let c = chars[i];
        let d = match char_digit(c, radix) {
            Some(d) => d,
            None => {
                proof {
                    assert(digit_value(digits[i - first], radix as nat) is None);
                }
                return None;
            },
        };
        proof {
            assert(all_digits(next, radix as nat)) by {
                assert forall|j: int| 0 <= j < next.len() implies (#[trigger] digit_value(next[j], radix as nat)) is Some by {
                    if j < prefix.len() {
                        assert(next[j] == prefix[j]);
                    }
                }
            }
            if all_digits(digits, radix as nat) {
                lemma_digits_value_monotone(digits, i - first + 1, radix as nat);
            }
        }
        proof {
            assert(digits_value(next, radix as nat) == value * radix + d);
        }
        let scaled = match value.checked_mul(radix) {
            Some(m) => m,
            None => {
                return None;
            },
        };
        let sum = match scaled.checked_add(d) {
            Some(s) => s,
            None => {
                return None;
            },
        };
        if sum > max {
            return None;
        }
        value = sum;
        i += 1;
    }
    proof {
        assert(digits.take(end - first) =~= digits);
    }
    Some(value)
}

/// The decimal digit of `d`, for `d` below 10.
pub open spec fn digit_char(d: nat) -> char {
    (48 + d) as char
}

/// The decimal digits of `value`, most significant first, without leading
/// zeros; zero is the single digit `0`.
pub open spec fn decimal_digits(value: nat) -> Seq<char>
    decreases value,
{
    if value < 10 {
        seq![digit_char(value)]
    } else {
        decimal_digits(value / 10).push(digit_char(value % 10))
    }
}

/// `value` in decimal, with a minus sign when it is negative, as `{}`
/// writes an integer.
pub open spec fn decimal_text(value: int) -> Seq<char> {
    if value < 0 {
        seq!['-'] + decimal_digits((-value) as nat)
    } else {
        decimal_digits(value as nat)
    }
}

/// Appends `value` in decimal to `out`.
pub fn push_decimal(out: &mut String, value: u64)
    ensures
        final(out)@ == old(out)@ + decimal_digits(value as nat),
{
    let mut digits: Vec<char> = Vec::new();
    if value == 0 {
        digits.push('0');
    }
    let mut rest = value;
    while rest > 0
        invariant
            rest <= value,
            value == 0 ==> digits@ == decimal_digits(0),
            value > 0 && rest > 0 ==> decimal_digits(value as nat) == decimal_digits(rest as nat)
                + digits@,
            value > 0 && rest == 0 ==> decimal_digits(value as nat) == digits@,
        decreases rest,
    {
        let ghost before = digits@;
        let d = rest % 10;
        digits.insert(0, ((48 + d) as u8) as char);
        proof {
            if rest >= 10 {
                assert(decimal_digits(rest as nat) == decimal_digits((rest / 10) as nat).push(
                    digit_char((rest % 10) as nat),
                ));
                assert(decimal_digits(rest as nat) + before =~= decimal_digits((rest / 10) as nat)
                    + digits@);
            } else {
                assert(decimal_digits(rest as nat) + before =~= digits@);
            }
        }
        rest = rest / 10;
    }
    let ghost start = out@;
    let mut i: usize = 0;
    while i < digits.len()
        invariant
            i <= digits@.len(),
            out@ == start + digits@.subrange(0, i as int),
        decreases digits@.len() - i,
    {
        out.push(digits[i]);
        i += 1;
        assert(out@ =~= start + digits@.subrange(0, i as int));
    }
    assert(digits@.subrange(0, digits@.len() as int) =~= digits@);
}

/// Appends `value` in decimal, with a minus sign when it is negative, to
/// `out`.
pub fn push_signed_decimal(out: &mut String, value: i64)
    ensures
        final(out)@ == old(out)@ + decimal_text(value as int),
{
    if value < 0 {
        out.push('-');
        let magnitude: u64 = if value == i64::MIN {
            0x8000_0000_0000_0000
        } else {
            (0 - value) as u64
        };
        push_decimal(out, magnitude);
        assert(out@ =~= old(out)@ + decimal_text(value as int));
    } else {
        push_decimal(out, value as u64);
    }
}

} // verus!
