//! Small readers for the scalar values that appear as element text.
//!
//! Every reader here has a fallback: text that does not spell a value of the
//! expected kind yields a fixed default instead of an error.

use vstd::prelude::*;
use vstd::string::is_ascii_spec_bytes;
use vstd::string::StringSliceAdditionalSpecFns;
use vstd::utf8::{encode_utf8_decode_utf8, is_ascii_chars};

verus! {

/// Whether two strings hold the same characters.
pub fn str_eq(a: &str, b: &str) -> (same: bool)
    ensures
        same == (a@ == b@),
{
    let x = a.as_bytes();
    let y = b.as_bytes();
    proof {
        encode_utf8_decode_utf8(a@);
        encode_utf8_decode_utf8(b@);
    }
    if x.len() != y.len() {
        return false;
    }
    let mut i: usize = 0;
    while i < x.len()
        invariant
            i <= x.len(),
            x@.len() == y@.len(),
            x@ == a.spec_bytes(),
            y@ == b.spec_bytes(),
            forall|j: int| 0 <= j < i ==> x@[j] == y@[j],
        decreases x.len() - i,
    {
        if x[i] != y[i] {
            return false;
        }
        i += 1;
    }
    assert(x@ =~= y@);
    true
}

/// The number that a run of decimal digits denotes, most significant digit first.
pub open spec fn decimal_value(digits: Seq<char>) -> nat
    decreases digits.len(),
{
    if digits.len() == 0 {
        0
    } else {
        (decimal_value(digits.drop_last()) * 10 + (digits.last() as nat - '0' as nat)) as nat
    }
}

/// A non-empty run of ASCII decimal digits.
pub open spec fn is_decimal(digits: Seq<char>) -> bool {
    digits.len() > 0 && forall|i: int| 0 <= i < digits.len() ==> '0' <= #[trigger] digits[i] <= '9'
}

/// What is left of an unsigned number once an optional leading `+` is set aside.
pub open spec fn unsigned_digits(text: Seq<char>) -> Seq<char> {
    if text.len() > 0 && text[0] == '+' {
        text.drop_first()
    } else {
        text
    }
}

/// The byte that `text` spells in decimal: an optional `+`, then one or more
/// digits whose value is at most 255. Anything else spells no byte.
pub open spec fn parsed_u8(text: Seq<char>) -> Option<u8> {
    let digits = unsigned_digits(text);
    if is_decimal(digits) && decimal_value(digits) <= 255 {
        Some(decimal_value(digits) as u8)
    } else {
        None
    }
}

/// The byte that `text` spells, or 0 where it spells none.
pub open spec fn u8_or_zero(text: Seq<char>) -> u8 {
    match parsed_u8(text) {
        Some(value) => value,
        None => 0,
    }
}

/// Appending a digit never lowers the value of a digit run.
proof fn lemma_decimal_value_grows(digits: Seq<char>, n: int)
    requires
        is_decimal(digits),
        0 <= n <= digits.len(),
    ensures
        decimal_value(digits.take(n)) <= decimal_value(digits),
    decreases digits.len() - n,
{
    if n == digits.len() {
        assert(digits.take(n) =~= digits);
    } else {
        lemma_decimal_value_grows(digits, n + 1);
        assert(digits.take(n + 1).drop_last() =~= digits.take(n));
    }
}

/// Reads an unsigned byte written in decimal.
pub fn parse_u8(text: &str) -> (value: Option<u8>)
    ensures
        value == parsed_u8(text@),
{
    if !text.is_ascii() {
        proof {
            let i = choose|i: int| 0 <= i < text@.len() && !('\0' <= #[trigger] text@[i] <= '\u{7f}');
            if i > 0 && text@[0] == '+' {
                assert(text@.drop_first()[i - 1] == text@[i]);
            }
        }
        return None;
    }
    let bytes = text.as_bytes();
    proof {
        is_ascii_spec_bytes(text);
    }
    let start: usize = if bytes.len() > 0 && bytes[0] == 43 { 1 } else { 0 };
    let ghost digits = unsigned_digits(text@);
    if start == bytes.len() {
        return None;
    }
    let mut acc: u32 = 0;
    let mut i: usize = start;
    while i < bytes.len()
        invariant
            start <= i <= bytes.len(),
            bytes@.len() == text@.len(),
            digits == text@.skip(start as int),
            digits == unsigned_digits(text@),
            forall|j: int| 0 <= j < text@.len() ==> bytes@[j] == text@[j] as u8,
            forall|j: int| 0 <= j < text@.len() ==> '\0' <= #[trigger] text@[j] <= '\u{7f}',
            forall|j: int| 0 <= j < i - start ==> '0' <= #[trigger] digits[j] <= '9',
            acc == decimal_value(digits.take(i - start)),
            acc <= 255,
        decreases bytes.len() - i,
    {
        let b = bytes[i];
        assert(digits[i - start] == text@[i as int]);
        if b < 48 || b > 57 {
            return None;
        }
        assert(digits.take(i - start + 1).drop_last() =~= digits.take(i - start));
        acc = acc * 10 + (b - 48) as u32;
        if acc > 255 {
            proof {
                if is_decimal(digits) {
                    lemma_decimal_value_grows(digits, i - start + 1);
                }
            }
            return None;
        }
        i += 1;
    }
    assert(digits.take(i - start) =~= digits);
    Some(acc as u8)
}

/// Reads an unsigned byte written in decimal; text that spells none reads as 0.
pub fn parse_u8_or_zero(text: &str) -> (value: u8)
    ensures
        value == u8_or_zero(text@),
{
    match parse_u8(text) {
        Some(value) => value,
        None => 0,
    }
}

/// The flag that `text` spells: only the exact word `true` reads as set, and
/// everything else, the word `false` included, as unset.
pub open spec fn bool_or_false(text: Seq<char>) -> bool {
    text == "true"@
}

/// Reads a flag; text that is not the word `true` reads as unset.
pub fn parse_bool_or_false(text: &str) -> (flag: bool)
    ensures
        flag == bool_or_false(text@),
{
    str_eq(text, "true")
}

/// The lower-case form of an ASCII capital; every other character stays.
pub open spec fn ascii_lower(c: char) -> char {
    if 'A' <= c <= 'Z' {
        ((c as u8) + 32) as char
    } else {
        c
    }
}

/// `text` with its ASCII capitals lowered.
pub open spec fn ascii_lowered(text: Seq<char>) -> Seq<char> {
    text.map_values(|c: char| ascii_lower(c))
}

/// The flag that an attribute value spells when case is ignored.
pub open spec fn flag_or_false(text: Seq<char>) -> bool {
    bool_or_false(ascii_lowered(text))
}

/// Whether `text`, with its ASCII capitals lowered, is `word`.
fn lowered_eq(text: &str, word: &str) -> (same: bool)
    requires
        is_ascii_chars(word@),
    ensures
        same == (ascii_lowered(text@) == word@),
{
    let ghost lowered = ascii_lowered(text@);
    if !text.is_ascii() {
        proof {
            let i = choose|i: int| 0 <= i < text@.len() && !('\0' <= #[trigger] text@[i] <= '\u{7f}');
            if lowered == word@ {
                assert('\0' <= word@[i] <= '\u{7f}');
            }
        }
        return false;
    }
    let x = text.as_bytes();
    let y = word.as_bytes();
    proof {
        is_ascii_spec_bytes(text);
        is_ascii_spec_bytes(word);
    }
    if x.len() != y.len() {
        return false;
    }
    let mut i: usize = 0;
    while i < x.len()
        invariant
            i <= x.len(),
            x@.len() == y@.len(),
            x@.len() == text@.len(),
            y@.len() == word@.len(),
            lowered == ascii_lowered(text@),
            forall|j: int| 0 <= j < text@.len() ==> x@[j] == text@[j] as u8,
            forall|j: int| 0 <= j < word@.len() ==> y@[j] == word@[j] as u8,
            forall|j: int| 0 <= j < text@.len() ==> '\0' <= #[trigger] text@[j] <= '\u{7f}',
            forall|j: int| 0 <= j < word@.len() ==> '\0' <= #[trigger] word@[j] <= '\u{7f}',
            forall|j: int| 0 <= j < i ==> #[trigger] lowered[j] == word@[j],
        decreases x.len() - i,
    {
        let b = x[i];
        let low = if 65 <= b && b <= 90 {
            b + 32
        } else {
            b
        };
        if low != y[i] {
            return false;
        }
        i += 1;
    }
    assert(lowered =~= word@);
    true
}

/// Reads a flag without regard to case; text that is not some spelling of
/// `true` reads as unset.
pub fn parse_flag_or_false(text: &str) -> (flag: bool)
    ensures
        flag == flag_or_false(text@),
{
    proof {
        reveal_strlit("true");
    }
    lowered_eq(text, "true")
}

/// Whether `text` spells a flag: the word `true` or the word `false`.
pub open spec fn is_flag(text: Seq<char>) -> bool {
    text == "true"@ || text == "false"@
}

/// Tells whether text spells a flag.
pub fn spells_flag(text: &str) -> (yes: bool)
    ensures
        yes == is_flag(text@),
{
    str_eq(text, "true") || str_eq(text, "false")
}

/// Tells whether text spells a flag when case is ignored.
pub fn spells_flag_in_any_case(text: &str) -> (yes: bool)
    ensures
        yes == is_flag(ascii_lowered(text@)),
{
    proof {
        reveal_strlit("true");
        reveal_strlit("false");
    }
    lowered_eq(text, "true") || lowered_eq(text, "false")
}

} // verus!
