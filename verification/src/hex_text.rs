//! Bytes as upper-case hexadecimal text.

use vstd::prelude::*;

verus! {

/// The `i`-th half byte of `bytes`, counted from the high half of the first.
pub open spec fn nibble_at(bytes: Seq<u8>, i: int) -> u8 {
    if i % 2 == 0 {
        bytes[i / 2] / 16
    } else {
        bytes[i / 2] % 16
    }
}

/// The upper-case hex digit for a value below sixteen.
pub open spec fn upper_hex_digit(value: u8) -> char {
    if value < 10 {
        ('0' as u8 + value) as char
    } else {
        ('A' as u8 + (value - 10)) as char
    }
}

/// The upper-case hex text of `bytes`, two digits for each.
pub open spec fn hex_upper(bytes: Seq<u8>) -> Seq<char> {
    Seq::new(2 * bytes.len(), |i: int| upper_hex_digit(nibble_at(bytes, i)))
}

/// `hex::encode_upper`: two upper-case hex digits for each byte, the high half
/// first.
#[verifier::external_body]
pub(crate) fn encode_upper(data: &[u8]) -> (s: String)
    ensures
        s@ == hex_upper(data@),
{
    hex::encode_upper(data)
}

/// Whether `c` is a hex digit, in either case.
pub open spec fn is_hex_digit(c: char) -> bool {
    '0' <= c <= '9' || 'A' <= c <= 'F' || 'a' <= c <= 'f'
}

/// The value of a hex digit.
pub open spec fn hex_digit_value(c: char) -> u8 {
    if '0' <= c <= '9' {
        (c as u8 - '0' as u8) as u8
    } else if 'A' <= c <= 'F' {
        (c as u8 - 'A' as u8 + 10) as u8
    } else {
        (c as u8 - 'a' as u8 + 10) as u8
    }
}

/// `c` in upper case if it is a lower-case ASCII letter.
pub open spec fn ascii_upper_char(c: char) -> char {
    if 'a' <= c <= 'z' {
        (c as u32 - 32) as char
    } else {
        c
    }
}

/// `text` with its lower-case ASCII letters in upper case.
pub open spec fn ascii_upper(text: Seq<char>) -> Seq<char> {
    text.map_values(|c: char| ascii_upper_char(c))
}

/// Whether every character of `text` is a hex digit.
pub open spec fn is_hex_text(text: Seq<char>) -> bool {
    forall|i: int| 0 <= i < text.len() ==> is_hex_digit(#[trigger] text[i])
}

/// The value of a hex digit, or `None` for any other character.
pub fn hex_value(c: char) -> (value: Option<u8>)
    ensures
        value is Some <==> is_hex_digit(c),
        value matches Some(v) ==> v == hex_digit_value(c) && v < 16,
{
    if '0' <= c && c <= '9' {
        Some(c as u8 - 48)
    } else if 'A' <= c && c <= 'F' {
        Some(c as u8 - 55)
    } else if 'a' <= c && c <= 'f' {
        Some(c as u8 - 87)
    } else {
        None
    }
}

/// A hex digit and its value agree on the upper-case digit.
pub proof fn lemma_hex_digit_upper(c: char)
    requires
        is_hex_digit(c),
    ensures
        hex_digit_value(c) < 16,
        upper_hex_digit(hex_digit_value(c)) == ascii_upper_char(c),
{
}

/// Values below sixteen have distinct digits.
pub proof fn lemma_upper_hex_digit_injective(a: u8, b: u8)
    requires
        a < 16,
        b < 16,
        upper_hex_digit(a) == upper_hex_digit(b),
    ensures
        a == b,
{
}

/// The hex digits are `0` to `9`, `A` to `F` and `a` to `f`, and each is worth
/// its distance from the first of its row.
pub proof fn law_hex_digits(c: char)
    ensures
        is_hex_digit(c) <==> 48 <= c as int <= 57 || 65 <= c as int <= 70 || 97 <= c as int <= 102,
        48 <= c as int <= 57 ==> hex_digit_value(c) == c as int - 48,
        65 <= c as int <= 70 ==> hex_digit_value(c) == c as int - 55,
        97 <= c as int <= 102 ==> hex_digit_value(c) == c as int - 87,
{
}

/// A hex text has hex digits only.
pub proof fn law_hex_text(text: Seq<char>)
    ensures
        is_hex_text(text) <==> forall|i: int|
            0 <= i < text.len() ==> {
                let c = #[trigger] text[i] as int;
                48 <= c <= 57 || 65 <= c <= 70 || 97 <= c <= 102
            },
{
    if is_hex_text(text) {
        assert forall|i: int| 0 <= i < text.len() implies {
            let c = #[trigger] text[i] as int;
            48 <= c <= 57 || 65 <= c <= 70 || 97 <= c <= 102
        } by {
            assert(is_hex_digit(text[i]));
        }
    }
}

/// Upper case moves the letters `a` to `z` and nothing else.
pub proof fn law_upper_case(text: Seq<char>)
    ensures
        ascii_upper(text).len() == text.len(),
        forall|i: int|
            0 <= i < text.len() ==> {
                let c = text[i] as int;
                (#[trigger] ascii_upper(text)[i]) as int == if 97 <= c <= 122 {
                    c - 32
                } else {
                    c
                }
            },
{
}

/// The digits below sixteen are `0` to `9` and `A` to `F`.
pub proof fn law_upper_digits(value: u8)
    requires
        value < 16,
    ensures
        upper_hex_digit(value) as int == if value < 10 {
            48 + value
        } else {
            55 + value
        },
{
}

/// A hex text reads back: it has two digits for each byte, all of them `0` to
/// `9` or `A` to `F`, and the two say sixteen times the first and the second.
pub proof fn law_hex_reads_back(bytes: Seq<u8>)
    ensures
        hex_upper(bytes).len() == 2 * bytes.len(),
        forall|i: int|
            #![trigger bytes[i]]
            0 <= i < bytes.len() ==> {
                let high = hex_upper(bytes)[2 * i];
                let low = hex_upper(bytes)[2 * i + 1];
                &&& 48 <= high as int <= 57 || 65 <= high as int <= 70
                &&& 48 <= low as int <= 57 || 65 <= low as int <= 70
                &&& bytes[i] == 16 * hex_digit_value(high) + hex_digit_value(low)
            },
{
}

/// Different keys have different hex texts.
pub proof fn law_hex_tells_apart(a: Seq<u8>, b: Seq<u8>)
    requires
        hex_upper(a) == hex_upper(b),
    ensures
        a == b,
{
    law_hex_reads_back(a);
    law_hex_reads_back(b);
    assert forall|i: int| 0 <= i < a.len() implies a[i] == b[i] by {
        assert(hex_upper(a)[2 * i] == hex_upper(b)[2 * i]);
        assert(hex_upper(a)[2 * i + 1] == hex_upper(b)[2 * i + 1]);
        assert(b[i] == b[i]);
    }
    assert(a =~= b);
}

} // verus!
