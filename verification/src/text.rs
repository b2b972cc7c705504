//! Text made and read character by character: decimal numbers, digit groups,
//! lists and substrings.

use vstd::prelude::*;
use vstd::utf8::{
    decode_utf8_split, encode_utf8, encode_utf8_decode_utf8, encode_utf8_first_scalar,
    encode_utf8_valid_utf8, is_char_boundary, pop_first_scalar,
};

verus! {

/// `String::push` appends one character.
pub assume_specification[ String::push ](s: &mut String, c: char)
    ensures
        final(s)@ == old(s)@.push(c),
;

/// The decimal digit for `d`, which is below ten.
pub open spec fn digit(d: nat) -> char {
    (('0' as nat) + d) as char
}

/// The decimal digits of `n`, most significant first, without leading zeros.
pub open spec fn decimal(n: nat) -> Seq<char>
    decreases n,
{
    if n < 10 {
        seq![digit(n)]
    } else {
        decimal(n / 10).push(digit(n % 10))
    }
}

/// `digits` with a comma before each group of three, counted from the end.
pub open spec fn grouped(digits: Seq<char>) -> Seq<char>
    decreases digits.len(),
{
    if digits.len() <= 3 {
        digits
    } else {
        grouped(digits.take(digits.len() - 3)).push(',') + digits.skip(digits.len() - 3)
    }
}

/// The decimal digits of `n`.
pub fn decimal_text(n: u64) -> (s: String)
    ensures
        s@ == decimal(n as nat),
    decreases n,
{
    if n < 10 {
        let mut s = String::new();
        s.push(digit_char(n));
        assert(s@ =~= seq![digit(n as nat)]);
        s
    } else {
        let mut s = decimal_text(n / 10);
        s.push(digit_char(n % 10));
        s
    }
}

fn digit_char(d: u64) -> (c: char)
    requires
        d < 10,
    ensures
        c == digit(d as nat),
{
    (48u8 + d as u8) as char
}

/// `n` in decimal with commas between groups of three digits.
pub fn format_number(n: u64) -> (s: String)
    ensures
        s@ == grouped(decimal(n as nat)),
{
    let digits = decimal_text(n);
    let text = chars_of(digits.as_str());
    let len: usize = text.len();
    let mut s = String::new();
    let mut i: usize = 0;
    while i < len
        invariant
            0 <= i <= len,
            len == text@.len(),
            s@ == grouped_prefix(text@, i as int),
        decreases len - i,
    {
        if i > 0 && (len - i) % 3 == 0 {
            s.push(',');
        }
        s.push(text[i]);
        i = i + 1;
    }
    proof {
        lemma_grouped_prefix(text@, len as int);
        assert(text@.take(len as int) =~= text@);
    }
    s
}

/// The characters of a string.
pub fn chars_of(s: &str) -> (chars: Vec<char>)
    ensures
        chars@ == s@,
{
    let mut chars: Vec<char> = Vec::new();
    for c in it: s.chars()
        invariant
            chars@ == it.seq().take(it.index()),
            it.seq() == s@,
    {
        chars.push(c);
    }
    chars
}

/// The contents of each string.
pub open spec fn texts(strings: Seq<String>) -> Seq<Seq<char>> {
    strings.map_values(|s: String| s@)
}

/// `parts` in order with `separator` between neighbours.
pub open spec fn joined(parts: Seq<Seq<char>>, separator: Seq<char>) -> Seq<char>
    decreases parts.len(),
{
    if parts.len() == 0 {
        Seq::empty()
    } else if parts.len() == 1 {
        parts[0]
    } else {
        joined(parts.drop_last(), separator) + separator + parts.last()
    }
}

/// Joins strings with a separator between neighbours.
pub fn join(parts: &[String], separator: &str) -> (s: String)
    ensures
        s@ == joined(texts(parts@), separator@),
{
    let mut s = String::new();
    let mut i: usize = 0;
    while i < parts.len()
        invariant
            0 <= i <= parts@.len(),
            s@ == joined(texts(parts@).take(i as int), separator@),
        decreases parts@.len() - i,
    {
        if i > 0 {
            s.append(separator);
        }
        s.append(parts[i].as_str());
        proof {
            let all = texts(parts@);
            assert(all.take(i + 1).drop_last() =~= all.take(i as int));
            assert(all.take(i + 1).last() == parts@[i as int]@);
            assert(s@ =~= joined(all.take(i + 1), separator@));
        }
        i = i + 1;
    }
    assert(texts(parts@).take(parts@.len() as int) =~= texts(parts@));
    s
}

/// Splits a text behind `at` bytes, which must be where a character ends.
pub fn split_at_byte<'a>(text: &'a str, at: usize) -> (parts: (&'a str, &'a str))
    requires
        is_char_boundary(encode_utf8(text@), at as int),
    ensures
        parts.0@ + parts.1@ == text@,
        encode_utf8(parts.0@) == encode_utf8(text@).subrange(0, at as int),
{
    let parts = text.split_at(at);
    proof {
        let bytes = encode_utf8(text@);
        let end = bytes.len() as int;
        encode_utf8_valid_utf8(text@);
        encode_utf8_decode_utf8(text@);
        encode_utf8_decode_utf8(parts.0@);
        encode_utf8_decode_utf8(parts.1@);
        assert(encode_utf8(parts.0@) =~= bytes.subrange(0, at as int));
        assert(encode_utf8(parts.1@) =~= bytes.subrange(at as int, end));
        decode_utf8_split(bytes, at as int);
    }
    parts
}

/// Texts one after the other are encoded one after the other.
proof fn lemma_encode_append(a: Seq<char>, b: Seq<char>)
    ensures
        encode_utf8(a + b) == encode_utf8(a) + encode_utf8(b),
    decreases a.len(),
{
    if a.len() == 0 {
        assert(a + b =~= b);
    } else {
        lemma_encode_append(a.drop_first(), b);
        assert((a + b).drop_first() =~= a.drop_first() + b);
    }
    assert(encode_utf8(a + b) =~= encode_utf8(a) + encode_utf8(b));
}

/// Behind the bytes of the first characters of a text, a character ends.
pub proof fn lemma_prefix_ends_at_boundary(start: Seq<char>, text: Seq<char>)
    requires
        start.is_prefix_of(text),
    ensures
        is_char_boundary(encode_utf8(text), encode_utf8(start).len() as int),
        encode_utf8(text).subrange(0, encode_utf8(start).len() as int) == encode_utf8(start),
    decreases start.len(),
{
    let bytes = encode_utf8(text);
    encode_utf8_valid_utf8(text);
    assert(start + text.skip(start.len() as int) =~= text);
    lemma_encode_append(start, text.skip(start.len() as int));
    assert(bytes.subrange(0, encode_utf8(start).len() as int) =~= encode_utf8(start));
    if start.len() > 0 {
        encode_utf8_first_scalar(text);
        assert(pop_first_scalar(bytes) =~= encode_utf8(text.drop_first()));
        assert(start.drop_first() =~= text.drop_first().subrange(0, start.len() - 1));
        lemma_prefix_ends_at_boundary(start.drop_first(), text.drop_first());
        assert(start[0] == text[0]);
    }
}

/// Whether `needle` stands somewhere in `hay` in one piece.
pub open spec fn has_text(hay: Seq<char>, needle: Seq<char>) -> bool {
    exists|at: int|
        0 <= at <= hay.len() - needle.len() && #[trigger] hay.subrange(at, at + needle.len())
            == needle
}

/// Whether `needle` stands somewhere in `hay` in one piece.
pub fn contains(hay: &str, needle: &str) -> (found: bool)
    ensures
        found == has_text(hay@, needle@),
{
    let h = chars_of(hay);
    let n = chars_of(needle);
    let h_len: usize = h.len();
    if n.len() > h_len {
        return false;
    }
    let mut at: usize = 0;
    while at <= h_len - n.len()
        invariant
            h_len == h@.len(),
            h@ == hay@,
            n@ == needle@,
            n@.len() <= h@.len(),
            0 <= at <= h@.len() - n@.len() + 1,
            forall|k: int|
                0 <= k < at ==> #[trigger] hay@.subrange(k, k + needle@.len()) != needle@,
        decreases h@.len() - at,
    {
        let mut j: usize = 0;
        while j < n.len() && h[at + j] == n[j]
            invariant
                h_len == h@.len(),
                h@ == hay@,
                n@ == needle@,
                0 <= j <= n@.len(),
                at + n@.len() <= h@.len(),
                forall|k: int| 0 <= k < j ==> h@[at + k] == #[trigger] n@[k],
            decreases n@.len() - j,
        {
            j = j + 1;
        }
        let ghost here = hay@.subrange(at as int, at + needle@.len());
        if j == n.len() {
            assert(here =~= needle@);
            return true;
        }
        assert(here[j as int] != needle@[j as int]);
        at = at + 1;
    }
    false
}

/// What the first `i` characters of `digits` become in `grouped(digits)`: each
/// carries a comma before it if it begins a group and is not the first.
spec fn grouped_prefix(digits: Seq<char>, i: int) -> Seq<char>
    decreases i,
{
    if i <= 0 {
        Seq::empty()
    } else {
        let before = grouped_prefix(digits, i - 1);
        if i > 1 && (digits.len() - (i - 1)) % 3 == 0 {
            before.push(',').push(digits[i - 1])
        } else {
            before.push(digits[i - 1])
        }
    }
}

proof fn lemma_grouped_prefix(digits: Seq<char>, k: int)
    requires
        0 <= k <= digits.len(),
        (digits.len() - k) % 3 == 0,
    ensures
        grouped_prefix(digits, k) == grouped(digits.take(k)),
    decreases k,
{
    reveal_with_fuel(grouped_prefix, 4);
    let head = digits.take(k);
    if k <= 3 {
        assert(grouped_prefix(digits, k) =~= head);
    } else {
        lemma_grouped_prefix(digits, k - 3);
        assert(head.take(k - 3) =~= digits.take(k - 3));
        assert(head.skip(k - 3) =~= seq![digits[k - 3], digits[k - 2], digits[k - 1]]);
        assert(grouped_prefix(digits, k) =~= grouped(head));
    }
}

/// Dropping the commas of a grouped number gives the digits back.
pub proof fn law_grouping_adds_commas_only(digits: Seq<char>)
    requires
        !digits.contains(','),
    ensures
        grouped(digits).filter(|c: char| c != ',') == digits,
    decreases digits.len(),
{
    let keep = |c: char| c != ',';
    if digits.len() <= 3 {
        lemma_filter_all(digits, keep);
    } else {
        let head = digits.take(digits.len() - 3);
        let tail = digits.skip(digits.len() - 3);
        law_grouping_adds_commas_only(head);
        Seq::filter_distributes_over_add(grouped(head).push(','), tail, keep);
        lemma_filter_all(tail, keep);
        assert(grouped(head).push(',').drop_last() =~= grouped(head));
        reveal(Seq::filter);
        assert(head + tail =~= digits);
    }
}

/// Dropping the commas of a formatted number gives its decimal digits.
pub proof fn law_format_number_digits(n: nat)
    ensures
        grouped(decimal(n)).filter(|c: char| c != ',') == decimal(n),
{
    lemma_decimal_no_comma(n);
    law_grouping_adds_commas_only(decimal(n));
}

proof fn lemma_decimal_no_comma(n: nat)
    ensures
        !decimal(n).contains(','),
    decreases n,
{
    if n >= 10 {
        lemma_decimal_no_comma(n / 10);
        assert forall|i: int| 0 <= i < decimal(n).len() implies decimal(n)[i] != ',' by {
            if i < decimal(n / 10).len() {
                assert(decimal(n / 10).contains(decimal(n / 10)[i]));
            }
        }
    }
}

proof fn lemma_filter_all(s: Seq<char>, keep: spec_fn(char) -> bool)
    requires
        forall|i: int| 0 <= i < s.len() ==> keep(s[i]),
    ensures
        s.filter(keep) == s,
    decreases s.len(),
{
    reveal(Seq::filter);
    if s.len() > 0 {
        lemma_filter_all(s.drop_last(), keep);
        assert(s.drop_last().push(s.last()) =~= s);
    }
}

/// A number below ten is one digit, and ten times a number plus a digit is
/// written by that digit behind the number.
pub proof fn law_decimal_digits(n: nat, d: nat)
    requires
        d < 10,
    ensures
        decimal(d).len() == 1,
        decimal(d)[0] as int == 48 + d,
        n > 0 ==> decimal(10 * n + d) == decimal(n) + decimal(d),
{
    if n > 0 {
        assert((10 * n + d) / 10 == n);
        assert((10 * n + d) % 10 == d);
        assert(decimal(n).push(digit(d)) =~= decimal(n) + seq![digit(d)]);
    }
}

/// In a grouped number without commas of its own, every fourth character from
/// the end is a comma, and no other.
pub proof fn law_commas_every_fourth(digits: Seq<char>, back: int)
    requires
        !digits.contains(','),
        0 <= back < grouped(digits).len(),
    ensures
        grouped(digits)[grouped(digits).len() - 1 - back] == ',' <==> back % 4 == 3,
        digits.len() > 0 ==> grouped(digits).len() == digits.len() + (digits.len() - 1) / 3,
    decreases digits.len(),
{
    if digits.len() <= 3 {
        assert(digits.contains(digits[digits.len() - 1 - back]));
    } else {
        let head = digits.take(digits.len() - 3);
        let tail = digits.skip(digits.len() - 3);
        assert forall|c: char| head.contains(c) implies digits.contains(c) by {
            let i = choose|i: int| 0 <= i < head.len() && head[i] == c;
            assert(digits[i] == c);
        }
        assert(!head.contains(','));
        let text = grouped(digits);
        lemma_grouped_not_empty(head);
        law_commas_every_fourth(head, 0);
        assert(text.len() == grouped(head).len() + 4);
        if back < 3 {
            assert(text[text.len() - 1 - back] == digits[digits.len() - 1 - back]);
            assert(digits.contains(digits[digits.len() - 1 - back]));
        } else if back == 3 {
            assert(text[text.len() - 4] == ',');
        } else {
            law_commas_every_fourth(head, back - 4);
            assert(text[text.len() - 1 - back] == grouped(head)[grouped(head).len() - 1 - (back
                - 4)]);
        }
    }
}

proof fn lemma_grouped_not_empty(digits: Seq<char>)
    requires
        digits.len() > 0,
    ensures
        grouped(digits).len() > 0,
{
}

/// The contents of strings stand one for one.
pub proof fn law_texts(strings: Seq<String>)
    ensures
        texts(strings).len() == strings.len(),
        forall|i: int| 0 <= i < strings.len() ==> #[trigger] texts(strings)[i] == strings[i]@,
{
}

/// Nothing joins to nothing, one text to itself, and one more text comes behind
/// a separator.
pub proof fn law_joining(parts: Seq<Seq<char>>, separator: Seq<char>, last: Seq<char>)
    ensures
        joined(Seq::empty(), separator) == Seq::<char>::empty(),
        joined(seq![last], separator) == last,
        parts.len() > 0 ==> joined(parts.push(last), separator) == joined(parts, separator)
            + separator + last,
{
    assert(parts.push(last).drop_last() =~= parts);
}

/// A text stands in another exactly where the other is made of it with
/// something before and behind.
pub proof fn law_contained_text(hay: Seq<char>, needle: Seq<char>)
    ensures
        has_text(hay, needle) <==> exists|before: Seq<char>, behind: Seq<char>|
            hay == #[trigger] (before + needle + behind),
{
    if has_text(hay, needle) {
        let at = choose|at: int|
            0 <= at <= hay.len() - needle.len() && #[trigger] hay.subrange(at, at + needle.len())
                == needle;
        let before = hay.take(at);
        let behind = hay.skip(at + needle.len());
        assert(hay =~= before + needle + behind) by {
            assert(hay.subrange(at, at + needle.len()) =~= needle);
            assert forall|i: int| 0 <= i < hay.len() implies hay[i] == (before + needle
                + behind)[i] by {
                if at <= i < at + needle.len() {
                    assert(hay.subrange(at, at + needle.len())[i - at] == hay[i]);
                }
            }
        }
    }
    if exists|before: Seq<char>, behind: Seq<char>| hay == #[trigger] (before + needle + behind) {
        let (before, behind) = choose|before: Seq<char>, behind: Seq<char>|
            hay == #[trigger] (before + needle + behind);
        let at = before.len() as int;
        assert(hay.subrange(at, at + needle.len()) =~= needle);
    }
}

} // verus!
