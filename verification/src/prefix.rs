//! Hex prefixes: which are accepted, which keys they match and how many
//! attempts they cost.

use crate::hex_text::{
    ascii_upper, ascii_upper_char, hex_digit_value, hex_upper, hex_value, is_hex_digit, is_hex_text,
    law_hex_text, law_upper_case, lemma_hex_digit_upper, lemma_upper_hex_digit_injective, nibble_at,
    upper_hex_digit,
};
use crate::text::{chars_of, decimal, decimal_text, texts};
use vstd::arithmetic::power::pow;
use vstd::prelude::*;
use vstd::utf8::encode_utf8;

verus! {

/// A hex prefix taken apart for comparison with raw key bytes: whole bytes,
/// then a half byte if the prefix has an odd number of digits.
pub struct PrefixMatcher {
    pub full_bytes: Vec<u8>,
    pub trailing_nibble: Option<u8>,
}

/// A matcher stands for the upper-case text of its prefix.
impl View for PrefixMatcher {
    type V = Seq<char>;

    open spec fn view(&self) -> Seq<char> {
        match self.trailing_nibble {
            Some(n) => hex_upper(self.full_bytes@).push(upper_hex_digit(n)),
            None => hex_upper(self.full_bytes@),
        }
    }
}

impl PrefixMatcher {
    /// The half byte, if there is one, is below sixteen.
    pub open spec fn wf(&self) -> bool {
        self.trailing_nibble matches Some(n) ==> n < 16
    }

    /// Takes a hex prefix apart.
    pub fn new(prefix: &str) -> (matcher: PrefixMatcher)
        requires
            is_hex_text(prefix@),
        ensures
            matcher.wf(),
            matcher@ == ascii_upper(prefix@),
            matcher.full_bytes@.len() == prefix@.len() / 2,
            matcher.trailing_nibble is Some <==> prefix@.len() % 2 == 1,
    {
        let chars = chars_of(prefix);
        let mut full_bytes: Vec<u8> = Vec::new();
        let mut i: usize = 0;
        assert(hex_upper(full_bytes@) =~= ascii_upper(prefix@).take(0));
        while chars.len() - i >= 2
            invariant
                chars@ == prefix@,
                is_hex_text(prefix@),
                0 <= i <= chars@.len(),
                i == 2 * full_bytes@.len(),
                hex_upper(full_bytes@) == ascii_upper(prefix@).take(i as int),
            decreases chars@.len() - i,
        {
            proof {
                lemma_hex_digit_upper(prefix@[i as int]);
                lemma_hex_digit_upper(prefix@[i + 1]);
            }
            let high: u8 = hex_value(chars[i]).unwrap();
            let low: u8 = hex_value(chars[i + 1]).unwrap();
            let ghost before = full_bytes@;
            full_bytes.push(high * 16 + low);
            proof {
                let whole = hex_upper(full_bytes@);
                assert(full_bytes@.drop_last() =~= before);
                assert forall|k: int| 0 <= k < i + 2 implies whole[k] == ascii_upper(
                    prefix@,
                )[k] by {
                    if k < i {
                        assert(nibble_at(full_bytes@, k) == nibble_at(before, k));
                        assert(whole[k] == hex_upper(before)[k]);
                        assert(hex_upper(before)[k] == ascii_upper(prefix@).take(i as int)[k]);
                    }
                }
                assert(whole =~= ascii_upper(prefix@).take(i + 2));
            }
            i = i + 2;
        }
        if i < chars.len() {
            proof {
                lemma_hex_digit_upper(prefix@[i as int]);
            }
            let last: u8 = hex_value(chars[i]).unwrap();
            assert(ascii_upper(prefix@) =~= ascii_upper(prefix@).take(i as int).push(
                ascii_upper_char(prefix@[i as int]),
            ));
            PrefixMatcher { full_bytes, trailing_nibble: Some(last) }
        } else {
            assert(ascii_upper(prefix@) =~= ascii_upper(prefix@).take(i as int));
            PrefixMatcher { full_bytes, trailing_nibble: None }
        }
    }

    /// Whether the hex text of a public key starts with the prefix.
    pub fn matches(&self, public_key: &[u8; 32]) -> (found: bool)
        requires
            self.wf(),
        ensures
            found == self@.is_prefix_of(hex_upper(public_key@)),
    {
        let len: usize = self.full_bytes.len();
        if len > 32 {
            return false;
        }
        let ghost key_text = hex_upper(public_key@);
        let mut i: usize = 0;
        while i < len
            invariant
                0 <= i <= len <= 32,
                len == self.full_bytes@.len(),
                key_text == hex_upper(public_key@),
                self.full_bytes@.take(i as int) == public_key@.take(i as int),
            decreases len - i,
        {
            if self.full_bytes[i] != public_key[i] {
                proof {
                    let k = i as int;
                    let a = self.full_bytes@[k];
                    let b = public_key@[k];
                    if self@.is_prefix_of(key_text) {
                        assert(self@[2 * k] == key_text[2 * k]);
                        assert(self@[2 * k + 1] == key_text[2 * k + 1]);
                        lemma_upper_hex_digit_injective(a / 16, b / 16);
                        lemma_upper_hex_digit_injective(a % 16, b % 16);
                    }
                }
                return false;
            }
            proof {
                let k = i as int;
                assert(self.full_bytes@.take(k + 1) =~= public_key@.take(k).push(public_key@[k]));
                assert(public_key@.take(k + 1) =~= public_key@.take(k).push(public_key@[k]));
            }
            i = i + 1;
        }
        proof {
            assert forall|k: int| 0 <= k < 2 * len implies hex_upper(self.full_bytes@)[k]
                == key_text[k] by {
                assert(self.full_bytes@[k / 2] == self.full_bytes@.take(len as int)[k / 2]);
                assert(public_key@[k / 2] == public_key@.take(len as int)[k / 2]);
            }
        }
        match self.trailing_nibble {
            Some(n) => {
                if len == 32 {
                    return false;
                }
                let found = public_key[len] / 16 == n;
                proof {
                    let b = public_key@[len as int];
                    assert(key_text[2 * len] == upper_hex_digit(b / 16));
                    if found {
                        assert(self@ =~= key_text.subrange(0, self@.len() as int));
                    } else if self@.is_prefix_of(key_text) {
                        assert(self@[2 * len] == key_text[2 * len]);
                        lemma_upper_hex_digit_injective(b / 16, n);
                    }
                }
                found
            },
            None => {
                assert(self@ =~= key_text.subrange(0, self@.len() as int));
                true
            },
        }
    }
}

/// Longest prefix that is accepted, in characters.
pub const MAX_PREFIX_LEN: usize = 8;

/// Whether MeshCore reserves a key: its first byte is `00` or `FF`.
pub open spec fn is_reserved(public_key: Seq<u8>) -> bool {
    public_key[0] == 0x00 || public_key[0] == 0xFF
}

/// Whether MeshCore reserves a key, so that a search passes over it.
pub fn should_skip(public_key: &[u8; 32]) -> (skip: bool)
    ensures
        skip == is_reserved(public_key@),
        skip <==> public_key@[0] == 0x00 || public_key@[0] == 0xFF,
{
    public_key[0] == 0x00 || public_key[0] == 0xFF
}

/// Whether the text starts with `00` or `FF`.
pub open spec fn starts_reserved(upper: Seq<char>) -> bool {
    &&& upper.len() >= 2
    &&& (upper[0] == '0' && upper[1] == '0') || (upper[0] == 'F' && upper[1] == 'F')
}

/// Length of a text in UTF-8 bytes.
pub open spec fn byte_len(text: Seq<char>) -> nat {
    encode_utf8(text).len()
}

/// What a raw prefix is taken for: its upper-case form, or the reason why it
/// is refused.
pub open spec fn validated(prefix: Seq<char>) -> Result<Seq<char>, Seq<char>> {
    if prefix.len() == 0 || byte_len(prefix) > MAX_PREFIX_LEN {
        Err(
            "prefix must be 1-8 hex characters, got "@ + decimal(byte_len(prefix))
                + " characters"@,
        )
    } else if !is_hex_text(prefix) {
        Err("prefix must be valid hex (0-9, A-F), got '"@ + prefix + "'"@)
    } else if starts_reserved(ascii_upper(prefix)) {
        Err(
            "prefix '"@ + ascii_upper(prefix)
                + "' starts with 00 or FF, which are skipped by MeshCore"@,
        )
    } else {
        Ok(ascii_upper(prefix))
    }
}

/// Checks a prefix that a user typed and brings it to upper case. Refused are
/// an empty prefix, one of more than eight characters, one that is not hex, and
/// one that only reserved keys start with.
pub fn validate_prefix(prefix: &str) -> (result: Result<String, String>)
    ensures
        match result {
            Ok(upper) => validated(prefix@) == Ok::<Seq<char>, Seq<char>>(upper@),
            Err(message) => validated(prefix@) == Err::<Seq<char>, Seq<char>>(message@),
        },
        result is Ok <==> is_acceptable(prefix@),
        result matches Ok(upper) ==> upper@ == ascii_upper(prefix@) && upper@.len() == prefix@.len(),
{
    proof {
        law_acceptance(prefix@);
    }
    let len: usize = prefix.as_bytes().len();
    let chars = chars_of(prefix);
    if chars.len() == 0 || len > MAX_PREFIX_LEN {
        let mut message = String::from_str("prefix must be 1-8 hex characters, got ");
        message.append(decimal_text(len as u64).as_str());
        message.append(" characters");
        return Err(message);
    }
    let mut upper = String::new();
    let mut i: usize = 0;
    while i < chars.len()
        invariant
            chars@ == prefix@,
            0 <= i <= chars@.len(),
            is_hex_text(prefix@.take(i as int)),
            upper@ == ascii_upper(prefix@).take(i as int),
            0 < prefix@.len(),
            byte_len(prefix@) <= MAX_PREFIX_LEN,
        decreases chars@.len() - i,
    {
        match upper_hex(chars[i]) {
            Some(c) => {
                upper.push(c);
                proof {
                    let k = i as int;
                    assert(prefix@.take(k + 1) =~= prefix@.take(k).push(prefix@[k]));
                    assert(ascii_upper(prefix@).take(k + 1) =~= ascii_upper(prefix@).take(k).push(
                        ascii_upper(prefix@)[k],
                    ));
                }
            },
            None => {
                let mut message = String::from_str("prefix must be valid hex (0-9, A-F), got '");
                message.append(prefix);
                message.append("'");
                assert(!is_hex_digit(prefix@[i as int]));
                return Err(message);
            },
        }
        i = i + 1;
    }
    assert(prefix@.take(i as int) =~= prefix@);
    assert(ascii_upper(prefix@).take(i as int) =~= ascii_upper(prefix@));
    let text = chars_of(upper.as_str());
    if text.len() >= 2 && ((text[0] == '0' && text[1] == '0') || (text[0] == 'F' && text[1]
        == 'F')) {
        let mut message = String::from_str("prefix '");
        message.append(upper.as_str());
        message.append("' starts with 00 or FF, which are skipped by MeshCore");
        return Err(message);
    }
    Ok(upper)
}

/// Checks prefixes in order, up to the first that is refused.
pub fn validate_prefixes(raw: &[String]) -> (result: Result<Vec<String>, String>)
    ensures
        match result {
            Ok(prefixes) => {
                &&& prefixes@.len() == raw@.len()
                &&& forall|i: int|
                    0 <= i < raw@.len() ==> validated((#[trigger] raw@[i])@) == Ok::<
                        Seq<char>,
                        Seq<char>,
                    >(prefixes@[i]@)
            },
            Err(message) => exists|i: int|
                {
                    &&& 0 <= i < raw@.len()
                    &&& validated((#[trigger] raw@[i])@) == Err::<Seq<char>, Seq<char>>(message@)
                    &&& forall|j: int| 0 <= j < i ==> validated((#[trigger] raw@[j])@) is Ok
                },
        },
        result is Ok <==> forall|i: int|
            0 <= i < raw@.len() ==> validated((#[trigger] raw@[i])@) is Ok,
{
    let mut prefixes: Vec<String> = Vec::new();
    let mut i: usize = 0;
    while i < raw.len()
        invariant
            0 <= i <= raw@.len(),
            prefixes@.len() == i,
            forall|j: int|
                0 <= j < i ==> validated((#[trigger] raw@[j])@) == Ok::<Seq<char>, Seq<char>>(
                    prefixes@[j]@,
                ),
        decreases raw@.len() - i,
    {
        match validate_prefix(raw[i].as_str()) {
            Ok(prefix) => prefixes.push(prefix),
            Err(message) => {
                assert(validated(raw@[i as int]@) == Err::<Seq<char>, Seq<char>>(message@));
                return Err(message);
            },
        }
        i = i + 1;
    }
    Ok(prefixes)
}

/// The upper-case form of a hex digit, or `None` for any other character.
fn upper_hex(c: char) -> (upper: Option<char>)
    ensures
        upper is Some <==> is_hex_digit(c),
        upper matches Some(u) ==> u == ascii_upper_char(c),
{
    if 'a' <= c && c <= 'f' {
        Some((c as u8 - 32) as char)
    } else if ('0' <= c && c <= '9') || ('A' <= c && c <= 'F') {
        Some(c)
    } else {
        None
    }
}

/// The position of the first matcher that a key meets, reserved or not.
pub fn first_met(matchers: &Vec<PrefixMatcher>, public_key: &[u8; 32]) -> (found: Option<usize>)
    requires
        forall|i: int| 0 <= i < matchers@.len() ==> (#[trigger] matchers@[i]).wf(),
    ensures
        found matches Some(i) ==> is_first_met(matchers@, public_key@, i as int),
        found is Some <==> meets_any(matchers@, public_key@),
        found is None <==> forall|i: int|
            0 <= i < matchers@.len() ==> !(#[trigger] matchers@[i])@.is_prefix_of(
                hex_upper(public_key@),
            ),
{
    let mut i: usize = 0;
    while i < matchers.len()
        invariant
            0 <= i <= matchers@.len(),
            forall|k: int| 0 <= k < matchers@.len() ==> (#[trigger] matchers@[k]).wf(),
            forall|j: int|
                0 <= j < i ==> !(#[trigger] matchers@[j])@.is_prefix_of(hex_upper(public_key@)),
        decreases matchers@.len() - i,
    {
        if matchers[i].matches(public_key) {
            return Some(i);
        }
        i = i + 1;
    }
    None
}

/// The position of the first matcher that a key meets. Reserved keys count as
/// meeting none.
pub fn find_match(matchers: &Vec<PrefixMatcher>, public_key: &[u8; 32]) -> (found: Option<usize>)
    requires
        forall|i: int| 0 <= i < matchers@.len() ==> (#[trigger] matchers@[i]).wf(),
    ensures
        found matches Some(i) ==> !is_reserved(public_key@) && is_first_met(
            matchers@,
            public_key@,
            i as int,
        ),
        found is Some <==> is_vanity(matchers@, public_key@),
        found is None <==> public_key@[0] == 0x00 || public_key@[0] == 0xFF || forall|i: int|
            0 <= i < matchers@.len() ==> !(#[trigger] matchers@[i])@.is_prefix_of(
                hex_upper(public_key@),
            ),
{
    if should_skip(public_key) {
        None
    } else {
        first_met(matchers, public_key)
    }
}

/// Whether the hex text of a key starts with one of the prefixes.
pub open spec fn meets_any(matchers: Seq<PrefixMatcher>, public_key: Seq<u8>) -> bool {
    exists|i: int|
        0 <= i < matchers.len() && (#[trigger] matchers[i])@.is_prefix_of(hex_upper(public_key))
}

/// Whether the `i`-th prefix is the first that the hex text of a key starts
/// with.
pub open spec fn is_first_met(
    matchers: Seq<PrefixMatcher>,
    public_key: Seq<u8>,
    i: int,
) -> bool {
    &&& 0 <= i < matchers.len()
    &&& matchers[i]@.is_prefix_of(hex_upper(public_key))
    &&& forall|j: int|
        0 <= j < i ==> !(#[trigger] matchers[j])@.is_prefix_of(hex_upper(public_key))
}

/// Whether a key is one that is searched for: not reserved, and its hex text
/// starts with one of the prefixes.
pub open spec fn is_vanity(matchers: Seq<PrefixMatcher>, public_key: Seq<u8>) -> bool {
    &&& !is_reserved(public_key)
    &&& meets_any(matchers, public_key)
}

/// The matchers of some prefixes, in order.
pub fn make_matchers(prefixes: &[String]) -> (matchers: Vec<PrefixMatcher>)
    requires
        forall|i: int| 0 <= i < prefixes@.len() ==> is_hex_text((#[trigger] prefixes@[i])@),
    ensures
        matchers@.len() == prefixes@.len(),
        forall|i: int|
            0 <= i < matchers@.len() ==> (#[trigger] matchers@[i]).wf() && matchers@[i]@
                == ascii_upper(prefixes@[i]@),
{
    let mut matchers: Vec<PrefixMatcher> = Vec::new();
    let mut i: usize = 0;
    while i < prefixes.len()
        invariant
            0 <= i <= prefixes@.len(),
            matchers@.len() == i,
            forall|k: int| 0 <= k < prefixes@.len() ==> is_hex_text((#[trigger] prefixes@[k])@),
            forall|k: int|
                0 <= k < i ==> (#[trigger] matchers@[k]).wf() && matchers@[k]@ == ascii_upper(
                    prefixes@[k]@,
                ),
        decreases prefixes@.len() - i,
    {
        matchers.push(PrefixMatcher::new(prefixes[i].as_str()));
        i = i + 1;
    }
    matchers
}

/// Length of the shortest of some texts, in bytes.
pub open spec fn shortest_len(prefixes: Seq<Seq<char>>) -> nat
    recommends
        prefixes.len() > 0,
    decreases prefixes.len(),
{
    if prefixes.len() <= 1 {
        byte_len(prefixes[0])
    } else {
        let rest = shortest_len(prefixes.drop_last());
        let last = byte_len(prefixes.last());
        if last < rest {
            last
        } else {
            rest
        }
    }
}

/// How many of some texts have the given length in bytes.
pub open spec fn count_of_len(prefixes: Seq<Seq<char>>, len: nat) -> nat
    decreases prefixes.len(),
{
    if prefixes.len() == 0 {
        0
    } else {
        count_of_len(prefixes.drop_last(), len) + if byte_len(prefixes.last()) == len {
            1nat
        } else {
            0nat
        }
    }
}

/// The length of the shortest prefix and how many prefixes have it.
pub fn shortest_prefixes(prefixes: &[String]) -> (result: (usize, usize))
    requires
        prefixes@.len() > 0,
    ensures
        result.0 == shortest_len(texts(prefixes@)),
        result.1 == count_of_len(texts(prefixes@), result.0 as nat),
        1 <= result.1 <= prefixes@.len(),
{
    let ghost all = texts(prefixes@);
    let mut len: usize = prefixes[0].as_str().as_bytes().len();
    let mut count: usize = 1;
    let mut i: usize = 1;
    proof {
        reveal_with_fuel(count_of_len, 2);
        assert(all.take(1).drop_last() =~= Seq::empty());
    }
    while i < prefixes.len()
        invariant
            all == texts(prefixes@),
            1 <= i <= prefixes@.len(),
            len == shortest_len(all.take(i as int)),
            count == count_of_len(all.take(i as int), len as nat),
            1 <= count <= i,
        decreases prefixes@.len() - i,
    {
        let this: usize = prefixes[i].as_str().as_bytes().len();
        let ghost k = i as int;
        proof {
            assert(all.take(k + 1).drop_last() =~= all.take(k));
            assert(all.take(k + 1).last() == prefixes@[k]@);
        }
        if this < len {
            proof {
                lemma_none_shorter(all.take(k), this as nat);
            }
            len = this;
            count = 1;
        } else if this == len {
            count = count + 1;
        }
        i = i + 1;
    }
    assert(all.take(prefixes@.len() as int) =~= all);
    (len, count)
}

/// Nothing is shorter than the shortest.
proof fn lemma_none_shorter(prefixes: Seq<Seq<char>>, len: nat)
    requires
        prefixes.len() > 0,
        len < shortest_len(prefixes),
    ensures
        count_of_len(prefixes, len) == 0,
    decreases prefixes.len(),
{
    if prefixes.len() > 1 {
        lemma_none_shorter(prefixes.drop_last(), len);
    } else {
        reveal_with_fuel(count_of_len, 2);
    }
}

/// The shortest length is that of one of the texts.
pub proof fn lemma_shortest_is_one(prefixes: Seq<Seq<char>>)
    requires
        prefixes.len() > 0,
    ensures
        exists|k: int|
            0 <= k < prefixes.len() && byte_len(#[trigger] prefixes[k]) == shortest_len(prefixes),
    decreases prefixes.len(),
{
    if prefixes.len() == 1 {
        assert(byte_len(prefixes[0]) == shortest_len(prefixes));
    } else {
        let rest = prefixes.drop_last();
        lemma_shortest_is_one(rest);
        let k = choose|k: int|
            0 <= k < rest.len() && byte_len(#[trigger] rest[k]) == shortest_len(rest);
        assert(prefixes[k] == rest[k]);
        assert(prefixes.last() == prefixes[prefixes.len() - 1]);
    }
}

/// Expected number of keys to try until one matches: sixteen to the power of
/// the shortest length, shared by the prefixes of that length.
pub open spec fn expected_attempts_of(prefixes: Seq<Seq<char>>) -> int {
    pow(16, shortest_len(prefixes)) / (count_of_len(prefixes, shortest_len(prefixes)) as int)
}

/// Expected number of keys to try until one matches.
pub fn expected_attempts(prefixes: &[String]) -> (expected: u64)
    requires
        prefixes@.len() > 0,
        shortest_len(texts(prefixes@)) <= 15,
    ensures
        expected == expected_attempts_of(texts(prefixes@)),
{
    let (len, count) = shortest_prefixes(prefixes);
    let mut space: u64 = 1;
    let mut i: usize = 0;
    proof {
        vstd::arithmetic::power::lemma_pow0(16);
    }
    while i < len
        invariant
            0 <= i <= len <= 15,
            space == pow(16, i as nat),
        decreases len - i,
    {
        proof {
            reveal(pow);
            vstd::arithmetic::power::lemma_pow_increases(16, i as nat, 14);
            assert(pow(16, 14) == 72057594037927936) by {
                reveal_with_fuel(pow, 15);
            }
        }
        space = space * 16;
        i = i + 1;
    }
    space / (count as u64)
}

/// Upper case is a fixed point.
proof fn lemma_ascii_upper_idempotent(text: Seq<char>)
    ensures
        ascii_upper(ascii_upper(text)) == ascii_upper(text),
{
    assert(ascii_upper(ascii_upper(text)) =~= ascii_upper(text));
}

/// A hex text has one byte for each character.
proof fn lemma_hex_byte_len(text: Seq<char>)
    requires
        is_hex_text(text),
    ensures
        byte_len(text) == text.len(),
{
    assert(vstd::utf8::is_ascii_chars(text)) by {
        assert forall|i: int| 0 <= i < text.len() implies (0 <= #[trigger] text[i] as nat) && (
        text[i] as nat) < 128 by {
            assert(is_hex_digit(text[i]));
        }
    }
    vstd::utf8::is_ascii_chars_encode_utf8(text);
}

/// An accepted prefix is one to eight upper-case hex digits, and is accepted
/// again as it stands.
pub proof fn law_accepted_prefix(raw: Seq<char>)
    requires
        validated(raw) is Ok,
    ensures
        is_hex_text(validated(raw)->Ok_0),
        1 <= validated(raw)->Ok_0.len() <= MAX_PREFIX_LEN,
        byte_len(validated(raw)->Ok_0) == validated(raw)->Ok_0.len(),
        ascii_upper(validated(raw)->Ok_0) == validated(raw)->Ok_0,
        validated(validated(raw)->Ok_0) == validated(raw),
{
    let upper = validated(raw)->Ok_0;
    lemma_ascii_upper_idempotent(raw);
    assert forall|i: int| 0 <= i < upper.len() implies is_hex_digit(#[trigger] upper[i]) by {
        assert(is_hex_digit(raw[i]));
    }
    lemma_hex_byte_len(raw);
    lemma_hex_byte_len(upper);
}

/// A prefix is refused as reserved only where it could find nothing: every key
/// whose hex text starts with it is itself reserved.
pub proof fn law_reserved_prefix_finds_nothing(prefix: Seq<char>, public_key: Seq<u8>)
    requires
        starts_reserved(prefix),
        public_key.len() == 32,
        prefix.is_prefix_of(hex_upper(public_key)),
    ensures
        is_reserved(public_key),
{
    let b = public_key[0];
    let text = hex_upper(public_key);
    assert(prefix[0] == text[0]);
    assert(prefix[1] == text[1]);
    assert(text[0] == upper_hex_digit(b / 16));
    assert(text[1] == upper_hex_digit(b % 16));
    if prefix[0] == '0' {
        lemma_upper_hex_digit_injective(b / 16, 0);
        lemma_upper_hex_digit_injective(b % 16, 0);
    } else {
        lemma_upper_hex_digit_injective(b / 16, 15);
        lemma_upper_hex_digit_injective(b % 16, 15);
    }
}

/// The key whose hex text is `prefix`, then ones.
pub open spec fn sample_key(prefix: Seq<char>) -> Seq<u8> {
    Seq::new(
        32,
        |i: int|
            (16 * sample_digit(prefix, 2 * i) + sample_digit(prefix, 2 * i + 1)) as u8,
    )
}

/// The digit of a prefix at a place, or one behind its end.
pub open spec fn sample_digit(prefix: Seq<char>, at: int) -> u8 {
    if at < prefix.len() {
        hex_digit_value(prefix[at])
    } else {
        1
    }
}

/// Every accepted prefix can be found: there is a key that is not reserved
/// and whose hex text starts with it.
pub proof fn law_accepted_prefix_is_reachable(raw: Seq<char>)
    requires
        validated(raw) is Ok,
    ensures
        sample_key(validated(raw)->Ok_0).len() == 32,
        !is_reserved(sample_key(validated(raw)->Ok_0)),
        validated(raw)->Ok_0.is_prefix_of(hex_upper(sample_key(validated(raw)->Ok_0))),
{
    law_accepted_prefix(raw);
    let prefix = validated(raw)->Ok_0;
    let key = sample_key(prefix);
    let text = hex_upper(key);
    assert forall|i: int| 0 <= i < prefix.len() implies prefix[i] == #[trigger] text[i] by {
        let even = i - i % 2;
        assert(2 * (i / 2) == even);
        lemma_sample_digit(prefix, even);
        lemma_sample_digit(prefix, even + 1);
        lemma_hex_digit_upper(prefix[i]);
        assert(prefix[i] == ascii_upper(prefix)[i]);
    }
    assert(prefix =~= text.subrange(0, prefix.len() as int));
    lemma_sample_digit(prefix, 0);
    lemma_sample_digit(prefix, 1);
    lemma_hex_digit_upper(prefix[0]);
    assert(prefix[0] == ascii_upper(prefix)[0]);
    if prefix.len() >= 2 {
        lemma_hex_digit_upper(prefix[1]);
        assert(prefix[1] == ascii_upper(prefix)[1]);
    }
}

proof fn lemma_sample_digit(prefix: Seq<char>, at: int)
    requires
        is_hex_text(prefix),
        0 <= at,
    ensures
        sample_digit(prefix, at) < 16,
{
    if at < prefix.len() {
        lemma_hex_digit_upper(prefix[at]);
    }
}

/// One more digit on a single prefix takes sixteen times as many attempts.
pub proof fn law_digit_costs_sixteen(prefix: Seq<char>, longer: Seq<char>)
    requires
        byte_len(longer) == byte_len(prefix) + 1,
    ensures
        expected_attempts_of(seq![longer]) == 16 * expected_attempts_of(seq![prefix]),
{
    lemma_single_prefix(prefix);
    lemma_single_prefix(longer);
    reveal(pow);
}

proof fn lemma_single_prefix(prefix: Seq<char>)
    ensures
        expected_attempts_of(seq![prefix]) == pow(16, byte_len(prefix)),
{
    let all = seq![prefix];
    lemma_equal_lengths(all, byte_len(prefix));
    assert(pow(16, byte_len(prefix)) / 1 == pow(16, byte_len(prefix)));
}

/// Prefixes of one length share the cost of one of them.
pub proof fn law_equal_prefixes_share_cost(prefixes: Seq<Seq<char>>, len: nat)
    requires
        prefixes.len() > 0,
        forall|i: int| 0 <= i < prefixes.len() ==> byte_len(#[trigger] prefixes[i]) == len,
    ensures
        expected_attempts_of(prefixes) == pow(16, len) / (prefixes.len() as int),
{
    lemma_equal_lengths(prefixes, len);
}

proof fn lemma_equal_lengths(prefixes: Seq<Seq<char>>, len: nat)
    requires
        prefixes.len() > 0,
        forall|i: int| 0 <= i < prefixes.len() ==> byte_len(#[trigger] prefixes[i]) == len,
    ensures
        shortest_len(prefixes) == len,
        count_of_len(prefixes, len) == prefixes.len(),
    decreases prefixes.len(),
{
    if prefixes.len() == 1 {
        reveal_with_fuel(count_of_len, 2);
    } else {
        lemma_equal_lengths(prefixes.drop_last(), len);
    }
}

/// Every text has at least as many bytes as characters.
proof fn lemma_bytes_at_least_chars(text: Seq<char>)
    ensures
        encode_utf8(text).len() >= text.len(),
    decreases text.len(),
{
    if text.len() > 0 {
        lemma_bytes_at_least_chars(text.drop_first());
    }
}

/// Whether a typed prefix is to be accepted: one to eight hex digits, not
/// starting with `00` or, in either case, `FF`.
pub open spec fn is_acceptable(raw: Seq<char>) -> bool {
    &&& 1 <= raw.len() <= 8
    &&& forall|i: int|
        0 <= i < raw.len() ==> {
            let c = #[trigger] raw[i] as int;
            48 <= c <= 57 || 65 <= c <= 70 || 97 <= c <= 102
        }
    &&& raw.len() >= 2 ==> !(raw[0] == '0' && raw[1] == '0')
    &&& raw.len() >= 2 ==> !((raw[0] == 'F' || raw[0] == 'f') && (raw[1] == 'F' || raw[1] == 'f'))
}

/// Accepted are the texts of one to eight hex digits that do not start with
/// `00` or `FF`, and each is accepted as itself, digit for digit, in upper
/// case.
pub proof fn law_acceptance(raw: Seq<char>)
    ensures
        validated(raw) is Ok <==> {
            &&& 1 <= raw.len() <= 8
            &&& forall|i: int|
                0 <= i < raw.len() ==> {
                    let c = #[trigger] raw[i] as int;
                    48 <= c <= 57 || 65 <= c <= 70 || 97 <= c <= 102
                }
            &&& raw.len() >= 2 ==> !(raw[0] == '0' && raw[1] == '0')
            &&& raw.len() >= 2 ==> !((raw[0] == 'F' || raw[0] == 'f') && (raw[1] == 'F' || raw[1]
                == 'f'))
        },
        validated(raw) is Ok <==> is_acceptable(raw),
        validated(raw) matches Ok(upper) ==> {
            &&& upper.len() == raw.len()
            &&& forall|i: int|
                0 <= i < raw.len() ==> {
                    let c = raw[i] as int;
                    (#[trigger] upper[i]) as int == if 97 <= c <= 122 {
                        c - 32
                    } else {
                        c
                    }
                }
        },
{
    law_hex_text(raw);
    law_upper_case(raw);
    lemma_bytes_at_least_chars(raw);
    if is_hex_text(raw) {
        lemma_hex_byte_len(raw);
        if raw.len() >= 2 {
            assert(ascii_upper(raw)[0] as int == if 97 <= raw[0] as int <= 122 {
                raw[0] as int - 32
            } else {
                raw[0] as int
            });
            assert(ascii_upper(raw)[1] as int == if 97 <= raw[1] as int <= 122 {
                raw[1] as int - 32
            } else {
                raw[1] as int
            });
        }
    }
}

/// A refused prefix is refused for the first of three reasons that holds: its
/// length in bytes, a character that is no hex digit, or a start that only
/// reserved keys have.
pub proof fn law_refusals(raw: Seq<char>)
    requires
        validated(raw) is Err,
    ensures
        ({
            let bytes = encode_utf8(raw).len();
            let message = validated(raw)->Err_0;
            let hex = forall|i: int|
                0 <= i < raw.len() ==> {
                    let c = #[trigger] raw[i] as int;
                    48 <= c <= 57 || 65 <= c <= 70 || 97 <= c <= 102
                };
            if bytes == 0 || bytes > 8 {
                message == "prefix must be 1-8 hex characters, got "@ + decimal(bytes)
                    + " characters"@
            } else if !hex {
                message == "prefix must be valid hex (0-9, A-F), got '"@ + raw + "'"@
            } else {
                message == "prefix '"@ + ascii_upper(raw)
                    + "' starts with 00 or FF, which are skipped by MeshCore"@
            }
        }),
{
    law_hex_text(raw);
    lemma_bytes_at_least_chars(raw);
}

/// A key is reserved exactly where its first byte is `00` or `FF`, which is
/// where its hex text starts with these digits.
pub proof fn law_reserved_keys(public_key: Seq<u8>)
    requires
        public_key.len() == 32,
    ensures
        is_reserved(public_key) <==> public_key[0] == 0x00 || public_key[0] == 0xFF,
        is_reserved(public_key) <==> {
            let text = hex_upper(public_key);
            (text[0] == '0' && text[1] == '0') || (text[0] == 'F' && text[1] == 'F')
        },
{
    let b = public_key[0];
    let text = hex_upper(public_key);
    assert(text[0] == upper_hex_digit(b / 16));
    assert(text[1] == upper_hex_digit(b % 16));
}

/// A key is searched for exactly where its first byte is neither `00` nor `FF`
/// and its hex text starts with one of the prefixes: no other key is passed
/// over.
pub proof fn law_every_matching_key_counts(matchers: Seq<PrefixMatcher>, public_key: Seq<u8>)
    ensures
        is_vanity(matchers, public_key) <==> {
            &&& public_key[0] != 0x00
            &&& public_key[0] != 0xFF
            &&& exists|i: int|
                0 <= i < matchers.len() && (#[trigger] matchers[i])@.is_prefix_of(
                    hex_upper(public_key),
                )
        },
        meets_any(matchers, public_key) <==> exists|i: int|
            0 <= i < matchers.len() && (#[trigger] matchers[i])@.is_prefix_of(
                hex_upper(public_key),
            ),
{
}

/// The first prefix that a key meets is one that it starts with, and it starts
/// with none before that.
pub proof fn law_first_met(matchers: Seq<PrefixMatcher>, public_key: Seq<u8>, i: int)
    ensures
        is_first_met(matchers, public_key, i) <==> {
            &&& 0 <= i < matchers.len()
            &&& matchers[i]@.is_prefix_of(hex_upper(public_key))
            &&& forall|j: int|
                0 <= j < i ==> !(#[trigger] matchers[j])@.is_prefix_of(hex_upper(public_key))
        },
{
}

/// The matcher of a hex prefix meets a key exactly where each digit of the
/// prefix has the value of the half byte at its place in the key.
pub proof fn law_match_is_digit_by_digit(
    matcher: PrefixMatcher,
    prefix: Seq<char>,
    public_key: Seq<u8>,
)
    requires
        is_hex_text(prefix),
        matcher@ == ascii_upper(prefix),
        public_key.len() == 32,
    ensures
        matcher@.is_prefix_of(hex_upper(public_key)) <==> {
            &&& prefix.len() <= 64
            &&& forall|i: int|
                0 <= i < prefix.len() ==> hex_digit_value(#[trigger] prefix[i]) == if i % 2 == 0 {
                    public_key[i / 2] / 16
                } else {
                    public_key[i / 2] % 16
                }
        },
{
    let text = hex_upper(public_key);
    let upper = ascii_upper(prefix);
    if upper.is_prefix_of(text) {
        assert forall|i: int| 0 <= i < prefix.len() implies hex_digit_value(#[trigger] prefix[i])
            == if i % 2 == 0 {
            public_key[i / 2] / 16
        } else {
            public_key[i / 2] % 16
        } by {
            assert(is_hex_digit(prefix[i]));
            lemma_hex_digit_upper(prefix[i]);
            assert(upper[i] == text[i]);
            lemma_upper_hex_digit_injective(hex_digit_value(prefix[i]), nibble_at(public_key, i));
        }
    }
    if prefix.len() <= 64 && (forall|i: int|
        0 <= i < prefix.len() ==> hex_digit_value(#[trigger] prefix[i]) == if i % 2 == 0 {
            public_key[i / 2] / 16
        } else {
            public_key[i / 2] % 16
        }) {
        assert forall|i: int| 0 <= i < prefix.len() implies upper[i] == text[i] by {
            assert(is_hex_digit(prefix[i]));
            lemma_hex_digit_upper(prefix[i]);
            assert(hex_digit_value(prefix[i]) == nibble_at(public_key, i));
        }
        assert(upper =~= text.subrange(0, upper.len() as int));
    }
}

/// The shortest length is that of one of the texts, in bytes, and no text is
/// shorter.
pub proof fn law_shortest(prefixes: Seq<Seq<char>>)
    requires
        prefixes.len() > 0,
    ensures
        exists|k: int|
            0 <= k < prefixes.len() && encode_utf8(#[trigger] prefixes[k]).len() == shortest_len(
                prefixes,
            ),
        forall|k: int|
            0 <= k < prefixes.len() ==> encode_utf8(#[trigger] prefixes[k]).len() >= shortest_len(
                prefixes,
            ),
    decreases prefixes.len(),
{
    lemma_shortest_is_one(prefixes);
    let k = choose|k: int|
        0 <= k < prefixes.len() && byte_len(#[trigger] prefixes[k]) == shortest_len(prefixes);
    assert(encode_utf8(prefixes[k]).len() == shortest_len(prefixes));
    if prefixes.len() > 1 {
        let rest = prefixes.drop_last();
        law_shortest(rest);
        assert forall|k: int| 0 <= k < prefixes.len() implies encode_utf8(
            #[trigger] prefixes[k],
        ).len() >= shortest_len(prefixes) by {
            if k < rest.len() {
                assert(rest[k] == prefixes[k]);
            }
        }
    }
}

/// The count of a length is the number of texts that have it in bytes.
pub proof fn law_count_of_len(prefixes: Seq<Seq<char>>, len: nat)
    ensures
        count_of_len(prefixes, len) == prefixes.filter(
            |p: Seq<char>| encode_utf8(p).len() == len,
        ).len(),
    decreases prefixes.len(),
{
    reveal(Seq::filter);
    if prefixes.len() > 0 {
        law_count_of_len(prefixes.drop_last(), len);
    }
}

/// The expected attempts are sixteen to the power of the least length in bytes,
/// divided by how many prefixes have that length.
pub proof fn law_expected_attempts(prefixes: Seq<Seq<char>>, least: nat)
    requires
        forall|k: int|
            0 <= k < prefixes.len() ==> encode_utf8(#[trigger] prefixes[k]).len() >= least,
        exists|k: int|
            0 <= k < prefixes.len() && encode_utf8(#[trigger] prefixes[k]).len() == least,
    ensures
        expected_attempts_of(prefixes) == pow(16, least) / (prefixes.filter(
            |p: Seq<char>| encode_utf8(p).len() == least,
        ).len() as int),
{
    law_shortest(prefixes);
    law_count_of_len(prefixes, least);
}

} // verus!
