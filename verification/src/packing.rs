//! The buffers that a device reads and writes: packed prefixes on the way in,
//! little-endian words on the way out.

use crate::hex_text::{
    ascii_upper, hex_digit_value, hex_upper, is_hex_text, lemma_hex_digit_upper,
    lemma_upper_hex_digit_injective, upper_hex_digit,
};
use crate::prefix::PrefixMatcher;
use crate::scalar::le_value;
use crate::text::{chars_of, texts};
use vstd::prelude::*;

verus! {

/// The four bytes of a word, least significant first.
pub open spec fn word_bytes(n: u32) -> Seq<u8> {
    seq![
        (n % 256) as u8,
        (n / 256 % 256) as u8,
        (n / 65536 % 256) as u8,
        (n / 16777216) as u8,
    ]
}

/// `len` zero bytes.
pub open spec fn zeros(len: nat) -> Seq<u8> {
    Seq::new(len, |i: int| 0u8)
}

/// How many bytes bring `len` bytes to a multiple of four.
pub open spec fn padding(len: nat) -> nat {
    ((4 - len % 4) % 4) as nat
}

/// Two hex digits to a byte, the first in the high half; an odd last digit has
/// a zero low half.
pub open spec fn packed_digits(prefix: Seq<char>) -> Seq<u8> {
    Seq::new(
        (prefix.len() + 1) / 2,
        |i: int|
            (16 * hex_digit_value(prefix[2 * i]) + if 2 * i + 1 < prefix.len() {
                hex_digit_value(prefix[2 * i + 1])
            } else {
                0
            }) as u8,
    )
}

/// One prefix in the buffer: the number of its digits as a word, the packed
/// digits, and zeros up to the next multiple of four.
pub open spec fn packed_prefix(prefix: Seq<char>) -> Seq<u8> {
    word_bytes(prefix.len() as u32) + packed_digits(prefix) + zeros(
        padding(packed_digits(prefix).len()),
    )
}

/// The prefixes of the buffer, one after the other.
pub open spec fn packed_all(prefixes: Seq<Seq<char>>) -> Seq<u8>
    decreases prefixes.len(),
{
    if prefixes.len() == 0 {
        Seq::empty()
    } else {
        packed_all(prefixes.drop_last()) + packed_prefix(prefixes.last())
    }
}

/// The whole buffer: the number of prefixes as a word, then each prefix.
pub open spec fn packed(prefixes: Seq<Seq<char>>) -> Seq<u8> {
    word_bytes(prefixes.len() as u32) + packed_all(prefixes)
}

/// Packs hex prefixes into the buffer that the kernels read.
pub fn pack_prefixes(prefixes: &[String]) -> (data: Vec<u8>)
    requires
        prefixes@.len() <= u32::MAX,
        forall|i: int|
            0 <= i < prefixes@.len() ==> is_hex_text((#[trigger] prefixes@[i])@)
                && prefixes@[i]@.len() <= u32::MAX,
    ensures
        data@ == packed(texts(prefixes@)),
{
    let ghost all = texts(prefixes@);
    let mut data: Vec<u8> = Vec::new();
    push_word(&mut data, prefixes.len() as u32);
    let mut i: usize = 0;
    assert(data@ =~= word_bytes(prefixes@.len() as u32) + packed_all(all.take(0)));
    while i < prefixes.len()
        invariant
            all == texts(prefixes@),
            prefixes@.len() <= u32::MAX,
            forall|k: int|
                0 <= k < prefixes@.len() ==> is_hex_text((#[trigger] prefixes@[k])@)
                    && prefixes@[k]@.len() <= u32::MAX,
            0 <= i <= prefixes@.len(),
            data@.len() % 4 == 0,
            data@ == word_bytes(prefixes@.len() as u32) + packed_all(all.take(i as int)),
        decreases prefixes@.len() - i,
    {
        push_prefix(&mut data, prefixes[i].as_str());
        proof {
            let k = i as int;
            assert(all.take(k + 1).drop_last() =~= all.take(k));
            assert(all.take(k + 1).last() == prefixes@[k]@);
            assert(data@ =~= word_bytes(prefixes@.len() as u32) + packed_all(all.take(k + 1)));
        }
        i = i + 1;
    }
    assert(all.take(prefixes@.len() as int) =~= all);
    data
}

/// Appends a word, least significant byte first.
fn push_word(data: &mut Vec<u8>, n: u32)
    ensures
        final(data)@ == old(data)@ + word_bytes(n),
{
    data.push((n % 256) as u8);
    data.push((n / 256 % 256) as u8);
    data.push((n / 65536 % 256) as u8);
    data.push((n / 16777216) as u8);
    assert(data@ =~= old(data)@ + word_bytes(n));
}

/// Appends one prefix to an aligned buffer, which stays aligned.
fn push_prefix(data: &mut Vec<u8>, prefix: &str)
    requires
        old(data)@.len() % 4 == 0,
        is_hex_text(prefix@),
        prefix@.len() <= u32::MAX,
    ensures
        final(data)@ == old(data)@ + packed_prefix(prefix@),
        final(data)@.len() % 4 == 0,
{
    let chars = chars_of(prefix);
    let mut bytes = prefix_bytes(prefix);
    push_word(data, chars.len() as u32);
    data.append(&mut bytes);
    let ghost filled = data@;
    let ghost pad = padding(packed_digits(prefix@).len());
    assert(filled == old(data)@ + word_bytes(prefix@.len() as u32) + packed_digits(prefix@));
    assert(filled.len() % 4 == packed_digits(prefix@).len() % 4);
    let ghost mut added: nat = 0;
    while data.len() % 4 != 0
        invariant
            pad == padding(filled.len()),
            added <= pad,
            data@ == filled + zeros(added),
        decreases pad - added,
    {
        data.push(0);
        proof {
            assert(filled + zeros(added + 1) =~= (filled + zeros(added)).push(0));
            added = added + 1;
        }
    }
    assert(added == pad);
    assert(old(data)@ + packed_prefix(prefix@) =~= filled + zeros(pad));
}

/// The packed digits of a hex prefix.
fn prefix_bytes(prefix: &str) -> (bytes: Vec<u8>)
    requires
        is_hex_text(prefix@),
    ensures
        bytes@ == packed_digits(prefix@),
{
    let matcher = PrefixMatcher::new(prefix);
    let ghost text = matcher@;
    proof {
        let full = matcher.full_bytes@;
        assert forall|i: int| 0 <= i < full.len() implies full[i] == #[trigger] packed_digits(
            prefix@,
        )[i] by {
            let high = prefix@[2 * i];
            let low = prefix@[2 * i + 1];
            assert(is_hex_text(prefix@));
            lemma_hex_digit_upper(high);
            lemma_hex_digit_upper(low);
            assert(text[2 * i] == upper_hex_digit(full[i] / 16));
            assert(text[2 * i + 1] == upper_hex_digit(full[i] % 16));
            assert(text[2 * i] == ascii_upper(prefix@)[2 * i]);
            assert(text[2 * i + 1] == ascii_upper(prefix@)[2 * i + 1]);
            lemma_upper_hex_digit_injective(full[i] / 16, hex_digit_value(high));
            lemma_upper_hex_digit_injective(full[i] % 16, hex_digit_value(low));
        }
    }
    let mut bytes = matcher.full_bytes;
    if let Some(n) = matcher.trailing_nibble {
        proof {
            let last = prefix@[prefix@.len() - 1];
            lemma_hex_digit_upper(last);
            assert(text[prefix@.len() - 1] == ascii_upper(prefix@)[prefix@.len() - 1]);
            lemma_upper_hex_digit_injective(n, hex_digit_value(last));
        }
        bytes.push(n * 16);
    }
    assert(bytes@ =~= packed_digits(prefix@));
    bytes
}

/// The word that stands at `at`.
pub open spec fn word_at(data: Seq<u8>, at: int) -> nat {
    le_value(data.subrange(at, at + 4))
}

/// Reads the word that stands at `at`.
pub fn read_word(data: &[u8], at: usize) -> (n: u32)
    requires
        at + 4 <= data@.len(),
    ensures
        n == word_at(data@, at as int),
        n == data@[at as int] + 256 * data@[at + 1] + 65536 * data@[at + 2] + 16777216 * data@[at
            + 3],
{
    let len: usize = data.len();
    proof {
        let w = data@.subrange(at as int, at + 4);
        reveal_with_fuel(le_value, 5);
        assert(w.drop_first().drop_first().drop_first()[0] == w[3]);
        assert(w.drop_first().drop_first()[0] == w[2]);
        assert(w.drop_first()[0] == w[1]);
    }
    data[at] as u32 + 256 * data[at + 1] as u32 + 65536 * data[at + 2] as u32 + 16777216 * data[at
        + 3] as u32
}

/// The prefixes that a reader finds in the buffer: `count` times a number of
/// digits, the digits and padding.
pub open spec fn unpacked_all(data: Seq<u8>, count: nat) -> Seq<Seq<char>>
    decreases count,
{
    if count == 0 {
        Seq::empty()
    } else {
        let digits = word_at(data, 0);
        let bytes = (digits + 1) / 2;
        let text = hex_upper(data.subrange(4, (4 + bytes) as int)).take(digits as int);
        let rest = data.skip((4 + bytes + padding(bytes)) as int);
        seq![text] + unpacked_all(rest, (count - 1) as nat)
    }
}

/// The prefixes that a reader finds in a whole buffer.
pub open spec fn unpacked(data: Seq<u8>) -> Seq<Seq<char>> {
    unpacked_all(data.skip(4), word_at(data, 0))
}

/// A word reads back from its bytes.
proof fn lemma_word_reads_back(n: u32, rest: Seq<u8>)
    ensures
        word_at(word_bytes(n) + rest, 0) == n,
{
    let w = word_bytes(n);
    assert((w + rest).subrange(0, 4) =~= w);
    reveal_with_fuel(le_value, 5);
    assert(w.drop_first().drop_first().drop_first()[0] == w[3]);
    assert(w.drop_first().drop_first()[0] == w[2]);
    assert(w.drop_first()[0] == w[1]);
}

/// The digits of a prefix read back from its packed form.
proof fn lemma_digits_read_back(prefix: Seq<char>)
    requires
        is_hex_text(prefix),
    ensures
        hex_upper(packed_digits(prefix)).take(prefix.len() as int) == ascii_upper(prefix),
{
    let bytes = packed_digits(prefix);
    let text = hex_upper(bytes).take(prefix.len() as int);
    assert forall|i: int| 0 <= i < prefix.len() implies text[i] == #[trigger] ascii_upper(
        prefix,
    )[i] by {
        lemma_hex_digit_upper(prefix[i]);
        if i % 2 == 0 {
            assert(2 * (i / 2) == i);
            if i + 1 < prefix.len() {
                lemma_hex_digit_upper(prefix[i + 1]);
            }
        } else {
            assert(2 * (i / 2) + 1 == i);
            lemma_hex_digit_upper(prefix[i - 1]);
        }
    }
    assert(text =~= ascii_upper(prefix));
}

/// The packed prefixes, split after the first.
proof fn lemma_packed_all_first(prefixes: Seq<Seq<char>>)
    requires
        prefixes.len() > 0,
    ensures
        packed_all(prefixes) == packed_prefix(prefixes[0]) + packed_all(prefixes.drop_first()),
    decreases prefixes.len(),
{
    if prefixes.len() == 1 {
        reveal_with_fuel(packed_all, 2);
        assert(packed_all(prefixes) =~= packed_prefix(prefixes[0]) + packed_all(
            prefixes.drop_first(),
        ));
    } else {
        lemma_packed_all_first(prefixes.drop_last());
        assert(prefixes.drop_last().drop_first() =~= prefixes.drop_first().drop_last());
        assert(packed_all(prefixes) =~= packed_prefix(prefixes[0]) + packed_all(
            prefixes.drop_first(),
        ));
    }
}

proof fn lemma_unpack_all(prefixes: Seq<Seq<char>>)
    requires
        forall|i: int|
            0 <= i < prefixes.len() ==> is_hex_text(#[trigger] prefixes[i]) && prefixes[i].len()
                <= u32::MAX,
    ensures
        unpacked_all(packed_all(prefixes), prefixes.len()) == prefixes.map_values(
            |p: Seq<char>| ascii_upper(p),
        ),
    decreases prefixes.len(),
{
    let upper = |p: Seq<char>| ascii_upper(p);
    if prefixes.len() == 0 {
        assert(prefixes.map_values(upper) =~= Seq::empty());
    } else {
        let first = prefixes[0];
        let others = prefixes.drop_first();
        let rest = packed_all(others);
        let data = packed_all(prefixes);
        let digits = packed_digits(first);
        lemma_packed_all_first(prefixes);
        lemma_unpack_all(others);
        lemma_digits_read_back(first);
        let word = word_bytes(first.len() as u32);
        let tail = digits + zeros(padding(digits.len())) + rest;
        assert(data =~= word + tail);
        lemma_word_reads_back(first.len() as u32, tail);
        assert(data.subrange(4, (4 + digits.len()) as int) =~= digits);
        assert(data.skip((4 + digits.len() + padding(digits.len())) as int) =~= rest);
        assert(prefixes.map_values(upper) =~= seq![ascii_upper(first)] + others.map_values(upper));
    }
}

/// A reader of the packed buffer finds the prefixes that went into it, in
/// order and in upper case.
pub proof fn law_pack_reads_back(prefixes: Seq<Seq<char>>)
    requires
        prefixes.len() <= u32::MAX,
        forall|i: int|
            0 <= i < prefixes.len() ==> is_hex_text(#[trigger] prefixes[i]) && prefixes[i].len()
                <= u32::MAX,
    ensures
        unpacked(packed(prefixes)) == prefixes.map_values(|p: Seq<char>| ascii_upper(p)),
{
    lemma_unpack_all(prefixes);
    lemma_word_reads_back(prefixes.len() as u32, packed_all(prefixes));
    assert(packed(prefixes).skip(4) =~= packed_all(prefixes));
}

/// One packed prefix is made of whole words.
proof fn lemma_packed_prefix_aligned(prefix: Seq<char>)
    ensures
        packed_prefix(prefix).len() % 4 == 0,
{
    let digits = packed_digits(prefix).len();
    assert(packed_prefix(prefix).len() == 4 + digits + padding(digits));
    assert((digits + padding(digits)) % 4 == 0);
}

/// The packed prefixes are made of whole words.
proof fn lemma_packed_all_aligned(prefixes: Seq<Seq<char>>)
    ensures
        packed_all(prefixes).len() % 4 == 0,
    decreases prefixes.len(),
{
    if prefixes.len() > 0 {
        lemma_packed_all_aligned(prefixes.drop_last());
        lemma_packed_prefix_aligned(prefixes.last());
        assert(packed_all(prefixes).len() == packed_all(prefixes.drop_last()).len()
            + packed_prefix(prefixes.last()).len());
    }
}

/// The packed buffer is made of whole words.
pub proof fn law_packed_is_aligned(prefixes: Seq<Seq<char>>)
    ensures
        packed(prefixes).len() % 4 == 0,
{
    lemma_packed_all_aligned(prefixes);
}

/// A word is read from four bytes, the least significant first.
pub proof fn law_word_at(data: Seq<u8>, at: int)
    requires
        0 <= at <= data.len() - 4,
    ensures
        word_at(data, at) == data[at] + 256 * data[at + 1] + 65536 * data[at + 2] + 16777216
            * data[at + 3],
{
    let w = data.subrange(at, at + 4);
    reveal_with_fuel(le_value, 5);
    assert(w.drop_first().drop_first().drop_first()[0] == w[3]);
    assert(w.drop_first().drop_first()[0] == w[2]);
    assert(w.drop_first()[0] == w[1]);
}

/// One packed prefix: the number of digits in the first word, then the digits
/// two to a byte, the first in the high half, then zeros to the end of a word.
pub proof fn law_packed_prefix_bytes(prefix: Seq<char>)
    requires
        prefix.len() <= u32::MAX,
    ensures
        ({
            let packed = packed_prefix(prefix);
            let bytes = (prefix.len() + 1) / 2;
            &&& word_at(packed, 0) == prefix.len()
            &&& packed.len() % 4 == 0
            &&& 4 + bytes <= packed.len() < 8 + bytes
            &&& forall|k: int|
                #![trigger packed[4 + k]]
                0 <= k < bytes && 2 * k + 1 < prefix.len() && is_hex_text(prefix) ==> packed[4 + k]
                    == 16 * hex_digit_value(prefix[2 * k]) + hex_digit_value(prefix[2 * k + 1])
            &&& forall|k: int|
                #![trigger packed[4 + k]]
                0 <= k < bytes && 2 * k + 1 == prefix.len() && is_hex_text(prefix) ==> packed[4
                    + k] == 16 * hex_digit_value(prefix[2 * k])
            &&& forall|k: int| 4 + bytes <= k < packed.len() ==> packed[k] == 0
        }),
{
    let packed = packed_prefix(prefix);
    let digits = packed_digits(prefix);
    let tail = digits + zeros(padding(digits.len()));
    let bytes = (prefix.len() + 1) / 2;
    assert(packed =~= word_bytes(prefix.len() as u32) + tail);
    lemma_word_reads_back(prefix.len() as u32, tail);
    lemma_packed_prefix_aligned(prefix);
    assert forall|k: int| 0 <= k < bytes && is_hex_text(prefix) implies #[trigger] packed[4 + k]
        == 16 * hex_digit_value(prefix[2 * k]) + if 2 * k + 1 < prefix.len() {
        hex_digit_value(prefix[2 * k + 1]) as int
    } else {
        0
    } by {
        assert(packed[4 + k] == digits[k]);
        lemma_hex_digit_upper(prefix[2 * k]);
        if 2 * k + 1 < prefix.len() {
            lemma_hex_digit_upper(prefix[2 * k + 1]);
        }
    }
}

/// The buffer starts with the number of prefixes, and one more prefix is packed
/// behind the others.
pub proof fn law_packed_in_order(prefixes: Seq<Seq<char>>, last: Seq<char>)
    requires
        prefixes.len() < u32::MAX,
    ensures
        packed(Seq::empty()) == seq![0u8, 0u8, 0u8, 0u8],
        word_at(packed(prefixes), 0) == prefixes.len(),
        packed(prefixes.push(last)).skip(4) == packed(prefixes).skip(4) + packed_prefix(last),
{
    let more = prefixes.push(last);
    assert(packed(Seq::empty()) =~= seq![0u8, 0u8, 0u8, 0u8]);
    lemma_word_reads_back(prefixes.len() as u32, packed_all(prefixes));
    assert(more.drop_last() =~= prefixes);
    assert(packed(more).skip(4) =~= packed_all(more));
    assert(packed(prefixes).skip(4) =~= packed_all(prefixes));
}

} // verus!
