//! The 256-bit scalars behind a key: little-endian bytes, clamping, and the
//! step from one scalar to the next.

use vstd::arithmetic::power2::{lemma_pow2_adds, pow2};
use vstd::prelude::*;

verus! {

/// The integer that `bytes` encode, least significant byte first.
pub open spec fn le_value(bytes: Seq<u8>) -> nat
    decreases bytes.len(),
{
    if bytes.len() == 0 {
        0
    } else {
        bytes[0] as nat + 256 * le_value(bytes.drop_first())
    }
}

/// The `len` bytes that encode an integer below `256^len`, least significant
/// byte first.
pub open spec fn le_bytes(value: nat, len: nat) -> Seq<u8>
    decreases len,
{
    if len == 0 {
        Seq::empty()
    } else {
        seq![(value % 256) as u8] + le_bytes(value / 256, (len - 1) as nat)
    }
}

/// Clears the low three bits and the top two bits of a 32-byte scalar, then
/// sets bit 254.
pub open spec fn clamped(bytes: Seq<u8>) -> Seq<u8> {
    bytes.update(0, bytes[0] & 248).update(31, (bytes[31] & 63) | 64)
}

/// Whether a scalar already has the clamped form: 32 bytes, divisible by
/// eight, bit 255 clear and bit 254 set.
pub open spec fn is_clamped(bytes: Seq<u8>) -> bool {
    &&& bytes.len() == 32
    &&& bytes[0] & 7 == 0
    &&& bytes[31] & 128 == 0
    &&& bytes[31] & 64 == 64
}

/// The value of a 32-byte scalar with value `value` after `amount` was added
/// to it: the carry out of the last byte is dropped.
pub open spec fn advanced(value: nat, amount: nat) -> nat {
    (value + amount) % pow2(256)
}

/// Clamps a scalar in place.
pub fn clamp_scalar(scalar: &mut [u8; 32])
    ensures
        final(scalar)@ == clamped(old(scalar)@),
        is_clamped(final(scalar)@),
        forall|i: int| 1 <= i < 31 ==> final(scalar)@[i] == old(scalar)@[i],
        final(scalar)@[0] == old(scalar)@[0] - old(scalar)@[0] % 8,
        final(scalar)@[31] == 64 + old(scalar)@[31] % 64,
{
    scalar[0] = scalar[0] & 248;
    scalar[31] = (scalar[31] & 63) | 64;
    proof {
        law_clamped_is_clamped(old(scalar)@);
        law_clamping_keeps_the_other_bits(old(scalar)@);
    }
}

/// Adds `amount` to a scalar, as 256-bit little-endian integers.
pub fn advance_scalar(scalar: &mut [u8; 32], amount: u64)
    ensures
        le_value(final(scalar)@) == advanced(le_value(old(scalar)@), amount as nat),
        le_value(final(scalar)@) == (le_value(old(scalar)@) + amount) % (pow2(256) as int),
{
    let ghost start = scalar@;
    let mut carry: u128 = amount as u128;
    let mut i: usize = 0;
    proof {
        assert(scalar@.take(0) =~= Seq::<u8>::empty());
        vstd::arithmetic::power2::lemma2_to64();
        assert(carry * pow2(0) == carry) by (nonlinear_arith)
            requires
                pow2(0) == 1,
        ;
    }
    while i < 32
        invariant
            0 <= i <= 32,
            start.len() == 32,
            carry <= u64::MAX,
            scalar@.skip(i as int) == start.skip(i as int),
            le_value(scalar@.take(i as int)) + carry * pow2(8 * i as nat) == le_value(
                start.take(i as int),
            ) + amount,
        decreases 32 - i,
    {
        let ghost before = scalar@;
        assert(before.skip(i as int)[0] == start.skip(i as int)[0]);
        let sum: u128 = scalar[i] as u128 + carry;
        let byte: u8 = (sum % 256) as u8;
        let rest: u128 = sum / 256;
        scalar[i] = byte;
        proof {
            let k = i as int;
            let weight = pow2(8 * k as nat) as int;
            lemma_le_value_take(scalar@, k);
            lemma_le_value_take(start, k);
            assert(scalar@.take(k) =~= before.take(k));
            assert(scalar@.skip(k + 1) =~= before.skip(k).drop_first());
            assert(start.skip(k + 1) =~= start.skip(k).drop_first());
            lemma_pow2_adds(8 * k as nat, 8);
            vstd::arithmetic::power2::lemma2_to64();
            assert(byte * weight + rest * (weight * 256) == (start[k] + carry) * weight)
                by (nonlinear_arith)
                requires
                    byte as int + 256 * rest as int == start[k] as int + carry as int,
            ;
            assert((start[k] + carry) * weight == start[k] * weight + carry * weight)
                by (nonlinear_arith);
        }
        carry = rest;
        i = i + 1;
    }
    proof {
        assert(scalar@.take(32) =~= scalar@);
        assert(start.take(32) =~= start);
        lemma_le_value_bound(scalar@);
        let total = (le_value(start) + amount) as int;
        vstd::arithmetic::div_mod::lemma_fundamental_div_mod_converse(
            total,
            pow2(256) as int,
            carry as int,
            le_value(scalar@) as int,
        );
    }
}

/// One more byte adds that byte at its weight.
pub proof fn lemma_le_value_take(bytes: Seq<u8>, i: int)
    requires
        0 <= i < bytes.len(),
    ensures
        le_value(bytes.take(i + 1)) == le_value(bytes.take(i)) + bytes[i] * pow2((8 * i) as nat),
    decreases i,
{
    vstd::arithmetic::power2::lemma2_to64();
    if i == 0 {
        assert(bytes.take(1).drop_first() =~= Seq::<u8>::empty());
        assert(bytes.take(0) =~= Seq::<u8>::empty());
        assert(le_value(bytes.take(1)) == bytes[0] as nat + 256 * le_value(Seq::<u8>::empty()));
        assert(bytes[0] * pow2(0) == bytes[0]) by (nonlinear_arith)
            requires
                pow2(0) == 1,
        ;
    } else {
        let tail = bytes.drop_first();
        lemma_le_value_take(tail, i - 1);
        assert(bytes.take(i + 1).drop_first() =~= tail.take(i));
        assert(bytes.take(i).drop_first() =~= tail.take(i - 1));
        lemma_pow2_adds((8 * (i - 1)) as nat, 8);
        let w = pow2((8 * (i - 1)) as nat) as int;
        assert(pow2((8 * i) as nat) == w * 256);
        assert(256 * (bytes[i] * w) == bytes[i] * (w * 256)) by (nonlinear_arith);
        assert(tail[i - 1] == bytes[i]);
        assert(le_value(bytes.take(i + 1)) == bytes[0] as nat + 256 * le_value(tail.take(i)));
        assert(le_value(bytes.take(i)) == bytes[0] as nat + 256 * le_value(tail.take(i - 1)));
    }
}

/// `n` bytes encode a value below `256^n`.
pub proof fn lemma_le_value_bound(bytes: Seq<u8>)
    ensures
        le_value(bytes) < pow2(8 * bytes.len()),
    decreases bytes.len(),
{
    vstd::arithmetic::power2::lemma2_to64();
    if bytes.len() > 0 {
        lemma_le_value_bound(bytes.drop_first());
        lemma_pow2_adds(8 * bytes.drop_first().len(), 8);
    }
}

/// Byte strings of one length that encode the same value are the same.
pub proof fn law_le_value_injective(a: Seq<u8>, b: Seq<u8>)
    requires
        a.len() == b.len(),
        le_value(a) == le_value(b),
    ensures
        a == b,
    decreases a.len(),
{
    if a.len() > 0 {
        law_le_value_injective(a.drop_first(), b.drop_first());
        assert(a =~= seq![a[0]] + a.drop_first());
        assert(b =~= seq![b[0]] + b.drop_first());
    } else {
        assert(a =~= b);
    }
}

/// Clamping produces the clamped form.
pub proof fn law_clamped_is_clamped(bytes: Seq<u8>)
    requires
        bytes.len() == 32,
    ensures
        is_clamped(clamped(bytes)),
{
    let lo = bytes[0];
    let hi = bytes[31];
    assert((lo & 248) & 7 == 0) by (bit_vector);
    assert(((hi & 63) | 64) & 128 == 0) by (bit_vector);
    assert(((hi & 63) | 64) & 64 == 64) by (bit_vector);
}

/// Clamping leaves a scalar alone that already has the clamped form.
pub proof fn law_clamping_fixes_clamped(bytes: Seq<u8>)
    requires
        is_clamped(bytes),
    ensures
        clamped(bytes) == bytes,
{
    let lo = bytes[0];
    let hi = bytes[31];
    assert(lo & 7 == 0 ==> lo & 248 == lo) by (bit_vector);
    assert(hi & 128 == 0 && hi & 64 == 64 ==> (hi & 63) | 64 == hi) by (bit_vector);
    assert(clamped(bytes) =~= bytes);
}

/// Clamping is idempotent.
pub proof fn law_clamping_idempotent(bytes: Seq<u8>)
    requires
        bytes.len() == 32,
    ensures
        clamped(clamped(bytes)) == clamped(bytes),
{
    law_clamped_is_clamped(bytes);
    law_clamping_fixes_clamped(clamped(bytes));
}

/// The clamped scalars are exactly the multiples of eight from `2^254` up to,
/// and not including, `2^255`.
pub proof fn law_clamped_range(bytes: Seq<u8>)
    requires
        bytes.len() == 32,
    ensures
        is_clamped(bytes) <==> (le_value(bytes) % 8 == 0 && pow2(254) <= le_value(bytes) < pow2(
            255,
        )),
{
    let lo = bytes[0];
    let hi = bytes[31];
    let low_part = le_value(bytes.take(31));
    let weight = pow2(248) as int;
    vstd::arithmetic::power2::lemma2_to64();
    lemma_pow2_adds(248, 6);
    lemma_pow2_adds(248, 7);
    assert(bytes.take(32) =~= bytes);
    lemma_le_value_take(bytes, 31);
    lemma_le_value_bound(bytes.take(31));
    assert(le_value(bytes) == low_part + hi * weight);
    assert(le_value(bytes) == lo as nat + 256 * le_value(bytes.drop_first()));
    assert(lo & 7 == lo % 8) by (bit_vector);
    assert(le_value(bytes) % 8 == (lo as nat) % 8);
    assert((hi & 128 == 0 && hi & 64 == 64) <==> 64 <= hi < 128) by (bit_vector);
    if 64 <= hi < 128 {
        assert(64 * weight <= hi * weight <= 127 * weight) by (nonlinear_arith)
            requires
                64 <= hi < 128,
                weight >= 0,
        ;
    } else if hi < 64 {
        assert(hi * weight <= 63 * weight) by (nonlinear_arith)
            requires
                hi < 64,
                weight >= 0,
        ;
    } else {
        assert(hi * weight >= 128 * weight) by (nonlinear_arith)
            requires
                hi >= 128,
                weight >= 0,
        ;
    }
}

/// Two advances make one advance by the sum.
pub proof fn law_advance_composes(value: nat, first: nat, second: nat)
    ensures
        advanced(advanced(value, first), second) == advanced(value, first + second),
{
    vstd::arithmetic::power2::lemma_pow2_pos(256);
    vstd::arithmetic::div_mod::lemma_add_mod_noop(
        (value + first) as int,
        second as int,
        pow2(256) as int,
    );
    vstd::arithmetic::div_mod::lemma_add_mod_noop(
        ((value + first) % pow2(256)) as int,
        second as int,
        pow2(256) as int,
    );
    vstd::arithmetic::div_mod::lemma_mod_twice((value + first) as int, pow2(256) as int);
}

/// A clamped scalar that advances by a multiple of eight keeps the clamped
/// form as long as it stays below `2^255`.
pub proof fn law_advance_keeps_clamped(from: Seq<u8>, to: Seq<u8>, steps: nat)
    requires
        is_clamped(from),
        to.len() == 32,
        le_value(to) == advanced(le_value(from), 8 * steps),
        le_value(from) + 8 * steps < pow2(255),
    ensures
        is_clamped(to),
        le_value(to) == le_value(from) + 8 * steps,
{
    law_clamped_range(from);
    law_clamped_range(to);
    vstd::arithmetic::power2::lemma_pow2_strictly_increases(255, 256);
    vstd::arithmetic::div_mod::lemma_small_mod(le_value(from) + 8 * steps, pow2(256));
}

/// Reading a scalar and writing it out again gives it back.
pub proof fn law_le_bytes_read_back(bytes: Seq<u8>)
    ensures
        le_bytes(le_value(bytes), bytes.len()) == bytes,
    decreases bytes.len(),
{
    if bytes.len() > 0 {
        law_le_bytes_read_back(bytes.drop_first());
        assert(bytes =~= seq![bytes[0]] + bytes.drop_first());
    } else {
        assert(bytes =~= Seq::empty());
    }
}

/// No bytes stand for zero, and one byte stands for itself.
pub proof fn law_value_of_a_byte(byte: u8)
    ensures
        le_value(Seq::empty()) == 0,
        le_value(seq![byte]) == byte,
{
    assert(seq![byte].drop_first() =~= Seq::empty());
}

/// Bytes behind others count as many times more as the others have values.
pub proof fn law_value_of_parts(low: Seq<u8>, high: Seq<u8>)
    ensures
        le_value(low + high) == le_value(low) + pow2(8 * low.len()) * le_value(high),
    decreases low.len(),
{
    vstd::arithmetic::power2::lemma2_to64();
    let rest = le_value(high) as int;
    if low.len() == 0 {
        assert(low + high =~= high);
        assert(pow2(0) * rest == rest) by (nonlinear_arith)
            requires
                pow2(0) == 1,
        ;
    } else {
        let tail = low.drop_first();
        law_value_of_parts(tail, high);
        assert((low + high).drop_first() =~= tail + high);
        lemma_pow2_adds(8, 8 * tail.len());
        let weight = pow2(8 * tail.len()) as int;
        assert(256 * (weight * rest) == (256 * weight) * rest) by (nonlinear_arith);
    }
}

/// Writing a number out and reading it again gives what of it fits.
pub proof fn law_le_bytes_write(value: nat, len: nat)
    ensures
        le_bytes(value, len).len() == len,
        le_value(le_bytes(value, len)) == value % pow2(8 * len),
    decreases len,
{
    vstd::arithmetic::power2::lemma2_to64();
    if len > 0 {
        let fewer = (len - 1) as nat;
        law_le_bytes_write(value / 256, fewer);
        let written = le_bytes(value, len);
        assert(written.drop_first() =~= le_bytes(value / 256, fewer));
        vstd::arithmetic::power2::lemma_pow2_pos(8 * fewer);
        lemma_pow2_adds(8, 8 * fewer);
        vstd::arithmetic::div_mod::lemma_mod_breakdown(
            value as int,
            256,
            pow2(8 * fewer) as int,
        );
    }
}

/// Clamping touches only the low three and the top two bits.
pub proof fn law_clamping_keeps_the_other_bits(bytes: Seq<u8>)
    requires
        bytes.len() == 32,
    ensures
        clamped(bytes).len() == 32,
        forall|i: int| 1 <= i < 31 ==> clamped(bytes)[i] == bytes[i],
        clamped(bytes)[0] == bytes[0] - bytes[0] % 8,
        clamped(bytes)[31] == 64 + bytes[31] % 64,
{
    let lo = bytes[0];
    let hi = bytes[31];
    assert(lo & 248 == lo - lo % 8) by (bit_vector);
    assert((hi & 63) | 64 == 64 + hi % 64) by (bit_vector);
}

/// A scalar is clamped where its first byte is a multiple of eight and its last
/// lies from 64 through 127.
pub proof fn law_clamped_form(bytes: Seq<u8>)
    ensures
        is_clamped(bytes) <==> bytes.len() == 32 && bytes[0] % 8 == 0 && 64 <= bytes[31] < 128,
{
    let lo = bytes[0];
    let hi = bytes[31];
    assert(lo & 7 == lo % 8) by (bit_vector);
    assert((hi & 128 == 0 && hi & 64 == 64) <==> 64 <= hi < 128) by (bit_vector);
}

/// Advancing is addition: the result is below `2^256` and differs from the sum
/// by a multiple of that.
pub proof fn law_advancing_is_addition(value: nat, amount: nat)
    ensures
        advanced(value, amount) < pow2(256),
        advanced(value, amount) <= value + amount,
        (value + amount - advanced(value, amount)) % (pow2(256) as int) == 0,
        value + amount < pow2(256) ==> advanced(value, amount) == value + amount,
{
    vstd::arithmetic::power2::lemma_pow2_pos(256);
    let sum = (value + amount) as int;
    let all = pow2(256) as int;
    vstd::arithmetic::div_mod::lemma_fundamental_div_mod(sum, all);
    vstd::arithmetic::div_mod::lemma_mod_multiples_basic(sum / all, all);
    assert(all * (sum / all) == (sum / all) * all) by (nonlinear_arith);
    assert(all * (sum / all) >= 0) by (nonlinear_arith)
        requires
            all > 0,
            sum >= 0,
    ;
    if sum < all {
        vstd::arithmetic::div_mod::lemma_small_mod(sum as nat, all as nat);
    }
}

} // verus!
