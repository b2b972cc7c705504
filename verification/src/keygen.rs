//! MeshCore keypairs from a seed, from random bytes and from a scalar.

use crate::curve::{base_encoding, clamp_integer, group_order, BasePoint};
use crate::scalar::{clamp_scalar, clamped, is_clamped, le_value};
use crate::types::MeshCoreKeypair;
use sha2::{Digest, Sha512};
use vstd::prelude::*;

verus! {

/// The 64 bytes of the SHA-512 digest of `data`.
pub uninterp spec fn sha512(data: Seq<u8>) -> Seq<u8>;

/// `Sha512::digest`: the SHA-512 digest of 32 bytes.
#[verifier::external_body]
fn sha512_digest(data: &[u8; 32]) -> (digest: [u8; 64])
    ensures
        digest@ == sha512(data@),
{
    Sha512::digest(data).into()
}

/// The public key of a scalar: the encoding of that multiple of the base point.
pub open spec fn public_key_of(scalar: Seq<u8>) -> Seq<u8> {
    base_encoding(le_value(scalar) % group_order())
}

/// Whether the public key is that of the scalar in the first half of the
/// private key.
pub open spec fn keys_agree(keypair: MeshCoreKeypair) -> bool {
    keypair.public_key@ == public_key_of(keypair.private_key@.take(32))
}

/// Generates a MeshCore Ed25519 keypair from a 32-byte seed.
///
/// 1. SHA-512(seed) gives 64 bytes.
/// 2. The first 32 of them are clamped to the scalar.
/// 3. The base point times the scalar is the public key.
/// 4. The private key is the scalar followed by the last 32 bytes of the digest.
pub fn generate_keypair(seed: &[u8; 32]) -> (keypair: MeshCoreKeypair)
    ensures
        sha512(seed@).len() == 64,
        keypair.private_key@ == clamped(sha512(seed@).take(32)) + sha512(seed@).skip(32),
        keypair.private_key@.skip(32) == sha512(seed@).skip(32),
        keypair.public_key@ == public_key_of(clamped(sha512(seed@).take(32))),
        keypair.public_key@ == base_encoding(
            le_value(clamped(sha512(seed@).take(32))) % group_order(),
        ),
        is_clamped(keypair.private_key@.take(32)),
        keys_agree(keypair),
{
    let digest = sha512_digest(seed);
    let keypair = keypair_from_digest(&digest);
    assert(keypair.private_key@.skip(32) =~= digest@.skip(32));
    keypair
}

/// The keypair that a 64-byte digest expands to.
pub fn keypair_from_digest(digest: &[u8; 64]) -> (keypair: MeshCoreKeypair)
    ensures
        keypair.private_key@ == clamped(digest@.take(32)) + digest@.skip(32),
        keypair.public_key@ == public_key_of(clamped(digest@.take(32))),
        is_clamped(keypair.private_key@.take(32)),
        keys_agree(keypair),
{
    let scalar_src = bytes32_at(digest, 0);
    let prefix = bytes32_at(digest, 32);
    assert(digest@.subrange(0, 32) =~= digest@.take(32));
    assert(digest@.subrange(32, 64) =~= digest@.skip(32));
    generate_keypair_from_random_bytes(&scalar_src, &prefix)
}

/// Builds a MeshCore keypair directly from 64 bytes of cryptographic
/// randomness: `scalar_src` is clamped to form the scalar, and `prefix` becomes
/// the second half of the expanded private key, which feeds the signing nonce.
pub fn generate_keypair_from_random_bytes(scalar_src: &[u8; 32], prefix: &[u8; 32]) -> (keypair:
    MeshCoreKeypair)
    ensures
        keypair.private_key@ == clamped(scalar_src@) + prefix@,
        keypair.public_key@ == public_key_of(clamped(scalar_src@)),
        keypair.public_key@ == base_encoding(le_value(clamped(scalar_src@)) % group_order()),
        is_clamped(keypair.private_key@.take(32)),
        keys_agree(keypair),
{
    let mut scalar: [u8; 32] = *scalar_src;
    clamp_scalar(&mut scalar);
    let public_key = clamped_public_key(&scalar);
    let keypair = assemble_keypair(public_key, &scalar, prefix);
    assert(keypair.private_key@.take(32) =~= clamped(scalar_src@));
    keypair
}

/// The public key of a clamped scalar.
pub fn clamped_public_key(scalar: &[u8; 32]) -> (public_key: [u8; 32])
    requires
        is_clamped(scalar@),
    ensures
        public_key@ == public_key_of(scalar@),
{
    let point = BasePoint::mul_base_clamped(*scalar);
    proof {
        lemma_clamp_integer(scalar@);
        crate::scalar::law_clamping_fixes_clamped(scalar@);
    }
    point.compress()
}

/// Puts a keypair together: the private key is the scalar followed by the
/// prefix.
pub fn assemble_keypair(public_key: [u8; 32], scalar: &[u8; 32], prefix: &[u8; 32]) -> (keypair:
    MeshCoreKeypair)
    ensures
        keypair.public_key@ == public_key@,
        keypair.private_key@ == scalar@ + prefix@,
{
    let mut private_key: [u8; 64] = [0; 64];
    let mut i: usize = 0;
    while i < 32
        invariant
            0 <= i <= 32,
            private_key@.take(i as int) == scalar@.take(i as int),
            private_key@.subrange(32, 32 + i) == prefix@.take(i as int),
        decreases 32 - i,
    {
        private_key[i] = scalar[i];
        private_key[32 + i] = prefix[i];
        proof {
            let k = i as int;
            assert(private_key@.take(k + 1) =~= scalar@.take(k).push(scalar@[k]));
            assert(scalar@.take(k + 1) =~= scalar@.take(k).push(scalar@[k]));
            assert(private_key@.subrange(32, 33 + k) =~= prefix@.take(k).push(prefix@[k]));
            assert(prefix@.take(k + 1) =~= prefix@.take(k).push(prefix@[k]));
        }
        i = i + 1;
    }
    proof {
        assert(scalar@.take(32) =~= scalar@);
        assert(prefix@.take(32) =~= prefix@);
        assert(private_key@ =~= private_key@.take(32) + private_key@.subrange(32, 64));
    }
    MeshCoreKeypair { public_key, private_key }
}

/// Copies the 32 bytes that start at `at`.
pub fn bytes32_at(bytes: &[u8], at: usize) -> (out: [u8; 32])
    requires
        at + 32 <= bytes@.len(),
    ensures
        out@ == bytes@.subrange(at as int, at + 32),
{
    let len: usize = bytes.len();
    let mut out: [u8; 32] = [0; 32];
    let mut i: usize = 0;
    while i < 32
        invariant
            0 <= i <= 32,
            len == bytes@.len(),
            at + 32 <= len,
            forall|k: int| 0 <= k < i ==> out@[k] == bytes@[at + k],
        decreases 32 - i,
    {
        out[i] = bytes[at + i];
        i = i + 1;
    }
    assert(out@ =~= bytes@.subrange(at as int, at + 32));
    out
}

/// The curve library clamps as this library does.
pub proof fn lemma_clamp_integer(bytes: Seq<u8>)
    requires
        bytes.len() == 32,
    ensures
        clamp_integer(bytes) == clamped(bytes),
{
    let hi = bytes[31];
    assert((hi & 0b0111_1111) | 0b0100_0000 == (hi & 63) | 64) by (bit_vector);
    assert(clamp_integer(bytes) =~= clamped(bytes));
}

/// The public key of a scalar is the encoding of that multiple of the base
/// point, the multiple taken modulo the order.
pub proof fn law_public_key(scalar: Seq<u8>)
    ensures
        public_key_of(scalar) == base_encoding(le_value(scalar) % group_order()),
{
}

/// The keys of a pair agree where the public key is that of the scalar in the
/// first 32 bytes of the private key.
pub proof fn law_keys_agree(keypair: MeshCoreKeypair)
    ensures
        keys_agree(keypair) <==> keypair.public_key@ == base_encoding(
            le_value(keypair.private_key@.subrange(0, 32)) % group_order(),
        ),
{
    assert(keypair.private_key@.subrange(0, 32) =~= keypair.private_key@.take(32));
}

/// Scalars that differ by a multiple of the order of the base point have one
/// public key.
pub proof fn law_public_key_is_of_the_residue(a: Seq<u8>, b: Seq<u8>, times: nat)
    requires
        le_value(b) == le_value(a) + times * group_order(),
    ensures
        public_key_of(a) == public_key_of(b),
{
    vstd::arithmetic::div_mod::lemma_mod_multiples_vanish(
        times as int,
        le_value(a) as int,
        group_order() as int,
    );
    assert(group_order() * times == times * group_order()) by (nonlinear_arith);
}

} // verus!
