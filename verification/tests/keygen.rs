use mc_keygen::device::scalar_public_key;
use mc_keygen::entropy::{filled_bytes, random_bytes, random_start_scalar, start_scalar_from};
use mc_keygen::keygen::{
    assemble_keypair, clamped_public_key, generate_keypair, generate_keypair_from_random_bytes,
    keypair_from_digest,
};
use mc_keygen::scalar::{advance_scalar, clamp_scalar};
use sha2::{Digest, Sha512};

fn bytes32(hex_text: &str) -> [u8; 32] {
    let mut out = [0u8; 32];
    out.copy_from_slice(&hex::decode(hex_text).unwrap());
    out
}

#[test]
fn deterministic_keygen() {
    let seed = [42u8; 32];
    let kp1 = generate_keypair(&seed);
    let kp2 = generate_keypair(&seed);
    assert_eq!(kp1.public_key, kp2.public_key);
    assert_eq!(kp1.private_key, kp2.private_key);
}

#[test]
fn different_seeds_different_keys() {
    let kp1 = generate_keypair(&[1u8; 32]);
    let kp2 = generate_keypair(&[2u8; 32]);
    assert_ne!(kp1.public_key, kp2.public_key);
}

#[test]
fn clamping_applied() {
    let seed = [0xFFu8; 32];
    let hash = Sha512::digest(&seed);
    let kp = generate_keypair(&seed);

    // Verify clamping was applied to the private key scalar
    assert_eq!(kp.private_key[0] & 7, 0, "low 3 bits should be cleared");
    assert_eq!(kp.private_key[31] & 128, 0, "high bit should be cleared");
    assert_eq!(kp.private_key[31] & 64, 64, "second-highest bit should be set");

    // Second half should match SHA-512 digest
    assert_eq!(&kp.private_key[32..], &hash[32..]);
}

#[test]
fn public_key_is_32_bytes() {
    let kp = generate_keypair(&[7u8; 32]);
    assert_eq!(kp.public_key.len(), 32);
}

#[test]
fn private_key_is_64_bytes() {
    let kp = generate_keypair(&[7u8; 32]);
    assert_eq!(kp.private_key.len(), 64);
}

#[test]
fn seed_gives_the_published_public_key() {
    // First and second test vectors of RFC 8032, section 7.1.
    let seed = bytes32("9d61b19deffd5a60ba844af492ec2cc44449c5697b326919703bac031cae7f60");
    let key = bytes32("d75a980182b10ab7d54bfed3c964073a0ee172f3daa62325af021a68f707511a");
    assert_eq!(generate_keypair(&seed).public_key, key);

    let seed = bytes32("4ccd089b28ff96da9db6c346ec114e0f5b8a319f35aba624da8cf6ed4fb8a6fb");
    let key = bytes32("3d4017c3e843895a92b70aa74d1b7ebc9c982ccf2ec4968cc0cd55f12af4660c");
    assert_eq!(generate_keypair(&seed).public_key, key);
}

#[test]
fn digest_and_random_bytes_agree() {
    let seed = [9u8; 32];
    let mut digest = [0u8; 64];
    digest.copy_from_slice(&Sha512::digest(&seed));
    let mut scalar = [0u8; 32];
    scalar.copy_from_slice(&digest[..32]);
    let mut prefix = [0u8; 32];
    prefix.copy_from_slice(&digest[32..]);

    let from_seed = generate_keypair(&seed);
    let from_digest = keypair_from_digest(&digest);
    let from_bytes = generate_keypair_from_random_bytes(&scalar, &prefix);
    assert_eq!(from_seed.public_key, from_digest.public_key);
    assert_eq!(from_seed.private_key, from_digest.private_key);
    assert_eq!(from_seed.public_key, from_bytes.public_key);
    assert_eq!(from_seed.private_key, from_bytes.private_key);
}

#[test]
fn random_bytes_are_clamped_into_the_private_key() {
    let kp = generate_keypair_from_random_bytes(&[0xFF; 32], &[0x5A; 32]);
    assert_eq!(kp.private_key[0], 0xF8);
    assert_eq!(kp.private_key[1], 0xFF);
    assert_eq!(kp.private_key[31], 0x7F);
    assert_eq!(&kp.private_key[32..], &[0x5A; 32]);
}

#[test]
fn public_key_belongs_to_the_scalar_of_the_private_key() {
    let kp = generate_keypair(&[3u8; 32]);
    let mut scalar = [0u8; 32];
    scalar.copy_from_slice(&kp.private_key[..32]);
    assert_eq!(scalar_public_key(&scalar), kp.public_key);
    assert_eq!(clamped_public_key(&scalar), kp.public_key);
}

#[test]
fn scalar_one_gives_the_base_point() {
    let mut one = [0u8; 32];
    one[0] = 1;
    let base = bytes32("5866666666666666666666666666666666666666666666666666666666666666");
    assert_eq!(scalar_public_key(&one), base);

    // One more than the order of the base point is one again.
    let mut wrapped = bytes32("edd3f55c1a631258d69cf7a2def9de1400000000000000000000000000000010");
    advance_scalar(&mut wrapped, 1);
    assert_eq!(scalar_public_key(&wrapped), base);
}

#[test]
fn keypair_is_put_together_in_order() {
    let kp = assemble_keypair([1; 32], &[2; 32], &[3; 32]);
    assert_eq!(kp.public_key, [1; 32]);
    assert_eq!(&kp.private_key[..32], &[2; 32]);
    assert_eq!(&kp.private_key[32..], &[3; 32]);
}

#[test]
fn clamping_twice_is_clamping_once() {
    let mut once = [0xA7u8; 32];
    clamp_scalar(&mut once);
    assert_eq!(once[0], 0xA0);
    assert_eq!(once[31], 0x67);
    let mut twice = once;
    clamp_scalar(&mut twice);
    assert_eq!(once, twice);
}

#[test]
fn advancing_carries_through_every_byte() {
    let mut scalar = [0xFFu8; 32];
    scalar[31] = 0x40;
    advance_scalar(&mut scalar, 8);
    let mut expected = [0u8; 32];
    expected[0] = 7;
    expected[31] = 0x41;
    assert_eq!(scalar, expected);

    // The carry out of the last byte is dropped.
    let mut top = [0xFFu8; 32];
    advance_scalar(&mut top, 2);
    let mut one = [0u8; 32];
    one[0] = 1;
    assert_eq!(top, one);

    let mut zero = [0u8; 32];
    advance_scalar(&mut zero, u64::MAX);
    assert_eq!(&zero[..8], &[0xFF; 8]);
    assert_eq!(&zero[8..], &[0; 24]);
}

#[test]
fn advancing_adds_up() {
    let mut split = [0x9Cu8; 32];
    advance_scalar(&mut split, 123_456_789);
    advance_scalar(&mut split, 987_654_321);
    let mut whole = [0x9Cu8; 32];
    advance_scalar(&mut whole, 1_111_111_110);
    assert_eq!(split, whole);
}

#[test]
fn steps_of_eight_stay_clamped() {
    let mut scalar = [0xFFu8; 32];
    clamp_scalar(&mut scalar);
    scalar[31] = 0x40;
    let mut ahead = scalar;
    advance_scalar(&mut ahead, 8 * 1000);
    let mut clamped = ahead;
    clamp_scalar(&mut clamped);
    assert_eq!(ahead, clamped);
}

#[test]
fn draw_counts_only_if_it_was_filled() {
    assert_eq!(filled_bytes(true, [7; 32]), Some([7; 32]));
    assert_eq!(filled_bytes(false, [7; 32]), None);
    let mut clamped = [0xFFu8; 32];
    clamped[0] = 0xF8;
    clamped[31] = 0x7F;
    assert_eq!(start_scalar_from(Some([0xFF; 32])), Some(clamped));
    assert_eq!(start_scalar_from(None), None);
}

#[test]
fn random_bytes_come_and_differ() {
    let first = random_bytes().unwrap();
    let second = random_bytes().unwrap();
    assert_ne!(first, second);
    assert_ne!(first, [0u8; 32]);
    let scalar = random_start_scalar().unwrap();
    let mut clamped = scalar;
    clamp_scalar(&mut clamped);
    assert_eq!(scalar, clamped);
}
