//! Multiples of the Ed25519 base point, as `curve25519-dalek` computes them.
//!
//! Everything the library knows of the curve is stated here. A point is known
//! by the multiple of the base point that it is, a number below the order of
//! the base point, and by the 32 bytes that encode it.

use crate::scalar::le_value;
use curve25519_dalek::constants::ED25519_BASEPOINT_TABLE;
use curve25519_dalek::scalar::Scalar;
use curve25519_dalek::EdwardsPoint;
use vstd::arithmetic::power2::{lemma2_to64, lemma2_to64_rest, lemma_pow2_adds, pow2};
use vstd::prelude::*;

verus! {

/// Number of points that one batched inversion compresses.
pub const CHAIN_BATCH: usize = 16;

/// A point of the Edwards curve, opaque outside `curve25519-dalek`.
#[verifier::external_type_specification]
#[verifier::external_body]
pub struct ExEdwardsPoint(EdwardsPoint);

/// An integer modulo the order of the base point, opaque outside
/// `curve25519-dalek`.
#[verifier::external_type_specification]
#[verifier::external_body]
pub struct ExScalar(Scalar);

/// The order of the Ed25519 base point,
/// `2^252 + 27742317777372353535851937790883648493`.
pub open spec fn group_order() -> nat {
    0x1000000000000000000000000000000014def9dea2f79cd65812631a5cf5d3ednat
}

/// The 32 bytes to which `EdwardsPoint::compress` takes the `n`-th multiple of
/// the Ed25519 base point.
pub uninterp spec fn base_encoding(n: nat) -> Seq<u8>;

/// The clamping that `curve25519-dalek` applies to 32 bytes before it
/// multiplies by them.
pub open spec fn clamp_integer(bytes: Seq<u8>) -> Seq<u8> {
    bytes.update(0, bytes[0] & 0b1111_1000).update(31, (bytes[31] & 0b0111_1111) | 0b0100_0000)
}

/// An integer modulo the order of the base point. Its view is the
/// representative below the order.
#[derive(Clone, Copy)]
pub struct GroupScalar {
    scalar: Scalar,
    value: Ghost<nat>,
}

impl View for GroupScalar {
    type V = nat;

    closed spec fn view(&self) -> nat {
        self.value@
    }
}

impl GroupScalar {
    /// `Scalar::from_bytes_mod_order`: reads 32 little-endian bytes as an
    /// integer and reduces it modulo the order of the base point.
    #[verifier::external_body]
    pub(crate) fn from_bytes_mod_order(bytes: [u8; 32]) -> (s: GroupScalar)
        ensures
            s@ == le_value(bytes@) % group_order(),
    {
        GroupScalar {
            scalar: Scalar::from_bytes_mod_order(bytes),
            value: Ghost(le_value(bytes@) % group_order()),
        }
    }

    /// `Scalar::from` on a `u64`: the scalar with that value, which is below
    /// the order of the base point.
    #[verifier::external_body]
    pub(crate) fn from_u64(x: u64) -> (s: GroupScalar)
        ensures
            s@ == x,
    {
        GroupScalar { scalar: Scalar::from(x), value: Ghost(x as nat) }
    }
}

/// A multiple of the Ed25519 base point. Its view is the multiple, reduced
/// modulo the order of the base point. Only the functions of this module make
/// one, each from the base point or from points that are multiples of it.
#[derive(Clone, Copy)]
pub struct BasePoint {
    point: EdwardsPoint,
    multiple: Ghost<nat>,
}

impl View for BasePoint {
    type V = nat;

    closed spec fn view(&self) -> nat {
        self.multiple@
    }
}

impl BasePoint {
    /// `ED25519_BASEPOINT_TABLE` times a scalar: the multiple of the base point
    /// that the scalar says.
    #[verifier::external_body]
    pub(crate) fn mul_base(scalar: &GroupScalar) -> (p: BasePoint)
        ensures
            p@ == scalar@ % group_order(),
    {
        BasePoint {
            point: ED25519_BASEPOINT_TABLE * &scalar.scalar,
            multiple: Ghost(scalar@ % group_order()),
        }
    }

    /// `EdwardsPoint::mul_base_clamped`: clamps 32 bytes, reads them as a
    /// little-endian integer and multiplies the base point by it.
    #[verifier::external_body]
    pub(crate) fn mul_base_clamped(bytes: [u8; 32]) -> (p: BasePoint)
        ensures
            p@ == le_value(clamp_integer(bytes@)) % group_order(),
    {
        BasePoint {
            point: EdwardsPoint::mul_base_clamped(bytes),
            multiple: Ghost(le_value(clamp_integer(bytes@)) % group_order()),
        }
    }

    /// Addition of two `EdwardsPoint`s: multiples of the base point add up
    /// modulo its order.
    #[verifier::external_body]
    pub(crate) fn plus(&self, other: &BasePoint) -> (p: BasePoint)
        ensures
            p@ == (self@ + other@) % group_order(),
    {
        BasePoint {
            point: self.point + other.point,
            multiple: Ghost((self@ + other@) % group_order()),
        }
    }

    /// `EdwardsPoint::compress`: the 32-byte encoding of the point.
    #[verifier::external_body]
    pub(crate) fn compress(&self) -> (bytes: [u8; 32])
        ensures
            bytes@ == base_encoding(self@),
    {
        self.point.compress().to_bytes()
    }

    /// `EdwardsPoint::compress_batch`: the encoding of each point, in order, at
    /// the cost of one field inversion.
    #[verifier::external_body]
    pub(crate) fn compress_batch(points: &[BasePoint; CHAIN_BATCH]) -> (keys: [[u8; 32];
        CHAIN_BATCH])
        ensures
            forall|i: int|
                0 <= i < CHAIN_BATCH ==> (#[trigger] keys@[i])@ == base_encoding(points@[i]@),
    {
        EdwardsPoint::compress_batch(&points.map(|p| p.point)).map(|c| c.to_bytes())
    }
}

/// The order of the base point is the prime that RFC 8032 gives.
pub proof fn law_group_order()
    ensures
        group_order() == pow2(252) + 27742317777372353535851937790883648493,
{
    lemma2_to64();
    lemma_pow2_adds(64, 64);
    lemma_pow2_adds(128, 64);
    lemma_pow2_adds(192, 60);
    lemma2_to64_rest();
}

} // verus!
