//! Chains of keys: consecutive scalars eight apart, and the points that keep
//! pace with them by one addition each.

use crate::curve::{base_encoding, group_order, BasePoint, GroupScalar, CHAIN_BATCH};
use crate::keygen::public_key_of;
use crate::scalar::{advance_scalar, advanced, is_clamped, law_clamping_fixes_clamped, le_value};
use vstd::arithmetic::power2::pow2;
use vstd::prelude::*;

verus! {

/// Distance between the scalars of neighbouring keys.
pub const CHAIN_STEP: u64 = 8;

/// The multiple of the base point that is `steps` steps behind the `start`-th.
pub open spec fn position_after(start: nat, steps: nat) -> nat {
    (start + 8 * steps) % group_order()
}

/// The keys of one batch of a chain whose first point is the `start`-th
/// multiple of the base point.
pub open spec fn batch_keys(start: nat) -> Seq<Seq<u8>> {
    Seq::new(CHAIN_BATCH as nat, |k: int| base_encoding(position_after(start, k as nat)))
}

/// A position in a chain: a scalar, the multiple of the base point that belongs
/// to it, and the point that leads from one key to the next.
#[derive(Clone, Copy)]
pub struct KeyChain {
    scalar: [u8; 32],
    point: BasePoint,
    step: BasePoint,
}

impl KeyChain {
    /// The scalar of the next key.
    pub closed spec fn scalar(&self) -> Seq<u8> {
        self.scalar@
    }

    /// The multiple of the base point that the next key encodes.
    pub closed spec fn position(&self) -> nat {
        self.point@
    }

    /// The step point is eight times the base point.
    pub closed spec fn wf(&self) -> bool {
        &&& self.point@ < group_order()
        &&& self.step@ == CHAIN_STEP
    }

    /// Whether point and scalar belong together.
    pub open spec fn in_lockstep(&self) -> bool {
        self.position() == le_value(self.scalar()) % group_order()
    }

    /// Starts a chain at a clamped scalar.
    pub fn new(start: &[u8; 32]) -> (chain: KeyChain)
        requires
            is_clamped(start@),
        ensures
            chain.wf(),
            chain.in_lockstep(),
            chain.position() == le_value(start@) % group_order(),
            chain.scalar() == start@,
    {
        let step = BasePoint::mul_base(&GroupScalar::from_u64(CHAIN_STEP));
        let point = BasePoint::mul_base_clamped(*start);
        proof {
            crate::keygen::lemma_clamp_integer(start@);
            law_clamping_fixes_clamped(start@);
        }
        KeyChain { scalar: *start, point, step }
    }

    /// The next sixteen keys. Afterwards the chain stands behind them, and in
    /// lockstep if it was and the scalar did not pass `2^256`.
    pub fn next_batch(&mut self) -> (keys: [[u8; 32]; CHAIN_BATCH])
        requires
            old(self).wf(),
        ensures
            forall|k: int|
                0 <= k < CHAIN_BATCH ==> (#[trigger] keys@[k])@ == batch_keys(
                    old(self).position(),
                )[k],
            forall|k: int|
                0 <= k < CHAIN_BATCH ==> (#[trigger] keys@[k])@ == base_encoding(
                    (old(self).position() + 8 * k as nat) % group_order(),
                ),
            final(self).wf(),
            final(self).position() == (old(self).position() + 128) % group_order(),
            final(self).position() == position_after(old(self).position(), CHAIN_BATCH as nat),
            le_value(final(self).scalar()) == advanced(
                le_value(old(self).scalar()),
                8 * CHAIN_BATCH as nat,
            ),
            old(self).in_lockstep() && le_value(old(self).scalar()) + 8 * CHAIN_BATCH < pow2(256)
                ==> final(self).in_lockstep(),
    {
        let ghost start = self.point@;
        let mut points: [BasePoint; CHAIN_BATCH] = [self.point; CHAIN_BATCH];
        let mut next = self.point;
        let mut k: usize = 0;
        assert(start % group_order() == start) by {
            vstd::arithmetic::div_mod::lemma_small_mod(start, group_order());
        }
        while k < CHAIN_BATCH
            invariant
                0 <= k <= CHAIN_BATCH,
                self.step@ == CHAIN_STEP,
                next@ == position_after(start, k as nat),
                forall|j: int|
                    0 <= j < k ==> (#[trigger] points@[j])@ == position_after(start, j as nat),
            decreases CHAIN_BATCH - k,
        {
            points[k] = next;
            next = next.plus(&self.step);
            proof {
                lemma_positions_add(start, k as nat, 1);
            }
            k = k + 1;
        }
        let keys = BasePoint::compress_batch(&points);
        self.point = next;
        advance_scalar(&mut self.scalar, CHAIN_STEP * CHAIN_BATCH as u64);
        proof {
            let value = le_value(old(self).scalar());
            if value + 8 * CHAIN_BATCH < pow2(256) {
                vstd::arithmetic::div_mod::lemma_small_mod(value + 128, pow2(256));
                lemma_positions_add(value, 0, CHAIN_BATCH as nat);
            }
        }
        keys
    }

    /// The scalar of the key that is `steps` keys ahead.
    pub fn scalar_ahead(&self, steps: usize) -> (scalar: [u8; 32])
        requires
            steps <= CHAIN_BATCH,
        ensures
            le_value(scalar@) == advanced(le_value(self.scalar()), 8 * steps as nat),
    {
        let mut scalar: [u8; 32] = self.scalar;
        advance_scalar(&mut scalar, CHAIN_STEP * steps as u64);
        scalar
    }
}

/// Steps add up.
proof fn lemma_positions_add(start: nat, first: nat, second: nat)
    ensures
        position_after(position_after(start, first), second) == position_after(
            start,
            first + second,
        ),
{
    vstd::arithmetic::div_mod::lemma_add_mod_noop(
        (start + 8 * first) as int,
        (8 * second) as int,
        group_order() as int,
    );
    vstd::arithmetic::div_mod::lemma_add_mod_noop(
        ((start + 8 * first) % group_order()) as int,
        (8 * second) as int,
        group_order() as int,
    );
    vstd::arithmetic::div_mod::lemma_mod_twice(
        (start + 8 * first) as int,
        group_order() as int,
    );
}

/// In a chain in lockstep, the key that is `steps` keys ahead is the public key
/// of the scalar that is `8 * steps` ahead, as long as that stays below
/// `2^256`.
pub proof fn law_chain_keys_belong_to_scalars(
    position: nat,
    scalar: Seq<u8>,
    ahead: Seq<u8>,
    steps: nat,
)
    requires
        position == le_value(scalar) % group_order(),
        le_value(ahead) == advanced(le_value(scalar), 8 * steps),
        le_value(scalar) + 8 * steps < pow2(256),
    ensures
        base_encoding(position_after(position, steps)) == public_key_of(ahead),
{
    vstd::arithmetic::div_mod::lemma_small_mod(le_value(scalar) + 8 * steps, pow2(256));
    lemma_positions_add(le_value(scalar), 0, steps);
}

/// Two batches in a row are the keys of one longer walk: the `k`-th key of the
/// second is the key that is sixteen further than the `k`-th of the first.
pub proof fn law_batches_continue(start: nat, k: int)
    requires
        0 <= k < CHAIN_BATCH,
    ensures
        batch_keys(position_after(start, CHAIN_BATCH as nat))[k] == base_encoding(
            position_after(start, (CHAIN_BATCH + k) as nat),
        ),
{
    lemma_positions_add(start, CHAIN_BATCH as nat, k as nat);
}

/// A batch is sixteen keys, and the one at `k` encodes the multiple of the base
/// point that is `8 * k` behind the first.
pub proof fn law_batch_keys(start: nat, k: nat)
    ensures
        batch_keys(start).len() == 16,
        k < 16 ==> batch_keys(start)[k as int] == base_encoding((start + 8 * k) % group_order()),
        position_after(start, k) == (start + 8 * k) % group_order(),
{
}

/// Point and scalar of a chain belong together where the point is the multiple
/// of the base point that the scalar says.
pub proof fn law_chain_in_lockstep(chain: KeyChain)
    ensures
        chain.in_lockstep() <==> chain.position() == le_value(chain.scalar()) % group_order(),
{
}

} // verus!
