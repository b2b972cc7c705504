//! What the host does with the buffers of a compute device: the key that a
//! launch reports is checked before it is trusted, and a chain of keys that the
//! device computed is compared with the same chain computed here.

use crate::curve::{base_encoding, group_order, BasePoint, GroupScalar};
use crate::hex_text::{encode_upper, hex_upper};
use crate::keygen::{assemble_keypair, bytes32_at, keys_agree, public_key_of};
use crate::packing::{read_word, word_at};
use crate::scalar::{
    advance_scalar, advanced, clamp_scalar, clamped, is_clamped, law_advance_composes,
    law_le_bytes_read_back, law_le_bytes_write, law_le_value_injective, le_bytes, le_value,
};
use crate::text::{decimal, decimal_text};
use crate::types::MeshCoreKeypair;
use vstd::arithmetic::power2::pow2;
use vstd::prelude::*;

verus! {

/// Keys that each thread of a device tries in one launch.
pub const ITERS_PER_THREAD: u64 = 256;

/// Size of the buffer that the search kernel reports a key in.
pub const RESULT_LEN: usize = 100;

/// A key that a device reports, with its scalar.
#[derive(Clone, Copy)]
pub struct DeviceKey {
    pub public_key: [u8; 32],
    pub scalar: [u8; 32],
}

/// Whether the result buffer reports a key.
pub open spec fn reports_key(result: Seq<u8>) -> bool {
    word_at(result, 0) != 0
}

/// The public key in the result buffer.
pub open spec fn reported_key(result: Seq<u8>) -> Seq<u8> {
    result.subrange(4, 36)
}

/// The scalar in the result buffer.
pub open spec fn reported_scalar(result: Seq<u8>) -> Seq<u8> {
    result.subrange(36, 68)
}

/// Reads the result buffer: a flag word, then the public key and the scalar.
pub fn read_result(result: &[u8]) -> (key: Option<DeviceKey>)
    requires
        result@.len() == RESULT_LEN,
    ensures
        key is Some <==> reports_key(result@),
        key matches Some(k) ==> k.public_key@ == reported_key(result@) && k.scalar@
            == reported_scalar(result@),
{
    if read_word(result, 0) != 0 {
        Some(DeviceKey { public_key: bytes32_at(result, 4), scalar: bytes32_at(result, 36) })
    } else {
        None
    }
}

/// The public key of any scalar, reduced modulo the order of the base point.
pub fn scalar_public_key(scalar: &[u8; 32]) -> (public_key: [u8; 32])
    ensures
        public_key@ == public_key_of(scalar@),
{
    let reduced = GroupScalar::from_bytes_mod_order(*scalar);
    proof {
        vstd::arithmetic::div_mod::lemma_mod_twice(
            le_value(scalar@) as int,
            group_order() as int,
        );
    }
    BasePoint::mul_base(&reduced).compress()
}

/// Whether two 32-byte strings are equal.
pub fn same_bytes(a: &[u8; 32], b: &[u8; 32]) -> (same: bool)
    ensures
        same == (a@ == b@),
{
    let mut i: usize = 0;
    while i < 32
        invariant
            0 <= i <= 32,
            a@.take(i as int) == b@.take(i as int),
        decreases 32 - i,
    {
        if a[i] != b[i] {
            assert(a@[i as int] != b@[i as int]);
            return false;
        }
        proof {
            let k = i as int;
            assert(a@.take(k + 1) =~= a@.take(k).push(a@[k]));
            assert(b@.take(k + 1) =~= b@.take(k).push(b@[k]));
        }
        i = i + 1;
    }
    assert(a@.take(32) =~= a@);
    assert(b@.take(32) =~= b@);
    true
}

/// The message for a reported key that does not belong to its scalar.
pub open spec fn mismatch_message(
    scalar: Seq<u8>,
    device_key: Seq<u8>,
    host_key: Seq<u8>,
) -> Seq<char> {
    "GPU match validation failed: scalar·B != pubkey\n  scalar:  "@ + hex_upper(scalar)
        + "\n  GPU pub: "@ + hex_upper(device_key) + "\n  CPU pub: "@ + hex_upper(host_key)
}

/// Compares the key that a device reports with the one that the host computed
/// from the same scalar; the error is a message for the user.
pub fn validate_match(key: &DeviceKey, host_key: &[u8; 32]) -> (outcome: Result<(), String>)
    ensures
        outcome is Ok <==> key.public_key@ == host_key@,
        outcome matches Err(message) ==> message@ == mismatch_message(
            key.scalar@,
            key.public_key@,
            host_key@,
        ),
{
    if same_bytes(&key.public_key, host_key) {
        return Ok(());
    }
    let mut message = String::from_str(
        "GPU match validation failed: scalar·B != pubkey\n  scalar:  ",
    );
    message.append(encode_upper(&key.scalar).as_str());
    message.append("\n  GPU pub: ");
    message.append(encode_upper(&key.public_key).as_str());
    message.append("\n  CPU pub: ");
    message.append(encode_upper(host_key).as_str());
    Err(message)
}

/// Reads the result buffer and trusts the key in it only if it is the public
/// key of the scalar beside it.
pub fn checked_result(result: &[u8]) -> (outcome: Result<Option<DeviceKey>, String>)
    requires
        result@.len() == RESULT_LEN,
    ensures
        match outcome {
            Ok(None) => !reports_key(result@),
            Ok(Some(key)) => {
                &&& reports_key(result@)
                &&& key.public_key@ == reported_key(result@)
                &&& key.scalar@ == reported_scalar(result@)
                &&& key.public_key@ == public_key_of(key.scalar@)
            },
            Err(message) => {
                &&& reports_key(result@)
                &&& reported_key(result@) != public_key_of(reported_scalar(result@))
                &&& message@ == mismatch_message(
                    reported_scalar(result@),
                    reported_key(result@),
                    public_key_of(reported_scalar(result@)),
                )
            },
        },
{
    match read_result(result) {
        None => Ok(None),
        Some(key) => {
            let host_key = scalar_public_key(&key.scalar);
            match validate_match(&key, &host_key) {
                Ok(()) => Ok(Some(key)),
                Err(message) => Err(message),
            }
        },
    }
}

/// The keypair of a checked key, with 32 bytes for the second half of the
/// private key.
pub fn device_keypair(key: &DeviceKey, half: &[u8; 32]) -> (keypair: MeshCoreKeypair)
    ensures
        keypair.public_key@ == key.public_key@,
        keypair.private_key@ == key.scalar@ + half@,
        key.public_key@ == public_key_of(key.scalar@) ==> keys_agree(keypair),
{
    let keypair = assemble_keypair(key.public_key, &key.scalar, half);
    assert(keypair.private_key@.take(32) =~= key.scalar@);
    keypair
}

/// Steps of the chain that a verification compares.
pub const VERIFY_COUNT: usize = 64;

/// Mismatches after which a verification stops.
pub const MAX_MISMATCHES: usize = 5;

/// The scalar that every verification starts from.
pub open spec fn verify_start() -> Seq<u8> {
    clamped(
        Seq::new(
            32,
            |i: int|
                if i == 0 {
                    0x10u8
                } else if i == 1 {
                    0x32u8
                } else if i == 2 {
                    0x54u8
                } else if i == 3 {
                    0x76u8
                } else if i == 31 {
                    0x12u8
                } else {
                    0u8
                },
        ),
    )
}

/// The scalar that every verification starts from.
pub fn verify_start_scalar() -> (start: [u8; 32])
    ensures
        start@ == verify_start(),
        is_clamped(start@),
{
    let mut start: [u8; 32] = [0; 32];
    start[0] = 0x10;
    start[1] = 0x32;
    start[2] = 0x54;
    start[3] = 0x76;
    start[31] = 0x12;
    clamp_scalar(&mut start);
    assert(start@ =~= verify_start());
    start
}

/// The scalar of the `i`-th step of a chain.
pub open spec fn chain_scalar(start: Seq<u8>, i: nat) -> Seq<u8> {
    le_bytes(advanced(le_value(start), 8 * i), 32)
}

/// The `i`-th 32 bytes of a buffer.
pub open spec fn slot(bytes: Seq<u8>, i: nat) -> Seq<u8> {
    bytes.subrange(32 * i as int, 32 * i as int + 32)
}

/// Whether the `i`-th step of a chain that a device computed has the scalar
/// that the chain has there, and the public key of that scalar.
pub open spec fn step_agrees(keys: Seq<u8>, scalars: Seq<u8>, start: Seq<u8>, i: nat) -> bool {
    let scalar = chain_scalar(start, i);
    &&& slot(keys, i) == public_key_of(scalar)
    &&& slot(scalars, i) == scalar
}

/// Those of the first `n` steps that do not agree, in order.
pub open spec fn mismatched(keys: Seq<u8>, scalars: Seq<u8>, start: Seq<u8>, n: nat) -> Seq<nat>
    decreases n,
{
    if n == 0 {
        Seq::empty()
    } else {
        let i = (n - 1) as nat;
        if step_agrees(keys, scalars, start, i) {
            mismatched(keys, scalars, start, i)
        } else {
            mismatched(keys, scalars, start, i).push(i)
        }
    }
}

/// One step that does not agree: what the host computed and what the device
/// gave.
pub struct Mismatch {
    pub index: usize,
    pub host_key: [u8; 32],
    pub device_key: [u8; 32],
    pub host_scalar: [u8; 32],
    pub device_scalar: [u8; 32],
}

impl Mismatch {
    /// Whether this describes the `i`-th step.
    pub open spec fn describes(
        &self,
        keys: Seq<u8>,
        scalars: Seq<u8>,
        start: Seq<u8>,
        i: nat,
    ) -> bool {
        &&& self.index == i
        &&& self.host_scalar@ == chain_scalar(start, i)
        &&& self.host_key@ == public_key_of(chain_scalar(start, i))
        &&& self.device_key@ == slot(keys, i)
        &&& self.device_scalar@ == slot(scalars, i)
    }

    /// The lines that tell a user of the mismatch.
    pub open spec fn lines(&self) -> Seq<char> {
        "MISMATCH idx #"@ + decimal(self.index as nat) + "\n  CPU pubkey:  "@ + hex_upper(
            self.host_key@,
        ) + "\n  GPU pubkey:  "@ + hex_upper(self.device_key@) + "\n  expected scalar: "@
            + hex_upper(self.host_scalar@) + "\n  GPU scalar:      "@ + hex_upper(
            self.device_scalar@,
        ) + "\n"@
    }
}

/// What a verification found: how many steps agreed before it ended, and the
/// first steps that did not.
pub struct ChainReport {
    pub pass: usize,
    pub mismatches: Vec<Mismatch>,
}

impl ChainReport {
    /// What a report on the two buffers holds: the first mismatches, at most
    /// five, and the number of steps that agree among those looked at. With
    /// five mismatches, nothing behind the fifth is looked at.
    pub open spec fn is_on(&self, keys: Seq<u8>, scalars: Seq<u8>, start: Seq<u8>) -> bool {
        let all = mismatched(keys, scalars, start, VERIFY_COUNT as nat);
        &&& self.mismatches@.len() == if all.len() < MAX_MISMATCHES {
            all.len()
        } else {
            MAX_MISMATCHES as nat
        }
        &&& forall|k: int|
            0 <= k < self.mismatches@.len() ==> (#[trigger] self.mismatches@[k]).describes(
                keys,
                scalars,
                start,
                all[k],
            )
        &&& self.pass == if all.len() < MAX_MISMATCHES {
            VERIFY_COUNT - all.len()
        } else {
            all[MAX_MISMATCHES - 1] - (MAX_MISMATCHES - 1)
        }
    }
}

/// The lines on some mismatches, one after the other.
pub open spec fn all_lines(mismatches: Seq<Mismatch>) -> Seq<char>
    decreases mismatches.len(),
{
    if mismatches.len() == 0 {
        Seq::empty()
    } else {
        all_lines(mismatches.drop_last()) + mismatches.last().lines()
    }
}

/// What is said when a verification stopped early.
pub open spec fn stop_notice(mismatches: nat) -> Seq<char> {
    if mismatches >= MAX_MISMATCHES {
        "  (stopping after 5 mismatches)\n"@
    } else {
        Seq::empty()
    }
}

impl Mismatch {
    /// Adds the lines that tell a user of the mismatch.
    fn append_lines(&self, text: &mut String)
        ensures
            final(text)@ == old(text)@ + self.lines(),
    {
        text.append("MISMATCH idx #");
        text.append(decimal_text(self.index as u64).as_str());
        text.append("\n  CPU pubkey:  ");
        text.append(encode_upper(&self.host_key).as_str());
        text.append("\n  GPU pubkey:  ");
        text.append(encode_upper(&self.device_key).as_str());
        text.append("\n  expected scalar: ");
        text.append(encode_upper(&self.host_scalar).as_str());
        text.append("\n  GPU scalar:      ");
        text.append(encode_upper(&self.device_scalar).as_str());
        text.append("\n");
        assert(text@ =~= old(text)@ + self.lines());
    }
}

impl ChainReport {
    /// The report as text for a user: the mismatches, then how many steps
    /// agreed. `device` names the kind of device.
    pub fn text(&self, device: &str) -> (text: String)
        ensures
            text@ == all_lines(self.mismatches@) + stop_notice(self.mismatches@.len()) + decimal(
                self.pass as nat,
            ) + "/"@ + decimal(VERIFY_COUNT as nat) + " chain steps matched ("@ + device@
                + " vs CPU)"@,
    {
        let mut text = String::new();
        let mut i: usize = 0;
        while i < self.mismatches.len()
            invariant
                0 <= i <= self.mismatches@.len(),
                text@ == all_lines(self.mismatches@.take(i as int)),
            decreases self.mismatches@.len() - i,
        {
            self.mismatches[i].append_lines(&mut text);
            proof {
                let k = i as int;
                assert(self.mismatches@.take(k + 1).drop_last() =~= self.mismatches@.take(k));
            }
            i = i + 1;
        }
        assert(self.mismatches@.take(i as int) =~= self.mismatches@);
        if self.mismatches.len() >= MAX_MISMATCHES {
            text.append("  (stopping after 5 mismatches)\n");
        }
        assert(text@ =~= all_lines(self.mismatches@) + stop_notice(self.mismatches@.len()));
        text.append(decimal_text(self.pass as u64).as_str());
        text.append("/");
        text.append(decimal_text(VERIFY_COUNT as u64).as_str());
        text.append(" chain steps matched (");
        text.append(device);
        text.append(" vs CPU)");
        text
    }

    /// Whether the verification passed; the error is a message for the user.
    pub fn outcome(&self, device: &str) -> (outcome: Result<(), String>)
        ensures
            outcome is Ok <==> self.mismatches@.len() == 0,
            outcome matches Err(message) ==> message@ == failure_message(
                self.mismatches@.len(),
                device@,
            ),
    {
        if self.mismatches.len() == 0 {
            return Ok(());
        }
        let mut message = decimal_text(self.mismatches.len() as u64);
        message.append(" of ");
        message.append(decimal_text(VERIFY_COUNT as u64).as_str());
        message.append(" chain steps mismatched between ");
        message.append(device);
        message.append(" and CPU");
        Err(message)
    }
}

/// The message for a verification that failed.
pub open spec fn failure_message(mismatches: nat, device: Seq<char>) -> Seq<char> {
    decimal(mismatches) + " of "@ + decimal(VERIFY_COUNT as nat)
        + " chain steps mismatched between "@ + device + " and CPU"@
}

/// Compares the chain that a device computed from the fixed start with the
/// same chain computed here, step by step: the public key of each scalar
/// directly, and the scalar itself.
pub fn compare_chain(keys: &[u8], scalars: &[u8]) -> (report: ChainReport)
    requires
        keys@.len() == 32 * VERIFY_COUNT,
        scalars@.len() == 32 * VERIFY_COUNT,
    ensures
        report.is_on(keys@, scalars@, verify_start()),
        report.mismatches@.len() == 0 <==> forall|i: nat|
            i < VERIFY_COUNT ==> #[trigger] step_agrees(keys@, scalars@, verify_start(), i),
        report.mismatches@.len() == 0 ==> forall|i: nat|
            i < 64 ==> {
                let value = (le_value(verify_start()) + 8 * i) % pow2(256);
                &&& #[trigger] step_agrees(keys@, scalars@, verify_start(), i)
                &&& keys@.subrange(32 * i as int, 32 * i as int + 32) == base_encoding(
                    value % group_order(),
                )
                &&& le_value(scalars@.subrange(32 * i as int, 32 * i as int + 32)) == value
            },
        report.mismatches@.len() > 0 ==> exists|i: nat|
            {
                let value = (le_value(verify_start()) + 8 * i) % pow2(256);
                &&& i < 64
                &&& !#[trigger] step_agrees(keys@, scalars@, verify_start(), i)
                &&& !(keys@.subrange(32 * i as int, 32 * i as int + 32) == base_encoding(
                    value % group_order(),
                ) && le_value(scalars@.subrange(32 * i as int, 32 * i as int + 32)) == value)
            },
{
    let report = walk_chain(keys, scalars);
    proof {
        let start = verify_start();
        if report.mismatches@.len() == 0 {
            assert forall|i: nat| i < 64 implies {
                let value = (le_value(start) + 8 * i) % pow2(256);
                &&& #[trigger] step_agrees(keys@, scalars@, start, i)
                &&& keys@.subrange(32 * i as int, 32 * i as int + 32) == base_encoding(
                    value % group_order(),
                )
                &&& le_value(scalars@.subrange(32 * i as int, 32 * i as int + 32)) == value
            } by {
                law_passed_chain_is_right(keys@, scalars@, start, i);
            }
        } else {
            let i = law_failed_chain_is_wrong(keys@, scalars@, start);
            assert(!step_agrees(keys@, scalars@, start, i));
        }
    }
    report
}

/// The report on the chain that a device computed from the fixed start.
fn walk_chain(keys: &[u8], scalars: &[u8]) -> (report: ChainReport)
    requires
        keys@.len() == 32 * VERIFY_COUNT,
        scalars@.len() == 32 * VERIFY_COUNT,
    ensures
        report.is_on(keys@, scalars@, verify_start()),
        report.mismatches@.len() == 0 <==> forall|i: nat|
            i < VERIFY_COUNT ==> #[trigger] step_agrees(keys@, scalars@, verify_start(), i),
{
    let ghost start = verify_start();
    let mut host_scalar = verify_start_scalar();
    let mut pass: usize = 0;
    let mut mismatches: Vec<Mismatch> = Vec::new();
    let mut i: usize = 0;
    proof {
        crate::scalar::lemma_le_value_bound(start);
        vstd::arithmetic::div_mod::lemma_small_mod(le_value(start), pow2(256));
        lemma_mismatched_none(keys@, scalars@, start, VERIFY_COUNT as nat);
    }
    while i < VERIFY_COUNT
        invariant
            start == verify_start(),
            0 <= i <= VERIFY_COUNT,
            keys@.len() == 32 * VERIFY_COUNT,
            scalars@.len() == 32 * VERIFY_COUNT,
            le_value(host_scalar@) == advanced(le_value(start), 8 * i as nat),
            mismatches@.len() == mismatched(keys@, scalars@, start, i as nat).len(),
            mismatches@.len() < MAX_MISMATCHES,
            pass + mismatches@.len() == i,
            forall|k: int|
                0 <= k < mismatches@.len() ==> (#[trigger] mismatches@[k]).describes(
                    keys@,
                    scalars@,
                    start,
                    mismatched(keys@, scalars@, start, i as nat)[k],
                ),
            mismatched(keys@, scalars@, start, VERIFY_COUNT as nat).len() == 0 <==> forall|j: nat|
                j < VERIFY_COUNT ==> #[trigger] step_agrees(keys@, scalars@, start, j),
        decreases VERIFY_COUNT - i,
    {
        let host_key = scalar_public_key(&host_scalar);
        let device_key = bytes32_at(keys, 32 * i);
        let device_scalar = bytes32_at(scalars, 32 * i);
        proof {
            law_le_bytes_read_back(host_scalar@);
        }
        if same_bytes(&device_key, &host_key) && same_bytes(&device_scalar, &host_scalar) {
            pass = pass + 1;
        } else {
            mismatches.push(
                Mismatch { index: i, host_key, device_key, host_scalar, device_scalar },
            );
            if mismatches.len() >= MAX_MISMATCHES {
                proof {
                    lemma_mismatched_prefix(
                        keys@,
                        scalars@,
                        start,
                        (i + 1) as nat,
                        VERIFY_COUNT as nat,
                    );
                    let some = mismatched(keys@, scalars@, start, (i + 1) as nat);
                    let all = mismatched(keys@, scalars@, start, VERIFY_COUNT as nat);
                    assert(some.len() == MAX_MISMATCHES && some[MAX_MISMATCHES - 1] == i);
                    assert forall|k: int| 0 <= k < some.len() implies all[k] == some[k] by {
                        assert(all.subrange(0, some.len() as int)[k] == all[k]);
                    }
                }
                return ChainReport { pass, mismatches };
            }
        }
        proof {
            law_advance_composes(le_value(start), 8 * i as nat, 8);
        }
        advance_scalar(&mut host_scalar, 8);
        i = i + 1;
    }
    ChainReport { pass, mismatches }
}

/// The mismatches of fewer steps are the first of those of more.
proof fn lemma_mismatched_prefix(
    keys: Seq<u8>,
    scalars: Seq<u8>,
    start: Seq<u8>,
    few: nat,
    many: nat,
)
    requires
        few <= many,
    ensures
        mismatched(keys, scalars, start, few).is_prefix_of(
            mismatched(keys, scalars, start, many),
        ),
    decreases many,
{
    if few < many {
        lemma_mismatched_prefix(keys, scalars, start, few, (many - 1) as nat);
    }
}

/// Nothing is mismatched where every step agrees, and only there.
proof fn lemma_mismatched_none(keys: Seq<u8>, scalars: Seq<u8>, start: Seq<u8>, n: nat)
    ensures
        mismatched(keys, scalars, start, n).len() == 0 <==> forall|i: nat|
            i < n ==> #[trigger] step_agrees(keys, scalars, start, i),
    decreases n,
{
    if n > 0 {
        let last = (n - 1) as nat;
        lemma_mismatched_none(keys, scalars, start, last);
        if mismatched(keys, scalars, start, n).len() == 0 {
            assert forall|i: nat| i < n implies #[trigger] step_agrees(
                keys,
                scalars,
                start,
                i,
            ) by {
                if i < last {
                } else {
                    assert(i == last);
                }
            }
        }
    }
}

/// Launches do not repeat each other: as long as the scalars of two launches
/// stay below `2^256`, no scalar of the second, which starts where the first
/// ended, is one of the first.
pub proof fn law_launches_do_not_overlap(start: nat, keys: nat, i: nat, j: nat)
    requires
        start + 8 * keys < pow2(256),
        i < keys,
        j < keys,
    ensures
        start + 8 * i < advanced(start, 8 * keys) + 8 * j,
{
    vstd::arithmetic::div_mod::lemma_small_mod(start + 8 * keys, pow2(256));
}

/// The launches of one searcher are one walk: the `n`-th starts `n` times the
/// keys of a launch behind the first, and the one behind it follows on.
pub proof fn law_launches_continue(start: nat, keys: nat, n: nat, i: nat)
    ensures
        advanced(advanced(start, 8 * (n * keys)), 8 * keys) == advanced(
            start,
            8 * ((n + 1) * keys),
        ),
        advanced(advanced(start, 8 * (n * keys)), 8 * i) == advanced(start, 8 * (n * keys + i)),
{
    law_advance_composes(start, 8 * (n * keys), 8 * keys);
    law_advance_composes(start, 8 * (n * keys), 8 * i);
    assert((n + 1) * keys == n * keys + keys) by (nonlinear_arith);
}

/// Successive launches cover fresh scalars: from any start, the `m`-th and the
/// `n`-th launch of a searcher have no scalar in common, as long as all the
/// scalars from the one through the other are no more than there are.
pub proof fn law_launches_cover_fresh_scalars(
    start: nat,
    keys: nat,
    m: nat,
    n: nat,
    i: nat,
    j: nat,
)
    requires
        m < n,
        8 * keys * (n + 1 - m) <= pow2(256),
        i < keys,
        j < keys,
    ensures
        advanced(start, 8 * (m * keys + i)) != advanced(start, 8 * (n * keys + j)),
{
    let first = (start + 8 * (m * keys + i)) as int;
    let second = (start + 8 * (n * keys + j)) as int;
    let all = pow2(256) as int;
    assert(0 < second - first < all) by (nonlinear_arith)
        requires
            m < n,
            8 * keys * (n + 1 - m) <= all,
            0 <= i < keys,
            0 <= j < keys,
            first == start + 8 * (m * keys + i),
            second == start + 8 * (n * keys + j),
    {
        let gap = (n - m) as int;
        assert(n * keys - m * keys == gap * keys);
        assert(gap * keys >= keys);
        assert(8 * keys * (gap + 1) == 8 * (gap * keys) + 8 * keys);
    }
    lemma_apart(first, second, all);
}

/// Numbers that are less than the modulus apart have different remainders.
proof fn lemma_apart(a: int, b: int, modulus: int)
    requires
        0 <= a,
        0 < b - a < modulus,
    ensures
        a % modulus != b % modulus,
{
    vstd::arithmetic::div_mod::lemma_fundamental_div_mod(a, modulus);
    vstd::arithmetic::div_mod::lemma_fundamental_div_mod(b, modulus);
    if a % modulus == b % modulus {
        let steps = b / modulus - a / modulus;
        assert(b - a == modulus * steps) by (nonlinear_arith)
            requires
                a == modulus * (a / modulus) + a % modulus,
                b == modulus * (b / modulus) + b % modulus,
                a % modulus == b % modulus,
                steps == b / modulus - a / modulus,
        ;
        assert(false) by (nonlinear_arith)
            requires
                0 < b - a < modulus,
                b - a == modulus * steps,
        ;
    }
}

/// The scalar of a step has 32 bytes and is `8 * i` behind the start.
pub proof fn law_chain_scalar(start: Seq<u8>, i: nat)
    ensures
        chain_scalar(start, i).len() == 32,
        le_value(chain_scalar(start, i)) == (le_value(start) + 8 * i) % pow2(256),
{
    let value = advanced(le_value(start), 8 * i);
    law_le_bytes_write(value, 32);
    vstd::arithmetic::power2::lemma_pow2_pos(256);
    vstd::arithmetic::div_mod::lemma_mod_twice(
        (le_value(start) + 8 * i) as int,
        pow2(256) as int,
    );
}

/// A step agrees exactly where the device has the scalar that is `8 * i` behind
/// the start, and the encoding of that multiple of the base point.
pub proof fn law_step_agrees(keys: Seq<u8>, scalars: Seq<u8>, start: Seq<u8>, i: nat)
    requires
        32 * i + 32 <= keys.len(),
        32 * i + 32 <= scalars.len(),
    ensures
        step_agrees(keys, scalars, start, i) <==> {
            let value = (le_value(start) + 8 * i) % pow2(256);
            &&& keys.subrange(32 * i as int, 32 * i as int + 32) == base_encoding(
                value % group_order(),
            )
            &&& le_value(scalars.subrange(32 * i as int, 32 * i as int + 32)) == value
        },
{
    law_chain_scalar(start, i);
    let here = scalars.subrange(32 * i as int, 32 * i as int + 32);
    if le_value(here) == le_value(chain_scalar(start, i)) {
        law_le_value_injective(here, chain_scalar(start, i));
    }
}

/// The mismatches among the first steps are those that do not agree, each once
/// and in order.
pub proof fn law_mismatched(keys: Seq<u8>, scalars: Seq<u8>, start: Seq<u8>, n: nat)
    ensures
        forall|i: nat| #[trigger]
            mismatched(keys, scalars, start, n).contains(i) <==> i < n && !step_agrees(
                keys,
                scalars,
                start,
                i,
            ),
        forall|a: int, b: int|
            0 <= a < b < mismatched(keys, scalars, start, n).len() ==> #[trigger] mismatched(
                keys,
                scalars,
                start,
                n,
            )[a] < #[trigger] mismatched(keys, scalars, start, n)[b],
    decreases n,
{
    if n > 0 {
        let last = (n - 1) as nat;
        law_mismatched(keys, scalars, start, last);
        let before = mismatched(keys, scalars, start, last);
        let all = mismatched(keys, scalars, start, n);
        assert forall|i: nat| #[trigger] all.contains(i) <==> i < n && !step_agrees(
            keys,
            scalars,
            start,
            i,
        ) by {
            if !step_agrees(keys, scalars, start, last) {
                assert(all =~= before.push(last));
                assert(all[before.len() as int] == last);
                if before.contains(i) {
                    let k = choose|k: int| 0 <= k < before.len() && before[k] == i;
                    assert(all[k] == i);
                }
                if all.contains(i) && i != last {
                    let k = choose|k: int| 0 <= k < all.len() && all[k] == i;
                    assert(before[k] == i);
                }
            }
        }
        assert forall|a: int, b: int| 0 <= a < b < all.len() implies #[trigger] all[a]
            < #[trigger] all[b] by {
            assert(before.contains(before[a]));
        }
    }
}

/// Where a comparison of all 64 steps finds nothing, the device has at every
/// step the right scalar and the right key.
pub proof fn law_passed_chain_is_right(keys: Seq<u8>, scalars: Seq<u8>, start: Seq<u8>, i: nat)
    requires
        keys.len() == 2048,
        scalars.len() == 2048,
        mismatched(keys, scalars, start, 64).len() == 0,
        i < 64,
    ensures
        keys.subrange(32 * i as int, 32 * i as int + 32) == base_encoding(
            (le_value(start) + 8 * i) % pow2(256) % group_order(),
        ),
        le_value(scalars.subrange(32 * i as int, 32 * i as int + 32)) == (le_value(start) + 8 * i)
            % pow2(256),
{
    lemma_mismatched_none(keys, scalars, start, 64);
    assert(step_agrees(keys, scalars, start, i));
    law_step_agrees(keys, scalars, start, i);
}

/// Where a comparison of all 64 steps finds something, there is a step at which
/// the device has a wrong scalar or a wrong key.
pub proof fn law_failed_chain_is_wrong(keys: Seq<u8>, scalars: Seq<u8>, start: Seq<u8>) -> (i: nat)
    requires
        keys.len() == 2048,
        scalars.len() == 2048,
        mismatched(keys, scalars, start, 64).len() > 0,
    ensures
        i < 64,
        !step_agrees(keys, scalars, start, i),
        !(keys.subrange(32 * i as int, 32 * i as int + 32) == base_encoding(
            (le_value(start) + 8 * i) % pow2(256) % group_order(),
        ) && le_value(scalars.subrange(32 * i as int, 32 * i as int + 32)) == (le_value(start) + 8
            * i) % pow2(256)),
{
    law_mismatched(keys, scalars, start, 64);
    let i = mismatched(keys, scalars, start, 64)[0];
    assert(mismatched(keys, scalars, start, 64).contains(i));
    law_step_agrees(keys, scalars, start, i);
    i
}

/// Whatever byte of a right pair of buffers is changed, in the keys or in the
/// scalars, the step that it belongs to is a mismatch.
pub proof fn law_changed_byte_is_noticed(
    keys: Seq<u8>,
    scalars: Seq<u8>,
    start: Seq<u8>,
    at: int,
    byte: u8,
)
    requires
        keys.len() == 2048,
        scalars.len() == 2048,
        mismatched(keys, scalars, start, 64).len() == 0,
        0 <= at < 2048,
    ensures
        byte != keys[at] ==> mismatched(keys.update(at, byte), scalars, start, 64) == seq![
            (at / 32) as nat,
        ],
        byte != scalars[at] ==> mismatched(keys, scalars.update(at, byte), start, 64) == seq![
            (at / 32) as nat,
        ],
{
    lemma_mismatched_none(keys, scalars, start, 64);
    let step = (at / 32) as nat;
    let changed_keys = keys.update(at, byte);
    let changed_scalars = scalars.update(at, byte);
    if byte != keys[at] {
        assert forall|i: nat| i < 64 implies (#[trigger] step_agrees(
            changed_keys,
            scalars,
            start,
            i,
        ) <==> i != step) by {
            assert(step_agrees(keys, scalars, start, i));
            if i == step {
                assert(slot(changed_keys, i)[at - 32 * i] == byte);
                assert(slot(keys, i)[at - 32 * i] == keys[at]);
            } else {
                assert(slot(changed_keys, i) =~= slot(keys, i));
            }
        }
        lemma_one_mismatch(changed_keys, scalars, start, step, 64);
    }
    if byte != scalars[at] {
        assert forall|i: nat| i < 64 implies (#[trigger] step_agrees(
            keys,
            changed_scalars,
            start,
            i,
        ) <==> i != step) by {
            assert(step_agrees(keys, scalars, start, i));
            if i == step {
                assert(slot(changed_scalars, i)[at - 32 * i] == byte);
                assert(slot(scalars, i)[at - 32 * i] == scalars[at]);
            } else {
                assert(slot(changed_scalars, i) =~= slot(scalars, i));
            }
        }
        lemma_one_mismatch(keys, changed_scalars, start, step, 64);
    }
}

/// Where one step alone does not agree, it alone is a mismatch.
proof fn lemma_one_mismatch(keys: Seq<u8>, scalars: Seq<u8>, start: Seq<u8>, step: nat, n: nat)
    requires
        forall|i: nat|
            i < n ==> (#[trigger] step_agrees(keys, scalars, start, i) <==> i != step),
    ensures
        mismatched(keys, scalars, start, n) == if step < n {
            seq![step]
        } else {
            Seq::empty()
        },
    decreases n,
{
    if n > 0 {
        lemma_one_mismatch(keys, scalars, start, step, (n - 1) as nat);
        assert(mismatched(keys, scalars, start, n) =~= if step < n {
            seq![step]
        } else {
            Seq::empty()
        });
    }
}

/// What a report on two buffers tells: at most five steps, those of the least
/// index that do not agree, each with what host and device have there; and how
/// many steps agree, of all of them or of those before the fifth mismatch.
pub proof fn law_report(report: ChainReport, keys: Seq<u8>, scalars: Seq<u8>, start: Seq<u8>)
    requires
        report.is_on(keys, scalars, start),
    ensures
        report.mismatches@.len() <= 5,
        forall|k: int|
            0 <= k < report.mismatches@.len() ==> {
                let m = #[trigger] report.mismatches@[k];
                &&& m.index < 64
                &&& !step_agrees(keys, scalars, start, m.index as nat)
                &&& m.host_scalar@ == chain_scalar(start, m.index as nat)
                &&& m.host_key@ == public_key_of(chain_scalar(start, m.index as nat))
                &&& m.device_key@ == keys.subrange(32 * m.index as int, 32 * m.index as int + 32)
                &&& m.device_scalar@ == scalars.subrange(
                    32 * m.index as int,
                    32 * m.index as int + 32,
                )
            },
        forall|a: int, b: int|
            0 <= a < b < report.mismatches@.len() ==> (#[trigger] report.mismatches@[a]).index < (
            #[trigger] report.mismatches@[b]).index,
        report.mismatches@.len() < 5 ==> {
            &&& report.pass + report.mismatches@.len() == 64
            &&& forall|i: nat|
                i < 64 && !(#[trigger] step_agrees(keys, scalars, start, i)) ==> exists|k: int|
                    0 <= k < report.mismatches@.len() && (#[trigger] report.mismatches@[k]).index
                        == i
        },
        report.mismatches@.len() == 5 ==> {
            let fifth = report.mismatches@[4].index;
            &&& report.pass + 4 == fifth
            &&& forall|i: nat|
                i < fifth && !(#[trigger] step_agrees(keys, scalars, start, i)) ==> exists|k: int|
                    0 <= k < report.mismatches@.len() && (#[trigger] report.mismatches@[k]).index
                        == i
        },
{
    law_mismatched(keys, scalars, start, 64);
    let all = mismatched(keys, scalars, start, 64);
    assert forall|k: int| 0 <= k < report.mismatches@.len() implies {
        let m = #[trigger] report.mismatches@[k];
        &&& m.index == all[k]
        &&& m.index < 64
        &&& !step_agrees(keys, scalars, start, m.index as nat)
    } by {
        assert(report.mismatches@[k].describes(keys, scalars, start, all[k]));
        assert(all.contains(all[k]));
    }
    assert forall|i: nat|
        {
            &&& i < 64
            &&& report.mismatches@.len() == 5 ==> i < report.mismatches@[4].index
            &&& !(#[trigger] step_agrees(keys, scalars, start, i))
        } implies exists|k: int|
        0 <= k < report.mismatches@.len() && (#[trigger] report.mismatches@[k]).index == i by {
        assert(all.contains(i));
        let k = choose|k: int| 0 <= k < all.len() && all[k] == i;
        if k >= report.mismatches@.len() {
            assert(all[4] < all[k] || k == 4);
            assert(report.mismatches@[4].index == all[4]);
        }
        assert(report.mismatches@[k].index == i);
    }
}

/// The lines on mismatches come one after the other, and five of them end with
/// the notice that nothing more was looked at.
pub proof fn law_report_lines(mismatches: Seq<Mismatch>, last: Mismatch)
    ensures
        all_lines(Seq::empty()) == Seq::<char>::empty(),
        all_lines(mismatches.push(last)) == all_lines(mismatches) + last.lines(),
        last.lines() == "MISMATCH idx #"@ + decimal(last.index as nat) + "\n  CPU pubkey:  "@
            + hex_upper(last.host_key@) + "\n  GPU pubkey:  "@ + hex_upper(last.device_key@)
            + "\n  expected scalar: "@ + hex_upper(last.host_scalar@) + "\n  GPU scalar:      "@
            + hex_upper(last.device_scalar@) + "\n"@,
        stop_notice(mismatches.len()) == if mismatches.len() < 5 {
            Seq::<char>::empty()
        } else {
            "  (stopping after 5 mismatches)\n"@
        },
{
    assert(mismatches.push(last).drop_last() =~= mismatches);
}

/// The messages on a refused key and on a failed verification hold what they
/// are about.
pub proof fn law_device_messages(
    scalar: Seq<u8>,
    device_key: Seq<u8>,
    host_key: Seq<u8>,
    mismatches: nat,
    device: Seq<char>,
)
    ensures
        mismatch_message(scalar, device_key, host_key)
            == "GPU match validation failed: scalar·B != pubkey\n  scalar:  "@ + hex_upper(scalar)
            + "\n  GPU pub: "@ + hex_upper(device_key) + "\n  CPU pub: "@ + hex_upper(host_key),
        failure_message(mismatches, device) == decimal(mismatches) + " of "@ + decimal(64)
            + " chain steps mismatched between "@ + device + " and CPU"@,
{
}

/// The result buffer holds a flag in bytes 0 to 3, which reports a key unless
/// all four are zero, the public key in bytes 4 to 35 and the scalar in bytes 36
/// to 67.
pub proof fn law_result_layout(result: Seq<u8>)
    requires
        result.len() == 100,
    ensures
        reports_key(result) <==> !(result[0] == 0 && result[1] == 0 && result[2] == 0 && result[3]
            == 0),
        reported_key(result).len() == 32,
        forall|i: int| 0 <= i < 32 ==> #[trigger] reported_key(result)[i] == result[4 + i],
        reported_scalar(result).len() == 32,
        forall|i: int| 0 <= i < 32 ==> #[trigger] reported_scalar(result)[i] == result[36 + i],
{
    crate::packing::law_word_at(result, 0);
}

} // verus!
