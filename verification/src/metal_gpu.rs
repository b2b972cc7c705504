//! The host side of a search on a Metal device.

use crate::device::{
    checked_result, compare_chain, device_keypair, failure_message, mismatch_message,
    reported_key, reported_scalar, reports_key, step_agrees, verify_start, ChainReport,
    ITERS_PER_THREAD, RESULT_LEN, VERIFY_COUNT,
};
use crate::entropy::{random_bytes, random_start_scalar};
use crate::hex_text::is_hex_text;
use crate::keygen::{keys_agree, public_key_of};
use crate::packing::{pack_prefixes, packed, read_word, word_at};
use crate::scalar::{advance_scalar, advanced, clamp_scalar, clamped, is_clamped, le_value};
use crate::search::GpuBatchResult;
use crate::text::texts;
use vstd::prelude::*;

verus! {

/// Most threads of a threadgroup.
pub const BLOCK_SIZE: u64 = 256;

/// Threadgroups of a launch.
pub const THREADGROUPS: u64 = 64;

/// Errors of a Metal device.
#[derive(Debug)]
pub enum MetalError {
    NoMetalDevice,
    Compilation(String),
    Runtime(String),
}

impl MetalError {
    /// The message for a user.
    pub open spec fn text(&self) -> Seq<char> {
        match self {
            MetalError::NoMetalDevice => "no Metal-capable GPU found"@,
            MetalError::Compilation(e) => "Metal kernel compilation error: "@ + e@,
            MetalError::Runtime(e) => "Metal runtime error: "@ + e@,
        }
    }

    /// The message for a user.
    pub fn message(&self) -> (message: String)
        ensures
            message@ == self.text(),
    {
        match self {
            MetalError::NoMetalDevice => String::from_str("no Metal-capable GPU found"),
            MetalError::Compilation(e) => {
                let mut message = String::from_str("Metal kernel compilation error: ");
                message.append(e.as_str());
                message
            },
            MetalError::Runtime(e) => {
                let mut message = String::from_str("Metal runtime error: ");
                message.append(e.as_str());
                message
            },
        }
    }
}

/// The name that a Metal device goes by.
pub fn metal_device_name(name: &str) -> (label: String)
    ensures
        label@ == "Metal GPU ("@ + name@ + ")"@,
{
    let mut label = String::from_str("Metal GPU (");
    label.append(name);
    label.append(")");
    label
}

/// Threads of a threadgroup on a device that allows `max_threads` of them.
pub open spec fn group_size(max_threads: nat) -> nat {
    if max_threads < BLOCK_SIZE {
        max_threads
    } else {
        BLOCK_SIZE as nat
    }
}

/// What the host keeps of a vanity key search on a Metal device: the shape of a
/// launch, the prefixes as the kernel reads them, and the scalar that the next
/// launch starts from.
pub struct MetalSearcher {
    prefix_data: Vec<u8>,
    prefix_count: u32,
    grid_size: u64,
    threadgroup_size: u64,
    device_name: String,
    start_scalar: [u8; 32],
}

impl MetalSearcher {
    /// Threads of a threadgroup.
    pub closed spec fn threadgroup(&self) -> nat {
        self.threadgroup_size as nat
    }

    /// The buffer that the kernel reads the prefixes from.
    pub closed spec fn prefixes(&self) -> Seq<u8> {
        self.prefix_data@
    }

    /// The number of prefixes in the buffer.
    pub closed spec fn count(&self) -> nat {
        self.prefix_count as nat
    }

    /// The name of the device.
    pub closed spec fn name(&self) -> Seq<char> {
        self.device_name@
    }

    /// The scalar that the next launch starts from. Each thread tries
    /// `start + 8 * (thread * iterations + iteration)`.
    pub closed spec fn start(&self) -> Seq<u8> {
        self.start_scalar@
    }

    /// Threads of a launch.
    pub open spec fn grid(&self) -> nat {
        self.threadgroup() * 64
    }

    /// Keys that one launch tries.
    pub open spec fn launch_keys(&self) -> nat {
        self.grid() * 256
    }

    /// The shape of a launch is sound.
    pub closed spec fn wf(&self) -> bool {
        &&& self.threadgroup_size <= BLOCK_SIZE
        &&& self.grid_size == self.threadgroup_size * THREADGROUPS
    }

    /// Whether only the start of the next launch changed.
    pub open spec fn same_setup(&self, other: &MetalSearcher) -> bool {
        &&& self.threadgroup() == other.threadgroup()
        &&& self.prefixes() == other.prefixes()
        &&& self.count() == other.count()
        &&& self.name() == other.name()
    }

    /// Prepares a search from 32 bytes, clamped to the first scalar. A launch
    /// has 64 threadgroups of at most 256 threads each.
    pub fn with_start(prefixes: &[String], max_threads: u64, name: &str, start: &[u8; 32]) -> (searcher:
        MetalSearcher)
        requires
            prefixes@.len() <= u32::MAX,
            forall|i: int|
                0 <= i < prefixes@.len() ==> is_hex_text((#[trigger] prefixes@[i])@)
                    && prefixes@[i]@.len() <= u32::MAX,
        ensures
            searcher.wf(),
            searcher.threadgroup() == group_size(max_threads as nat),
            searcher.prefixes() == packed(texts(prefixes@)),
            searcher.count() == prefixes@.len(),
            searcher.name() == "Metal GPU ("@ + name@ + ")"@,
            searcher.start() == clamped(start@),
            is_clamped(searcher.start()),
    {
        let mut start_scalar: [u8; 32] = *start;
        clamp_scalar(&mut start_scalar);
        let threadgroup_size: u64 = if max_threads < BLOCK_SIZE {
            max_threads
        } else {
            BLOCK_SIZE
        };
        MetalSearcher {
            prefix_data: pack_prefixes(prefixes),
            prefix_count: prefixes.len() as u32,
            grid_size: threadgroup_size * THREADGROUPS,
            threadgroup_size,
            device_name: metal_device_name(name),
            start_scalar,
        }
    }

    /// Prepares a search from drawn bytes, if any were drawn.
    pub fn from_draw(
        prefixes: &[String],
        max_threads: u64,
        name: &str,
        start: Option<[u8; 32]>,
    ) -> (searcher: Option<MetalSearcher>)
        requires
            prefixes@.len() <= u32::MAX,
            forall|i: int|
                0 <= i < prefixes@.len() ==> is_hex_text((#[trigger] prefixes@[i])@)
                    && prefixes@[i]@.len() <= u32::MAX,
        ensures
            searcher is Some <==> start is Some,
            searcher matches Some(s) ==> {
                &&& s.wf()
                &&& s.threadgroup() == group_size(max_threads as nat)
                &&& s.prefixes() == packed(texts(prefixes@))
                &&& s.count() == prefixes@.len()
                &&& s.name() == "Metal GPU ("@ + name@ + ")"@
                &&& s.start() == clamped(start->0@)
                &&& is_clamped(s.start())
            },
    {
        match start {
            Some(bytes) => Some(MetalSearcher::with_start(prefixes, max_threads, name, &bytes)),
            None => None,
        }
    }

    /// Prepares a search from a random scalar; `None` if the operating system
    /// has no random bytes to give.
    pub fn new(prefixes: &[String], max_threads: u64, name: &str) -> (searcher: Option<
        MetalSearcher,
    >)
        requires
            prefixes@.len() <= u32::MAX,
            forall|i: int|
                0 <= i < prefixes@.len() ==> is_hex_text((#[trigger] prefixes@[i])@)
                    && prefixes@[i]@.len() <= u32::MAX,
        ensures
            searcher matches Some(s) ==> {
                &&& s.wf()
                &&& s.threadgroup() == group_size(max_threads as nat)
                &&& s.prefixes() == packed(texts(prefixes@))
                &&& s.count() == prefixes@.len()
                &&& s.name() == "Metal GPU ("@ + name@ + ")"@
                &&& is_clamped(s.start())
            },
            exists|start: Option<[u8; 32]>|
                {
                    &&& #[trigger] call_ensures(random_start_scalar, (), start)
                    &&& searcher is Some <==> start is Some
                    &&& searcher matches Some(s) ==> s.start() == clamped(start->0@)
                },
    {
        MetalSearcher::from_draw(prefixes, max_threads, name, random_start_scalar())
    }

    /// The name of the device.
    pub fn device_name(&self) -> (name: &str)
        ensures
            name@ == self.name(),
    {
        self.device_name.as_str()
    }

    /// Threads of a launch.
    pub fn grid_size(&self) -> (grid: u64)
        requires
            self.wf(),
        ensures
            grid == self.grid(),
    {
        self.grid_size
    }

    /// Threads of a threadgroup.
    pub fn threadgroup_size(&self) -> (threads: u64)
        ensures
            threads == self.threadgroup(),
    {
        self.threadgroup_size
    }

    /// The buffer that the kernel reads the prefixes from.
    pub fn prefix_data(&self) -> (data: &Vec<u8>)
        ensures
            data@ == self.prefixes(),
    {
        &self.prefix_data
    }

    /// The number of prefixes in the buffer.
    pub fn prefix_count(&self) -> (count: u32)
        ensures
            count == self.count(),
    {
        self.prefix_count
    }

    /// The scalar that the next launch starts from.
    pub fn start_scalar(&self) -> (start: [u8; 32])
        ensures
            start@ == self.start(),
    {
        self.start_scalar
    }

    /// Keys that one launch tries.
    pub fn keys_per_launch(&self) -> (keys: u64)
        requires
            self.wf(),
        ensures
            keys == self.launch_keys(),
            keys <= 256 * 64 * 256,
    {
        self.grid_size * ITERS_PER_THREAD
    }

    /// Moves the start behind the keys of one launch.
    fn advance(&mut self) -> (keys_checked: u64)
        requires
            old(self).wf(),
        ensures
            keys_checked == old(self).launch_keys(),
            final(self).same_setup(old(self)),
            final(self).wf(),
            le_value(final(self).start()) == advanced(
                le_value(old(self).start()),
                8 * old(self).launch_keys(),
            ),
    {
        let keys_checked: u64 = self.keys_per_launch();
        advance_scalar(&mut self.start_scalar, 8u64.wrapping_mul(keys_checked));
        keys_checked
    }

    /// Takes in what a launch of the count kernel left in its counter: the
    /// keys tried and the matches among them. The next launch starts behind
    /// those keys.
    pub fn count_batch(&mut self, counter: &[u8]) -> (counts: (u64, u32))
        requires
            old(self).wf(),
            counter@.len() == 4,
        ensures
            counts.0 == old(self).launch_keys(),
            counts.1 == word_at(counter@, 0),
            final(self).same_setup(old(self)),
            final(self).wf(),
            le_value(final(self).start()) == advanced(
                le_value(old(self).start()),
                8 * old(self).launch_keys(),
            ),
    {
        let matches: u32 = read_word(counter, 0);
        let keys_checked: u64 = self.advance();
        (keys_checked, matches)
    }

    /// Takes in what a launch of the search kernel left in its result buffer,
    /// with drawn bytes, if any were drawn, for the second half of a private
    /// key. A reported key is refused unless it is the public key of the scalar
    /// beside it, and cannot be taken without drawn bytes; only where nothing
    /// fails does the next launch start behind the keys of this one.
    pub fn take_drawn(&mut self, result: &[u8], drawn: Option<[u8; 32]>) -> (outcome: Result<
        GpuBatchResult,
        MetalError,
    >)
        requires
            old(self).wf(),
            result@.len() == RESULT_LEN,
        ensures
            final(self).same_setup(old(self)),
            final(self).wf(),
            outcome is Err <==> reports_key(result@) && (reported_key(result@) != public_key_of(
                reported_scalar(result@),
            ) || drawn is None),
            match outcome {
                Ok(batch) => {
                    &&& batch.keys_checked == old(self).launch_keys()
                    &&& batch.keypair is Some <==> reports_key(result@)
                    &&& batch.keypair matches Some(k) ==> {
                        &&& k.public_key@ == reported_key(result@)
                        &&& k.private_key@ == reported_scalar(result@) + drawn->0@
                        &&& keys_agree(k)
                    }
                    &&& le_value(final(self).start()) == advanced(
                        le_value(old(self).start()),
                        8 * old(self).launch_keys(),
                    )
                },
                Err(error) => {
                    &&& final(self).start() == old(self).start()
                    &&& error matches MetalError::Runtime(message)
                    &&& message@ == if reported_key(result@) != public_key_of(
                        reported_scalar(result@),
                    ) {
                        mismatch_message(
                            reported_scalar(result@),
                            reported_key(result@),
                            public_key_of(reported_scalar(result@)),
                        )
                    } else {
                        "no random bytes available"@
                    }
                },
            },
    {
        let keypair = match checked_result(result) {
            Err(message) => {
                return Err(MetalError::Runtime(message));
            },
            Ok(None) => None,
            Ok(Some(key)) => match drawn {
                Some(half) => Some(device_keypair(&key, &half)),
                None => {
                    return Err(MetalError::Runtime(String::from_str("no random bytes available")));
                },
            },
        };
        let keys_checked: u64 = self.advance();
        Ok(GpuBatchResult { keys_checked, keypair })
    }

    /// Takes in what a launch of the search kernel left in its result buffer,
    /// with 32 bytes for the second half of a private key. A reported key is
    /// refused unless it is the public key of the scalar beside it; only where
    /// nothing is refused does the next launch start behind the keys of this
    /// one.
    pub fn take_batch(&mut self, result: &[u8], half: &[u8; 32]) -> (outcome: Result<
        GpuBatchResult,
        MetalError,
    >)
        requires
            old(self).wf(),
            result@.len() == RESULT_LEN,
        ensures
            final(self).same_setup(old(self)),
            final(self).wf(),
            outcome is Err <==> reports_key(result@) && reported_key(result@) != public_key_of(
                reported_scalar(result@),
            ),
            match outcome {
                Ok(batch) => {
                    &&& batch.keys_checked == old(self).launch_keys()
                    &&& batch.keypair is Some <==> reports_key(result@)
                    &&& batch.keypair matches Some(k) ==> {
                        &&& k.public_key@ == reported_key(result@)
                        &&& k.private_key@ == reported_scalar(result@) + half@
                        &&& keys_agree(k)
                    }
                    &&& le_value(final(self).start()) == advanced(
                        le_value(old(self).start()),
                        8 * old(self).launch_keys(),
                    )
                },
                Err(error) => {
                    &&& final(self).start() == old(self).start()
                    &&& error matches MetalError::Runtime(message)
                    &&& message@ == mismatch_message(
                        reported_scalar(result@),
                        reported_key(result@),
                        public_key_of(reported_scalar(result@)),
                    )
                },
            },
    {
        self.take_drawn(result, Some(*half))
    }

    /// Takes in what a launch of the search kernel left in its result buffer,
    /// with random bytes for the second half of a private key. Besides a
    /// refused key, the only error is an operating system that has no random
    /// bytes to give for a reported key.
    pub fn search_batch(&mut self, result: &[u8]) -> (outcome: Result<GpuBatchResult, MetalError>)
        requires
            old(self).wf(),
            result@.len() == RESULT_LEN,
        ensures
            final(self).same_setup(old(self)),
            final(self).wf(),
            !reports_key(result@) ==> outcome is Ok,
            reports_key(result@) ==> exists|drawn: Option<[u8; 32]>|
                {
                    &&& #[trigger] call_ensures(random_bytes, (), drawn)
                    &&& outcome is Ok <==> drawn is Some && reported_key(result@) == public_key_of(
                        reported_scalar(result@),
                    )
                    &&& outcome matches Ok(batch) ==> batch.keypair->0.private_key@
                        == reported_scalar(result@) + drawn->0@
                },
            reports_key(result@) && reported_key(result@) != public_key_of(
                reported_scalar(result@),
            ) ==> outcome is Err,
            match outcome {
                Ok(batch) => {
                    &&& batch.keys_checked == old(self).launch_keys()
                    &&& batch.keypair is Some <==> reports_key(result@)
                    &&& batch.keypair matches Some(k) ==> {
                        &&& k.public_key@ == reported_key(result@)
                        &&& k.private_key@.take(32) == reported_scalar(result@)
                        &&& keys_agree(k)
                    }
                    &&& le_value(final(self).start()) == advanced(
                        le_value(old(self).start()),
                        8 * old(self).launch_keys(),
                    )
                },
                Err(error) => {
                    &&& final(self).start() == old(self).start()
                    &&& error matches MetalError::Runtime(message)
                    &&& message@ == if reported_key(result@) != public_key_of(
                        reported_scalar(result@),
                    ) {
                        mismatch_message(
                            reported_scalar(result@),
                            reported_key(result@),
                            public_key_of(reported_scalar(result@)),
                        )
                    } else {
                        "no random bytes available"@
                    }
                },
            },
    {
        let drawn: Option<[u8; 32]> = if read_word(result, 0) == 0 {
            None
        } else {
            random_bytes()
        };
        proof {
            if drawn is Some {
                assert((reported_scalar(result@) + drawn->0@).take(32) =~= reported_scalar(
                    result@,
                ));
            }
        }
        self.take_drawn(result, drawn)
    }
}

/// Compares the chain that the verification kernel computed with the same
/// chain computed here: the report for the user, and whether it passed.
pub fn verify_gpu_keygen(keys: &[u8], scalars: &[u8]) -> (verdict: (
    ChainReport,
    Result<(), MetalError>,
))
    requires
        keys@.len() == 32 * VERIFY_COUNT,
        scalars@.len() == 32 * VERIFY_COUNT,
    ensures
        verdict.0.is_on(keys@, scalars@, verify_start()),
        verdict.1 is Ok <==> forall|i: nat|
            i < VERIFY_COUNT ==> #[trigger] step_agrees(keys@, scalars@, verify_start(), i),
        verdict.1 matches Err(error) ==> error matches MetalError::Runtime(message) && message@
            == failure_message(verdict.0.mismatches@.len(), "Metal GPU"@),
{
    let report = compare_chain(keys, scalars);
    let outcome = match report.outcome("Metal GPU") {
        Ok(()) => Ok(()),
        Err(message) => Err(MetalError::Runtime(message)),
    };
    (report, outcome)
}

/// An error is told by what kind it is and, where it has one, by its message as
/// it stands.
pub proof fn law_metal_error_text(error: MetalError)
    ensures
        error is NoMetalDevice ==> error.text() == "no Metal-capable GPU found"@,
        error matches MetalError::Compilation(e) ==> error.text()
            == "Metal kernel compilation error: "@ + e@,
        error matches MetalError::Runtime(e) ==> error.text() == "Metal runtime error: "@ + e@,
{
}

/// A threadgroup has as many threads as the device allows, at most 256, and a
/// launch tries 16,384 keys for each thread of one.
pub proof fn law_metal_launch(searcher: MetalSearcher, max_threads: nat)
    ensures
        group_size(max_threads) <= max_threads,
        group_size(max_threads) <= 256,
        group_size(max_threads) == max_threads || group_size(max_threads) == 256,
        searcher.grid() == 64 * searcher.threadgroup(),
        searcher.launch_keys() == 16384 * searcher.threadgroup(),
{
}

/// A setup is kept where threadgroup, prefixes, their count and the name are
/// kept.
pub proof fn law_metal_setup(a: MetalSearcher, b: MetalSearcher)
    ensures
        a.same_setup(&b) <==> a.threadgroup() == b.threadgroup() && a.prefixes() == b.prefixes()
            && a.count() == b.count() && a.name() == b.name(),
{
}

} // verus!
