//! The steps of a key search: what a CPU worker does with one batch of keys,
//! what the driver of a device does with one launch, and how a search ends.

use crate::chain::{batch_keys, law_chain_keys_belong_to_scalars, position_after, KeyChain};
use crate::curve::{base_encoding, group_order, CHAIN_BATCH};
use crate::entropy::{random_bytes, random_start_scalar};
use crate::hex_text::{ascii_upper, encode_upper, hex_upper, is_hex_text};
use crate::keygen::{assemble_keypair, keys_agree, public_key_of};
use crate::prefix::{
    byte_len, expected_attempts, expected_attempts_of, find_match, first_met, is_first_met,
    is_reserved, is_vanity, law_accepted_prefix, law_every_matching_key_counts,
    lemma_shortest_is_one, make_matchers, meets_any, shortest_len, validate_prefixes, validated,
    PrefixMatcher, MAX_PREFIX_LEN,
};
use crate::scalar::{advanced, is_clamped, law_clamped_range, le_value};
use crate::text::texts;
use crate::types::{MeshCoreKeypair, SearchError, SearchResult};
use vstd::arithmetic::power2::{
    lemma2_to64, lemma_pow2_adds, lemma_pow2_pos, lemma_pow2_unfold, pow2,
};
use vstd::prelude::*;

verus! {

/// Number of keys after which a worker adds its own counts to the shared ones.
pub const FLUSH_EVERY: u64 = 1024;

/// What a worker has counted since it last added to the shared counts.
pub struct Tally {
    pub keys: u64,
    pub matches: u64,
}

impl Tally {
    /// Counts stay below the threshold between batches.
    pub open spec fn wf(&self) -> bool {
        self.matches <= self.keys < FLUSH_EVERY
    }

    /// An empty tally.
    pub fn new() -> (tally: Tally)
        ensures
            tally.wf(),
            tally.keys == 0,
            tally.matches == 0,
    {
        Tally { keys: 0, matches: 0 }
    }

    /// Counts the keys and matches of one batch. Once the threshold is reached,
    /// hands out everything counted so far as `(keys, matches)` and starts over.
    pub fn record(&mut self, keys: u64, matches: u64) -> (flushed: Option<(u64, u64)>)
        requires
            old(self).wf(),
            matches <= keys <= FLUSH_EVERY,
        ensures
            final(self).wf(),
            match flushed {
                Some(f) => {
                    &&& old(self).keys + keys >= FLUSH_EVERY
                    &&& f.0 == old(self).keys + keys
                    &&& f.1 == old(self).matches + matches
                    &&& final(self).keys == 0
                    &&& final(self).matches == 0
                },
                None => {
                    &&& old(self).keys + keys < FLUSH_EVERY
                    &&& final(self).keys == old(self).keys + keys
                    &&& final(self).matches == old(self).matches + matches
                },
            },
            final(self).keys + flushed_keys(flushed) == old(self).keys + keys,
            final(self).matches + flushed_matches(flushed) == old(self).matches + matches,
    {
        self.keys = self.keys + keys;
        self.matches = self.matches + matches;
        if self.keys >= FLUSH_EVERY {
            let flushed: (u64, u64) = (self.keys, self.matches);
            self.keys = 0;
            self.matches = 0;
            Some(flushed)
        } else {
            None
        }
    }
}

/// The keys that a tally handed out.
pub open spec fn flushed_keys(flushed: Option<(u64, u64)>) -> nat {
    match flushed {
        Some(f) => f.0 as nat,
        None => 0,
    }
}

/// The matches that a tally handed out.
pub open spec fn flushed_matches(flushed: Option<(u64, u64)>) -> nat {
    match flushed {
        Some(f) => f.1 as nat,
        None => 0,
    }
}

/// How many of some keys are searched for.
pub open spec fn vanity_count(matchers: Seq<PrefixMatcher>, keys: Seq<Seq<u8>>) -> nat
    decreases keys.len(),
{
    if keys.len() == 0 {
        0
    } else {
        vanity_count(matchers, keys.drop_last()) + if is_vanity(matchers, keys.last()) {
            1nat
        } else {
            0nat
        }
    }
}

/// Whether every matcher is well formed.
pub open spec fn all_wf(matchers: Seq<PrefixMatcher>) -> bool {
    forall|i: int| 0 <= i < matchers.len() ==> (#[trigger] matchers[i]).wf()
}

/// How many of the keys of a batch are searched for.
pub fn count_vanity(matchers: &Vec<PrefixMatcher>, keys: &[[u8; 32]; CHAIN_BATCH]) -> (count: u64)
    requires
        all_wf(matchers@),
    ensures
        count == vanity_count(matchers@, keys@.map_values(|k: [u8; 32]| k@)),
        count <= CHAIN_BATCH,
{
    let ghost views = keys@.map_values(|k: [u8; 32]| k@);
    let mut count: u64 = 0;
    let mut i: usize = 0;
    while i < CHAIN_BATCH
        invariant
            all_wf(matchers@),
            views == keys@.map_values(|k: [u8; 32]| k@),
            0 <= i <= CHAIN_BATCH,
            count <= i,
            count == vanity_count(matchers@, views.take(i as int)),
        decreases CHAIN_BATCH - i,
    {
        proof {
            assert(views.take(i + 1).drop_last() =~= views.take(i as int));
            assert(views.take(i + 1).last() == keys@[i as int]@);
        }
        if find_match(matchers, &keys[i]).is_some() {
            count = count + 1;
        }
        i = i + 1;
    }
    assert(views.take(CHAIN_BATCH as int) =~= views);
    count
}

/// A match in a batch: which key and which prefix.
#[derive(Clone, Copy)]
pub struct BatchMatch {
    pub offset: usize,
    pub prefix_index: usize,
}

/// The first key of a batch that is searched for, with the first prefix that it
/// meets.
pub fn first_vanity(matchers: &Vec<PrefixMatcher>, keys: &[[u8; 32]; CHAIN_BATCH]) -> (found:
    Option<BatchMatch>)
    requires
        all_wf(matchers@),
    ensures
        match found {
            Some(m) => {
                &&& m.offset < CHAIN_BATCH
                &&& m.prefix_index < matchers@.len()
                &&& !is_reserved(keys@[m.offset as int]@)
                &&& matchers@[m.prefix_index as int]@.is_prefix_of(
                    hex_upper(keys@[m.offset as int]@),
                )
                &&& forall|j: int|
                    0 <= j < m.prefix_index ==> !(#[trigger] matchers@[j])@.is_prefix_of(
                        hex_upper(keys@[m.offset as int]@),
                    )
                &&& forall|k: int|
                    0 <= k < m.offset ==> !is_vanity(matchers@, (#[trigger] keys@[k])@)
            },
            None => forall|k: int|
                0 <= k < CHAIN_BATCH ==> !is_vanity(matchers@, (#[trigger] keys@[k])@),
        },
{
    let mut i: usize = 0;
    while i < CHAIN_BATCH
        invariant
            all_wf(matchers@),
            0 <= i <= CHAIN_BATCH,
            forall|k: int| 0 <= k < i ==> !is_vanity(matchers@, (#[trigger] keys@[k])@),
        decreases CHAIN_BATCH - i,
    {
        if let Some(prefix_index) = find_match(matchers, &keys[i]) {
            return Some(BatchMatch { offset: i, prefix_index });
        }
        i = i + 1;
    }
    None
}

/// A key that a CPU worker found: the key, its scalar, how far into the batch
/// it stood, and which prefix it met.
pub struct FoundKey {
    pub public_key: [u8; 32],
    pub scalar: [u8; 32],
    pub offset: usize,
    pub prefix_index: usize,
}

impl FoundKey {
    /// What a key found in the batch that starts at `position` is: the first
    /// key of the batch that is searched for, with the first prefix that it
    /// meets and the scalar that is as many steps ahead of `scalar`.
    pub open spec fn is_first_of(
        &self,
        matchers: Seq<PrefixMatcher>,
        position: nat,
        scalar: Seq<u8>,
    ) -> bool {
        let keys = batch_keys(position);
        &&& self.offset < CHAIN_BATCH
        &&& self.prefix_index < matchers.len()
        &&& self.public_key@ == keys[self.offset as int]
        &&& !is_reserved(self.public_key@)
        &&& matchers[self.prefix_index as int]@.is_prefix_of(hex_upper(self.public_key@))
        &&& forall|j: int|
            0 <= j < self.prefix_index ==> !(#[trigger] matchers[j])@.is_prefix_of(
                hex_upper(self.public_key@),
            )
        &&& forall|k: int| 0 <= k < self.offset ==> !is_vanity(matchers, #[trigger] keys[k])
        &&& le_value(self.scalar@) == advanced(le_value(scalar), 8 * self.offset as nat)
    }
}

/// What one batch gave a CPU worker.
pub enum CpuStep {
    /// No key of the batch is searched for; `attempts` keys are to be added to
    /// the shared count.
    Continue { attempts: u64 },
    /// A key was found; `attempts` keys are to be added to the shared count.
    Found { attempts: u64, key: FoundKey },
}

/// A CPU worker of a search: a chain of keys and a count of those tried.
pub struct CpuWorker {
    chain: KeyChain,
    tally: Tally,
}

impl CpuWorker {
    /// The scalar of the next key.
    pub closed spec fn scalar(&self) -> Seq<u8> {
        self.chain.scalar()
    }

    /// The multiple of the base point that the next key encodes.
    pub closed spec fn position(&self) -> nat {
        self.chain.position()
    }

    /// Keys tried and not yet added to the shared count.
    pub closed spec fn pending(&self) -> nat {
        self.tally.keys as nat
    }

    /// The chain and the count are well formed.
    pub closed spec fn wf(&self) -> bool {
        &&& self.chain.wf()
        &&& self.tally.wf()
        &&& self.tally.matches == 0
    }

    /// Whether the keys that follow belong to the scalars that follow.
    pub open spec fn in_lockstep(&self) -> bool {
        self.position() == le_value(self.scalar()) % group_order()
    }

    /// A worker that starts at a clamped scalar.
    pub fn new(start: &[u8; 32]) -> (worker: CpuWorker)
        requires
            is_clamped(start@),
        ensures
            worker.wf(),
            worker.in_lockstep(),
            worker.scalar() == start@,
            worker.pending() == 0,
    {
        CpuWorker { chain: KeyChain::new(start), tally: Tally::new() }
    }

    /// The worker that starts at a drawn scalar, if one was drawn.
    pub fn from_draw(start: Option<[u8; 32]>) -> (worker: Option<CpuWorker>)
        requires
            start matches Some(s) ==> is_clamped(s@),
        ensures
            worker is Some <==> start is Some,
            worker matches Some(w) ==> {
                &&& w.wf()
                &&& w.in_lockstep()
                &&& w.scalar() == start->0@
                &&& w.pending() == 0
            },
    {
        match start {
            Some(s) => Some(CpuWorker::new(&s)),
            None => None,
        }
    }

    /// A worker that starts at a random scalar; `None` if the operating system
    /// has no random bytes to give.
    pub fn from_os() -> (worker: Option<CpuWorker>)
        ensures
            worker matches Some(w) ==> {
                &&& w.wf()
                &&& w.in_lockstep()
                &&& is_clamped(w.scalar())
                &&& w.pending() == 0
            },
            exists|start: Option<[u8; 32]>|
                {
                    &&& #[trigger] call_ensures(random_start_scalar, (), start)
                    &&& worker is Some <==> start is Some
                    &&& worker matches Some(w) ==> w.scalar() == start->0@
                },
    {
        CpuWorker::from_draw(random_start_scalar())
    }

    /// Tries one batch of keys. Keys are counted up to and with the one found;
    /// without one, all of them, and the count is handed out when it reaches
    /// the threshold.
    pub fn step(&mut self, matchers: &Vec<PrefixMatcher>) -> (step: CpuStep)
        requires
            old(self).wf(),
            all_wf(matchers@),
        ensures
            final(self).wf(),
            final(self).position() == position_after(old(self).position(), CHAIN_BATCH as nat),
            le_value(final(self).scalar()) == advanced(
                le_value(old(self).scalar()),
                8 * CHAIN_BATCH as nat,
            ),
            old(self).in_lockstep() && le_value(old(self).scalar()) + 8 * CHAIN_BATCH < pow2(256)
                ==> final(self).in_lockstep(),
            match step {
                CpuStep::Found { attempts, key } => {
                    &&& key.is_first_of(matchers@, old(self).position(), old(self).scalar())
                    &&& attempts == old(self).pending() + key.offset + 1
                    &&& final(self).pending() == 0
                    &&& old(self).in_lockstep() && le_value(old(self).scalar()) + 8 * key.offset
                        < pow2(256) ==> key.public_key@ == public_key_of(key.scalar@)
                },
                CpuStep::Continue { attempts } => {
                    &&& forall|k: int|
                        0 <= k < CHAIN_BATCH ==> !is_vanity(
                            matchers@,
                            #[trigger] batch_keys(old(self).position())[k],
                        )
                    &&& attempts == if old(self).pending() + CHAIN_BATCH >= FLUSH_EVERY {
                        old(self).pending() + CHAIN_BATCH
                    } else {
                        0
                    }
                    &&& final(self).pending() == old(self).pending() + CHAIN_BATCH - attempts
                },
            },
            (step is Found) <==> exists|k: int|
                0 <= k < CHAIN_BATCH && is_vanity(
                    matchers@,
                    #[trigger] batch_keys(old(self).position())[k],
                ),
    {
        let ghost expected = batch_keys(self.chain.position());
        let before = self.chain;
        let keys = self.chain.next_batch();
        match first_vanity(matchers, &keys) {
            Some(found) => {
                let offset: usize = found.offset;
                let prefix_index: usize = found.prefix_index;
                let scalar = before.scalar_ahead(offset);
                let attempts: u64 = self.tally.keys + offset as u64 + 1;
                self.tally = Tally::new();
                let key = FoundKey { public_key: keys[offset], scalar, offset, prefix_index };
                proof {
                    assert(keys@[offset as int]@ == expected[offset as int]);
                    assert(matchers@[prefix_index as int]@.is_prefix_of(
                        hex_upper(key.public_key@),
                    ));
                    assert(is_vanity(matchers@, expected[offset as int]));
                    assert forall|k: int| 0 <= k < offset implies !is_vanity(
                        matchers@,
                        #[trigger] expected[k],
                    ) by {
                        assert(keys@[k]@ == expected[k]);
                    }
                    if before.in_lockstep() && le_value(before.scalar()) + 8 * offset < pow2(256) {
                        law_chain_keys_belong_to_scalars(
                            before.position(),
                            before.scalar(),
                            scalar@,
                            offset as nat,
                        );
                    }
                }
                CpuStep::Found { attempts, key }
            },
            None => {
                proof {
                    assert forall|k: int| 0 <= k < CHAIN_BATCH implies !is_vanity(
                        matchers@,
                        #[trigger] expected[k],
                    ) by {
                        assert(keys@[k]@ == expected[k]);
                    }
                }
                match self.tally.record(CHAIN_BATCH as u64, 0) {
                    Some(counts) => CpuStep::Continue { attempts: counts.0 },
                    None => CpuStep::Continue { attempts: 0 },
                }
            },
        }
    }

    /// The keys that are still to be added to the shared count when the worker
    /// is told to stop.
    pub fn finish(&self) -> (attempts: u64)
        ensures
            attempts == self.pending(),
    {
        self.tally.keys
    }
}

/// A search that is ready to run: the prefixes in upper case, their matchers,
/// and how many attempts the search is expected to take.
pub struct SearchPlan {
    pub prefixes: Vec<String>,
    pub matchers: Vec<PrefixMatcher>,
    pub expected_attempts: u64,
}

impl SearchPlan {
    /// The matchers belong to the prefixes, and the prefixes are valid.
    pub open spec fn wf(&self) -> bool {
        &&& self.prefixes@.len() > 0
        &&& all_wf(self.matchers@)
        &&& are_matchers_of(self.matchers@, texts(self.prefixes@))
        &&& self.expected_attempts == expected_attempts_of(texts(self.prefixes@))
    }
}

/// Prepares a search for the prefixes that a user typed; the error is the
/// message on the first that is refused.
pub fn prepare_search(raw: &[String]) -> (plan: Result<SearchPlan, String>)
    requires
        raw@.len() > 0,
    ensures
        plan is Ok <==> forall|i: int|
            0 <= i < raw@.len() ==> validated((#[trigger] raw@[i])@) is Ok,
        match plan {
            Ok(p) => {
                &&& p.wf()
                &&& p.prefixes@.len() == raw@.len()
                &&& forall|i: int|
                    0 <= i < raw@.len() ==> validated((#[trigger] raw@[i])@) == Ok::<
                        Seq<char>,
                        Seq<char>,
                    >(p.prefixes@[i]@)
            },
            Err(message) => exists|i: int|
                {
                    &&& 0 <= i < raw@.len()
                    &&& validated((#[trigger] raw@[i])@) == Err::<Seq<char>, Seq<char>>(message@)
                    &&& forall|j: int| 0 <= j < i ==> validated((#[trigger] raw@[j])@) is Ok
                },
        },
{
    let prefixes = match validate_prefixes(raw) {
        Ok(prefixes) => prefixes,
        Err(message) => {
            return Err(message);
        },
    };
    proof {
        assert forall|i: int| 0 <= i < prefixes@.len() implies {
            &&& is_hex_text((#[trigger] prefixes@[i])@)
            &&& ascii_upper(prefixes@[i]@) == prefixes@[i]@
            &&& byte_len(prefixes@[i]@) <= MAX_PREFIX_LEN
        } by {
            assert(validated(raw@[i]@) is Ok);
            law_accepted_prefix(raw@[i]@);
        }
        lemma_shortest_is_one(texts(prefixes@));
        let k = choose|k: int|
            0 <= k < prefixes@.len() && byte_len(#[trigger] texts(prefixes@)[k]) == shortest_len(
                texts(prefixes@),
            );
        assert(texts(prefixes@)[k] == prefixes@[k]@);
    }
    let matchers = make_matchers(prefixes.as_slice());
    let expected_attempts: u64 = expected_attempts(prefixes.as_slice());
    Ok(SearchPlan { prefixes, matchers, expected_attempts })
}

/// A match as a search reports it: the keypair and the prefix that it met.
pub struct MatchResult {
    pub keypair: MeshCoreKeypair,
    pub matched_prefix: String,
}

/// The match that a found key makes with 32 bytes for the second half of the
/// private key.
pub fn complete_match(key: &FoundKey, prefixes: &[String], half: &[u8; 32]) -> (result: MatchResult)
    requires
        key.prefix_index < prefixes@.len(),
    ensures
        result.keypair.public_key@ == key.public_key@,
        result.keypair.private_key@ == key.scalar@ + half@,
        result.matched_prefix@ == prefixes@[key.prefix_index as int]@,
        key.public_key@ == public_key_of(key.scalar@) ==> keys_agree(result.keypair),
{
    let keypair = assemble_keypair(key.public_key, &key.scalar, half);
    assert(keypair.private_key@.take(32) =~= key.scalar@);
    MatchResult { keypair, matched_prefix: prefixes[key.prefix_index].clone() }
}

/// The match that a found key makes with drawn bytes for the second half of
/// the private key, if any were drawn.
pub fn complete_match_with(key: &FoundKey, prefixes: &[String], half: Option<[u8; 32]>) -> (result:
    Option<MatchResult>)
    requires
        key.prefix_index < prefixes@.len(),
    ensures
        result is Some <==> half is Some,
        result matches Some(r) ==> {
            &&& r.keypair.public_key@ == key.public_key@
            &&& r.keypair.private_key@ == key.scalar@ + half->0@
            &&& r.matched_prefix@ == prefixes@[key.prefix_index as int]@
            &&& key.public_key@ == public_key_of(key.scalar@) ==> keys_agree(r.keypair)
        },
{
    match half {
        Some(bytes) => Some(complete_match(key, prefixes, &bytes)),
        None => None,
    }
}

/// The match that a found key makes with random bytes for the second half of
/// the private key; `None` if the operating system has none to give.
pub fn complete_match_randomly(key: &FoundKey, prefixes: &[String]) -> (result: Option<MatchResult>)
    requires
        key.prefix_index < prefixes@.len(),
    ensures
        result matches Some(r) ==> {
            &&& r.keypair.public_key@ == key.public_key@
            &&& r.keypair.private_key@.take(32) == key.scalar@
            &&& r.matched_prefix@ == prefixes@[key.prefix_index as int]@
            &&& key.public_key@ == public_key_of(key.scalar@) ==> keys_agree(r.keypair)
        },
        exists|half: Option<[u8; 32]>|
            {
                &&& #[trigger] call_ensures(random_bytes, (), half)
                &&& result is Some <==> half is Some
                &&& result matches Some(r) ==> r.keypair.private_key@ == key.scalar@ + half->0@
            },
{
    let half = random_bytes();
    proof {
        if half is Some {
            assert((key.scalar@ + half->0@).take(32) =~= key.scalar@);
        }
    }
    complete_match_with(key, prefixes, half)
}

/// What one launch of a device gave.
pub struct GpuBatchResult {
    pub keys_checked: u64,
    pub keypair: Option<MeshCoreKeypair>,
}

/// What the driver of a device does after a launch.
pub enum GpuStep {
    /// Launch again with this base nonce.
    Continue { base_nonce: u64 },
    /// Report this match.
    Found(MatchResult),
}

/// The prefix that a match on a device is reported under: the first that the
/// key meets, reserved or not, or the first of all if it meets none.
pub open spec fn reported_prefix(
    matchers: Seq<PrefixMatcher>,
    prefixes: Seq<Seq<char>>,
    public_key: Seq<u8>,
    reported: Seq<char>,
) -> bool {
    if meets_any(matchers, public_key) {
        exists|i: int| #[trigger] is_first_met(matchers, public_key, i) && reported == prefixes[i]
    } else {
        reported == prefixes[0]
    }
}

/// Decides what follows a launch: with a key, the match; without one, another
/// launch further on.
pub fn gpu_step(
    matchers: &Vec<PrefixMatcher>,
    prefixes: &[String],
    base_nonce: u64,
    batch: GpuBatchResult,
) -> (step: GpuStep)
    requires
        all_wf(matchers@),
        matchers@.len() == prefixes@.len(),
        prefixes@.len() > 0,
    ensures
        match step {
            GpuStep::Continue { base_nonce: next } => {
                &&& batch.keypair is None
                &&& next == (base_nonce + batch.keys_checked) % 0x1_0000_0000_0000_0000
            },
            GpuStep::Found(result) => {
                &&& batch.keypair == Some(result.keypair)
                &&& reported_prefix(
                    matchers@,
                    texts(prefixes@),
                    result.keypair.public_key@,
                    result.matched_prefix@,
                )
            },
        },
{
    match batch.keypair {
        None => GpuStep::Continue { base_nonce: base_nonce.wrapping_add(batch.keys_checked) },
        Some(keypair) => {
            let index: usize = match first_met(matchers, &keypair.public_key) {
                Some(i) => i,
                None => 0,
            };
            let matched_prefix = prefixes[index].clone();
            assert(texts(prefixes@)[index as int] == prefixes@[index as int]@);
            GpuStep::Found(MatchResult { keypair, matched_prefix })
        },
    }
}

/// How a search ends: with the match, its keys written in upper-case hex, or
/// with an error where every worker gave up.
pub fn finish_search(found: Option<MatchResult>, attempts: u64, elapsed_nanos: u64) -> (outcome:
    Result<SearchResult, SearchError>)
    ensures
        match outcome {
            Ok(result) => {
                &&& found matches Some(m)
                &&& result.public_key@ == hex_upper(m.keypair.public_key@)
                &&& result.private_key@ == hex_upper(m.keypair.private_key@)
                &&& result.matched_prefix@ == m.matched_prefix@
                &&& result.attempts == attempts
                &&& result.elapsed_nanos == elapsed_nanos
            },
            Err(error) => {
                &&& found is None
                &&& error.attempts == attempts
                &&& error.elapsed_nanos == elapsed_nanos
            },
        },
{
    match found {
        Some(m) => Ok(
            SearchResult {
                public_key: encode_upper(&m.keypair.public_key),
                private_key: encode_upper(&m.keypair.private_key),
                matched_prefix: m.matched_prefix,
                attempts,
                elapsed_nanos,
            },
        ),
        None => Err(SearchError { attempts, elapsed_nanos }),
    }
}

/// A key that a worker reports starts with the prefix that it is reported
/// under, where the matchers are those of the prefixes and the prefixes are in
/// upper case, as validation leaves them.
pub proof fn law_found_key_has_prefix(
    key: FoundKey,
    matchers: Seq<PrefixMatcher>,
    prefixes: Seq<Seq<char>>,
    position: nat,
    scalar: Seq<u8>,
)
    requires
        key.is_first_of(matchers, position, scalar),
        are_matchers_of(matchers, prefixes),
    ensures
        prefixes[key.prefix_index as int].is_prefix_of(hex_upper(key.public_key@)),
{
    assert(matchers[key.prefix_index as int]@ == prefixes[key.prefix_index as int]);
}

/// A result that a CPU worker led to has a public key that starts with the
/// matched prefix and is not reserved.
pub proof fn law_result_has_prefix(
    plan: SearchPlan,
    key: FoundKey,
    position: nat,
    scalar: Seq<u8>,
    found: MatchResult,
    result: SearchResult,
)
    requires
        plan.wf(),
        key.is_first_of(plan.matchers@, position, scalar),
        found.keypair.public_key@ == key.public_key@,
        found.matched_prefix@ == plan.prefixes@[key.prefix_index as int]@,
        result.public_key@ == hex_upper(found.keypair.public_key@),
        result.matched_prefix@ == found.matched_prefix@,
    ensures
        result.matched_prefix@.is_prefix_of(result.public_key@),
        !is_reserved(found.keypair.public_key@),
{
    law_found_key_has_prefix(key, plan.matchers@, texts(plan.prefixes@), position, scalar);
}

/// A chain that starts at a clamped scalar stays below `2^256`, and so in
/// lockstep, for as many batches as anyone can count in 64 bits.
pub proof fn law_runs_stay_in_lockstep(start: Seq<u8>, batches: u64)
    requires
        is_clamped(start),
    ensures
        advanced(le_value(start), (8 * CHAIN_BATCH * batches) as nat) + 8 * CHAIN_BATCH < pow2(256),
{
    law_clamped_range(start);
    let value = le_value(start);
    lemma_pow2_unfold(256);
    lemma2_to64();
    lemma_pow2_adds(64, 191);
    lemma_pow2_pos(183);
    lemma_pow2_adds(8, 183);
    assert(pow2(255) > 128 * 0x1_0000_0000_0000_0000 + 128) by (nonlinear_arith)
        requires
            pow2(64) == 0x1_0000_0000_0000_0000,
            pow2(255) == pow2(64) * pow2(191),
            pow2(191) == pow2(8) * pow2(183),
            pow2(8) == 256,
            pow2(183) >= 1,
    ;
    vstd::arithmetic::div_mod::lemma_small_mod(value + (128 * batches) as nat, pow2(256));
}

/// A key from a device that meets any prefix starts with the one that it is
/// reported under.
pub proof fn law_device_match_has_prefix(
    matchers: Seq<PrefixMatcher>,
    prefixes: Seq<Seq<char>>,
    public_key: Seq<u8>,
    reported: Seq<char>,
)
    requires
        reported_prefix(matchers, prefixes, public_key, reported),
        meets_any(matchers, public_key),
        are_matchers_of(matchers, prefixes),
    ensures
        reported.is_prefix_of(hex_upper(public_key)),
{
}

/// Whether the matchers are those of the prefixes, in order, and the prefixes
/// are in upper case.
pub open spec fn are_matchers_of(matchers: Seq<PrefixMatcher>, prefixes: Seq<Seq<char>>) -> bool {
    &&& matchers.len() == prefixes.len()
    &&& forall|i: int| 0 <= i < matchers.len() ==> (#[trigger] matchers[i])@ == prefixes[i]
}

/// Counting goes key by key: a key that is neither reserved nor without one of
/// the prefixes adds one, any other adds none.
pub proof fn law_count_goes_key_by_key(
    matchers: Seq<PrefixMatcher>,
    keys: Seq<Seq<u8>>,
    next: Seq<u8>,
)
    ensures
        vanity_count(matchers, Seq::empty()) == 0,
        vanity_count(matchers, keys.push(next)) == vanity_count(matchers, keys) + if next[0] != 0x00
            && next[0] != 0xFF && (exists|i: int|
            0 <= i < matchers.len() && (#[trigger] matchers[i])@.is_prefix_of(hex_upper(next))) {
            1nat
        } else {
            0nat
        },
{
    assert(keys.push(next).drop_last() =~= keys);
    law_every_matching_key_counts(matchers, next);
}

/// The count of a batch is the number of its keys that are searched for.
pub proof fn law_count_is_of_the_matching_keys(matchers: Seq<PrefixMatcher>, keys: Seq<Seq<u8>>)
    ensures
        vanity_count(matchers, keys) == keys.filter(
            |key: Seq<u8>|
                key[0] != 0x00 && key[0] != 0xFF && exists|i: int|
                    0 <= i < matchers.len() && (#[trigger] matchers[i])@.is_prefix_of(
                        hex_upper(key),
                    ),
        ).len(),
    decreases keys.len(),
{
    reveal(Seq::filter);
    if keys.len() > 0 {
        law_count_is_of_the_matching_keys(matchers, keys.drop_last());
        law_every_matching_key_counts(matchers, keys.last());
    }
}

/// A found key encodes the multiple that is `8 * offset` behind the position of
/// the batch, its scalar is as much behind that of the batch, it starts with its
/// prefix and with none before that, it is not reserved, and no key of the batch
/// before it is searched for.
pub proof fn law_found_key(
    key: FoundKey,
    matchers: Seq<PrefixMatcher>,
    position: nat,
    scalar: Seq<u8>,
)
    ensures
        key.is_first_of(matchers, position, scalar) <==> {
            &&& key.offset < 16
            &&& key.prefix_index < matchers.len()
            &&& key.public_key@ == base_encoding(
                (position + 8 * key.offset as nat) % group_order(),
            )
            &&& le_value(key.scalar@) == (le_value(scalar) + 8 * key.offset) % (pow2(256) as int)
            &&& key.public_key@[0] != 0x00
            &&& key.public_key@[0] != 0xFF
            &&& matchers[key.prefix_index as int]@.is_prefix_of(hex_upper(key.public_key@))
            &&& forall|j: int|
                0 <= j < key.prefix_index ==> !(#[trigger] matchers[j])@.is_prefix_of(
                    hex_upper(key.public_key@),
                )
            &&& forall|k: nat|
                k < key.offset ==> !is_vanity(
                    matchers,
                    #[trigger] base_encoding(position_after(position, k)),
                )
        },
{
    assert forall|k: nat| k < 16 implies batch_keys(position)[k as int] == #[trigger] base_encoding(
        position_after(position, k),
    ) by {}
    if key.is_first_of(matchers, position, scalar) {
        assert forall|k: nat| k < key.offset implies !is_vanity(
            matchers,
            #[trigger] base_encoding(position_after(position, k)),
        ) by {
            assert(!is_vanity(matchers, batch_keys(position)[k as int]));
        }
    }
    if key.offset < 16 && (forall|k: nat|
        k < key.offset ==> !is_vanity(
            matchers,
            #[trigger] base_encoding(position_after(position, k)),
        )) {
        assert forall|k: int| 0 <= k < key.offset implies !is_vanity(
            matchers,
            #[trigger] batch_keys(position)[k],
        ) by {
            assert(batch_keys(position)[k] == base_encoding(position_after(position, k as nat)));
        }
    }
}

/// A key from a device is reported under a prefix that it starts with while
/// starting with none before, or, if it starts with none, under the first.
pub proof fn law_reported_prefix(
    matchers: Seq<PrefixMatcher>,
    prefixes: Seq<Seq<char>>,
    public_key: Seq<u8>,
    reported: Seq<char>,
)
    ensures
        reported_prefix(matchers, prefixes, public_key, reported) <==> {
            ||| exists|i: int|
                {
                    &&& 0 <= i < matchers.len()
                    &&& (#[trigger] matchers[i])@.is_prefix_of(hex_upper(public_key))
                    &&& forall|j: int|
                        0 <= j < i ==> !(#[trigger] matchers[j])@.is_prefix_of(
                            hex_upper(public_key),
                        )
                    &&& reported == prefixes[i]
                }
            ||| {
                &&& forall|i: int|
                    0 <= i < matchers.len() ==> !(#[trigger] matchers[i])@.is_prefix_of(
                        hex_upper(public_key),
                    )
                &&& reported == prefixes[0]
            }
        },
{
    law_every_matching_key_counts(matchers, public_key);
    if exists|i: int|
        {
            &&& 0 <= i < matchers.len()
            &&& (#[trigger] matchers[i])@.is_prefix_of(hex_upper(public_key))
            &&& forall|j: int|
                0 <= j < i ==> !(#[trigger] matchers[j])@.is_prefix_of(hex_upper(public_key))
            &&& reported == prefixes[i]
        } {
        let i = choose|i: int|
            {
                &&& 0 <= i < matchers.len()
                &&& (#[trigger] matchers[i])@.is_prefix_of(hex_upper(public_key))
                &&& forall|j: int|
                    0 <= j < i ==> !(#[trigger] matchers[j])@.is_prefix_of(hex_upper(public_key))
                &&& reported == prefixes[i]
            };
        assert(is_first_met(matchers, public_key, i));
    }
}

/// A prepared search has a well-formed matcher for each prefix, whose text is
/// that prefix, and at least one prefix.
pub proof fn law_prepared_search(plan: SearchPlan)
    requires
        plan.wf(),
    ensures
        plan.prefixes@.len() > 0,
        plan.matchers@.len() == plan.prefixes@.len(),
        forall|i: int|
            0 <= i < plan.matchers@.len() ==> (#[trigger] plan.matchers@[i]).wf()
                && plan.matchers@[i]@ == plan.prefixes@[i]@,
        plan.expected_attempts == expected_attempts_of(texts(plan.prefixes@)),
{
    assert forall|i: int| 0 <= i < plan.matchers@.len() implies (#[trigger] plan.matchers@[i]).wf()
        && plan.matchers@[i]@ == plan.prefixes@[i]@ by {
        assert(texts(plan.prefixes@)[i] == plan.prefixes@[i]@);
    }
}

/// A worker is in lockstep where its next key is the multiple of the base point
/// that its scalar says.
pub proof fn law_worker_in_lockstep(worker: CpuWorker)
    ensures
        worker.in_lockstep() <==> worker.position() == le_value(worker.scalar()) % group_order(),
{
}

/// What was handed out is the two counts, or nothing.
pub proof fn law_handed_out(keys: u64, matches: u64)
    ensures
        flushed_keys(Some((keys, matches))) == keys,
        flushed_matches(Some((keys, matches))) == matches,
        flushed_keys(None) == 0,
        flushed_matches(None) == 0,
{
}

} // verus!
