use mc_keygen::chain::KeyChain;
use mc_keygen::device::scalar_public_key;
use mc_keygen::prefix::make_matchers;
use mc_keygen::scalar::{advance_scalar, clamp_scalar};
use mc_keygen::search::{
    complete_match, complete_match_randomly, complete_match_with, count_vanity, finish_search, first_vanity, gpu_step, prepare_search, CpuStep,
    CpuWorker, FoundKey, GpuBatchResult, GpuStep, MatchResult, Tally,
};
use mc_keygen::types::{MeshCoreKeypair, SearchError};

fn strings(texts: &[&str]) -> Vec<String> {
    texts.iter().map(|t| t.to_string()).collect()
}

fn start(byte: u8) -> [u8; 32] {
    let mut scalar = [byte; 32];
    clamp_scalar(&mut scalar);
    scalar
}

#[test]
fn chain_keeps_pace_with_its_scalars() {
    let mut chain = KeyChain::new(&start(0x21));
    let mut scalar = start(0x21);
    for _ in 0..3 {
        assert_eq!(chain.scalar_ahead(5), {
            let mut ahead = scalar;
            advance_scalar(&mut ahead, 40);
            ahead
        });
        let keys = chain.next_batch();
        for key in keys {
            assert_eq!(key, scalar_public_key(&scalar));
            advance_scalar(&mut scalar, 8);
        }
        assert_eq!(chain.scalar_ahead(0), scalar);
    }
}

#[test]
fn batch_counts_and_finds_matches() {
    let mut keys = [[0x55u8; 32]; 16];
    keys[0][0] = 0x00;
    keys[3][0] = 0xAB;
    keys[9][0] = 0xAC;
    let matchers = make_matchers(&strings(&["AC", "A", "0"]));
    assert_eq!(count_vanity(&matchers, &keys), 2);
    let found = first_vanity(&matchers, &keys).unwrap();
    assert_eq!((found.offset, found.prefix_index), (3, 1));
    assert!(first_vanity(&make_matchers(&strings(&["EE"])), &keys).is_none());
    assert_eq!(count_vanity(&make_matchers(&[]), &keys), 0);
}

#[test]
fn tally_is_handed_out_at_the_threshold() {
    let mut tally = Tally::new();
    for i in 1..64u64 {
        assert_eq!(tally.record(16, 1), None);
        assert_eq!(tally.keys, 16 * i);
        assert_eq!(tally.matches, i);
    }
    assert_eq!(tally.record(16, 0), Some((1024, 63)));
    assert_eq!((tally.keys, tally.matches), (0, 0));
}

#[test]
fn worker_finds_a_key_of_its_scalar() {
    let plan = prepare_search(&strings(&["7c", "a"])).unwrap();
    let mut worker = CpuWorker::new(&start(0x13));
    let mut attempts = 0u64;
    for _ in 0..1000 {
        match worker.step(&plan.matchers) {
            CpuStep::Continue { attempts: more } => attempts += more,
            CpuStep::Found { attempts: more, key } => {
                attempts += more;
                // The key is as far from the start as keys were tried.
                let mut scalar = start(0x13);
                advance_scalar(&mut scalar, 8 * (attempts - 1));
                assert_eq!(key.scalar, scalar);
                assert_eq!(key.public_key, scalar_public_key(&scalar));
                assert_eq!((attempts as usize - 1) % 16, key.offset);
                assert_eq!(worker.finish(), 0);

                let result = complete_match(&key, &plan.prefixes, &[0x77; 32]);
                assert_eq!(&result.keypair.private_key[..32], &scalar);
                assert_eq!(&result.keypair.private_key[32..], &[0x77; 32]);
                let done = finish_search(Some(result), attempts, 5).ok().unwrap();
                assert!(done.public_key.starts_with(&done.matched_prefix));
                assert_eq!(done.public_key, hex::encode_upper(key.public_key));
                assert_eq!(done.private_key.len(), 128);
                return;
            }
        }
    }
    panic!("no key found");
}

#[test]
fn worker_hands_out_its_count() {
    let plan = prepare_search(&strings(&["12345678"])).unwrap();
    let mut worker = CpuWorker::new(&start(0x66));
    for i in 1..64u64 {
        match worker.step(&plan.matchers) {
            CpuStep::Continue { attempts } => assert_eq!(attempts, 0),
            CpuStep::Found { .. } => unreachable!(),
        }
        assert_eq!(worker.finish(), 16 * i);
    }
    match worker.step(&plan.matchers) {
        CpuStep::Continue { attempts } => assert_eq!(attempts, 1024),
        CpuStep::Found { .. } => unreachable!(),
    }
    assert_eq!(worker.finish(), 0);
}

#[test]
fn plan_holds_what_a_search_needs() {
    let plan = prepare_search(&strings(&["ab", "cd", "123"])).unwrap();
    assert_eq!(plan.prefixes, strings(&["AB", "CD", "123"]));
    assert_eq!(plan.matchers.len(), 3);
    assert_eq!(plan.expected_attempts, 128);
    let error = prepare_search(&strings(&["ab", "ff1"])).err().unwrap();
    assert_eq!(
        error,
        "prefix 'FF1' starts with 00 or FF, which are skipped by MeshCore"
    );
}

#[test]
fn device_without_a_match_launches_again() {
    let plan = prepare_search(&strings(&["ab"])).unwrap();
    let batch = GpuBatchResult { keys_checked: 1000, keypair: None };
    match gpu_step(&plan.matchers, &plan.prefixes, 7, batch) {
        GpuStep::Continue { base_nonce } => assert_eq!(base_nonce, 1007),
        GpuStep::Found(_) => unreachable!(),
    }
    let batch = GpuBatchResult { keys_checked: 5, keypair: None };
    match gpu_step(&plan.matchers, &plan.prefixes, u64::MAX, batch) {
        GpuStep::Continue { base_nonce } => assert_eq!(base_nonce, 4),
        GpuStep::Found(_) => unreachable!(),
    }
}

fn reported(first: u8) -> String {
    reported_among(&["cd", "ab"], first)
}

fn reported_among(prefixes: &[&str], first: u8) -> String {
    let plan = prepare_search(&strings(prefixes)).unwrap();
    let mut public_key = [0x11u8; 32];
    public_key[0] = first;
    let keypair = Some(MeshCoreKeypair { public_key, private_key: [9; 64] });
    match gpu_step(&plan.matchers, &plan.prefixes, 0, GpuBatchResult { keys_checked: 1, keypair }) {
        GpuStep::Found(m) => {
            assert_eq!(m.keypair.public_key, public_key);
            assert_eq!(m.keypair.private_key, [9; 64]);
            m.matched_prefix
        }
        GpuStep::Continue { .. } => unreachable!(),
    }
}

#[test]
fn device_match_is_reported_under_its_prefix() {
    assert_eq!(reported(0xAB), "AB");
    assert_eq!(reported(0xCD), "CD");
    // A reserved key goes under the prefix that it meets.
    assert_eq!(reported_among(&["a", "f"], 0xFF), "F");
    assert_eq!(reported_among(&["a", "0"], 0x00), "0");
    // A key that meets no prefix goes under the first.
    assert_eq!(reported(0x12), "CD");
}

#[test]
fn search_ends_with_keys_in_hex() {
    let found = MatchResult {
        keypair: MeshCoreKeypair { public_key: [0xAB; 32], private_key: [0x0F; 64] },
        matched_prefix: "AB".to_string(),
    };
    let result = finish_search(Some(found), 42, 1_500_000_000).ok().unwrap();
    assert_eq!(result.public_key, "AB".repeat(32));
    assert_eq!(result.private_key, "0F".repeat(64));
    assert_eq!(result.matched_prefix, "AB");
    assert_eq!(result.attempts, 42);
    assert_eq!(result.elapsed_nanos, 1_500_000_000);
}

#[test]
fn search_without_a_match_is_an_error() {
    let error = finish_search(None, 1234, 9).err().unwrap();
    assert_eq!(error.attempts, 1234);
    assert_eq!(error.elapsed_nanos, 9);
    let error = SearchError { attempts: 99, elapsed_nanos: 0 };
    assert_eq!(
        error.message("1.5"),
        "search ended without finding a match after 99 attempts (1.5s)"
    );
}

#[test]
fn match_keeps_the_prefix_it_was_found_under() {
    let key = FoundKey { public_key: [1; 32], scalar: [2; 32], offset: 0, prefix_index: 1 };
    let result = complete_match(&key, &strings(&["AA", "BB"]), &[3; 32]);
    assert_eq!(result.matched_prefix, "BB");
    assert_eq!(result.keypair.public_key, [1; 32]);
}

#[test]
fn random_worker_finds_a_match_that_agrees() {
    let plan = prepare_search(&strings(&["b"])).unwrap();
    let mut worker = CpuWorker::from_os().unwrap();
    for _ in 0..1000 {
        if let CpuStep::Found { key, .. } = worker.step(&plan.matchers) {
            let result = complete_match_randomly(&key, &plan.prefixes).unwrap();
            assert_eq!(result.matched_prefix, "B");
            assert_eq!(result.keypair.public_key[0] >> 4, 0xB);
            let mut scalar = [0u8; 32];
            scalar.copy_from_slice(&result.keypair.private_key[..32]);
            assert_eq!(scalar, key.scalar);
            assert_eq!(scalar_public_key(&scalar), result.keypair.public_key);
            assert_ne!(&result.keypair.private_key[32..], &[0; 32]);
            return;
        }
    }
    panic!("no key found");
}

#[test]
fn draw_decides_whether_there_is_a_match() {
    let key = FoundKey { public_key: [1; 32], scalar: [2; 32], offset: 0, prefix_index: 0 };
    let prefixes = strings(&["AA"]);
    assert!(complete_match_with(&key, &prefixes, None).is_none());
    let result = complete_match_with(&key, &prefixes, Some([3; 32])).unwrap();
    assert_eq!(&result.keypair.private_key[..32], &[2; 32]);
    assert_eq!(&result.keypair.private_key[32..], &[3; 32]);

    assert!(CpuWorker::from_draw(None).is_none());
    let plan = prepare_search(&strings(&["0", "1", "2", "3", "4", "5", "6", "7"])).unwrap();
    let mut drawn = CpuWorker::from_draw(Some(start(0x31))).unwrap();
    let mut direct = CpuWorker::new(&start(0x31));
    match (drawn.step(&plan.matchers), direct.step(&plan.matchers)) {
        (CpuStep::Found { key: a, .. }, CpuStep::Found { key: b, .. }) => {
            assert_eq!(a.public_key, b.public_key);
            assert_eq!(a.scalar, b.scalar);
        }
        _ => unreachable!(),
    }
}
