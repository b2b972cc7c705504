use mc_keygen::hex_text::hex_value;
use mc_keygen::packing::{pack_prefixes, read_word};
use mc_keygen::prefix::{
    expected_attempts, find_match, first_met, make_matchers, shortest_prefixes, should_skip,
    validate_prefix, validate_prefixes, PrefixMatcher,
};

fn strings(texts: &[&str]) -> Vec<String> {
    texts.iter().map(|t| t.to_string()).collect()
}

fn key(start: &[u8]) -> [u8; 32] {
    let mut out = [0x55u8; 32];
    out[..start.len()].copy_from_slice(start);
    out
}

#[test]
fn prefix_is_brought_to_upper_case() {
    assert_eq!(validate_prefix("abc"), Ok("ABC".to_string()));
    assert_eq!(validate_prefix("DeadBeef"), Ok("DEADBEEF".to_string()));
    assert_eq!(validate_prefix("0"), Ok("0".to_string()));
    assert_eq!(validate_prefix("f"), Ok("F".to_string()));
    assert_eq!(validate_prefix("0F"), Ok("0F".to_string()));
}

#[test]
fn accepted_prefix_is_accepted_again() {
    for raw in ["a", "9c", "c0ffee", "12345678"] {
        let once = validate_prefix(raw).unwrap();
        assert_eq!(validate_prefix(&once), Ok(once.clone()));
    }
}

#[test]
fn length_is_checked() {
    assert_eq!(
        validate_prefix(""),
        Err("prefix must be 1-8 hex characters, got 0 characters".to_string())
    );
    assert_eq!(
        validate_prefix("123456789"),
        Err("prefix must be 1-8 hex characters, got 9 characters".to_string())
    );
    // The length is counted in bytes.
    assert_eq!(
        validate_prefix("ééééé"),
        Err("prefix must be 1-8 hex characters, got 10 characters".to_string())
    );
}

#[test]
fn digits_are_checked() {
    assert_eq!(
        validate_prefix("xyz"),
        Err("prefix must be valid hex (0-9, A-F), got 'xyz'".to_string())
    );
    assert_eq!(
        validate_prefix("abg"),
        Err("prefix must be valid hex (0-9, A-F), got 'abg'".to_string())
    );
    assert_eq!(
        validate_prefix("é"),
        Err("prefix must be valid hex (0-9, A-F), got 'é'".to_string())
    );
}

#[test]
fn reserved_prefixes_are_refused() {
    assert_eq!(
        validate_prefix("00a"),
        Err("prefix '00A' starts with 00 or FF, which are skipped by MeshCore".to_string())
    );
    assert_eq!(
        validate_prefix("ff"),
        Err("prefix 'FF' starts with 00 or FF, which are skipped by MeshCore".to_string())
    );
}

#[test]
fn first_refused_prefix_is_reported() {
    assert_eq!(
        validate_prefixes(&strings(&["ab", "cd"])),
        Ok(strings(&["AB", "CD"]))
    );
    assert_eq!(
        validate_prefixes(&strings(&["ab", "zz", "00"])),
        Err("prefix must be valid hex (0-9, A-F), got 'zz'".to_string())
    );
    assert_eq!(validate_prefixes(&[]), Ok(Vec::new()));
}

#[test]
fn matcher_compares_whole_bytes_and_a_half() {
    let even = PrefixMatcher::new("ABCD");
    assert_eq!(even.full_bytes, vec![0xAB, 0xCD]);
    assert_eq!(even.trailing_nibble, None);
    assert!(even.matches(&key(&[0xAB, 0xCD])));
    assert!(!even.matches(&key(&[0xAB, 0xCC])));

    let odd = PrefixMatcher::new("abc");
    assert_eq!(odd.full_bytes, vec![0xAB]);
    assert_eq!(odd.trailing_nibble, Some(0x0C));
    assert!(odd.matches(&key(&[0xAB, 0xC0])));
    assert!(odd.matches(&key(&[0xAB, 0xCF])));
    assert!(!odd.matches(&key(&[0xAB, 0xBF])));

    let single = PrefixMatcher::new("7");
    assert!(single.matches(&key(&[0x7F])));
    assert!(!single.matches(&key(&[0x87])));
}

#[test]
fn reserved_keys_are_skipped() {
    assert!(should_skip(&key(&[0x00])));
    assert!(should_skip(&key(&[0xFF])));
    assert!(!should_skip(&key(&[0x01])));
    assert!(!should_skip(&key(&[0xFE])));
    // A single digit accepts both kinds of key, but only one is searched for.
    let matchers = make_matchers(&strings(&["0"]));
    assert_eq!(find_match(&matchers, &key(&[0x00])), None);
    assert_eq!(first_met(&matchers, &key(&[0x00])), Some(0));
    assert_eq!(first_met(&matchers, &key(&[0x10])), None);
    assert_eq!(find_match(&matchers, &key(&[0x01])), Some(0));
}

#[test]
fn first_matching_prefix_wins() {
    let matchers = make_matchers(&strings(&["CD", "AB", "A"]));
    assert_eq!(find_match(&matchers, &key(&[0xAB])), Some(1));
    assert_eq!(find_match(&matchers, &key(&[0xA1])), Some(2));
    assert_eq!(find_match(&matchers, &key(&[0x12])), None);
}

#[test]
fn every_digit_costs_sixteen_times_as_much() {
    let table = [
        ("A", 16u64),
        ("AB", 256),
        ("ABC", 4096),
        ("ABCD", 65_536),
        ("ABCDE", 1_048_576),
        ("ABCDEF", 16_777_216),
        ("ABCDEF1", 268_435_456),
        ("ABCDEF12", 4_294_967_296),
    ];
    for (prefix, expected) in table {
        assert_eq!(expected_attempts(&strings(&[prefix])), expected);
    }
}

#[test]
fn prefixes_of_one_length_share_the_cost() {
    assert_eq!(expected_attempts(&strings(&["AB", "CD", "EF", "12"])), 64);
    // Longer prefixes do not count.
    assert_eq!(expected_attempts(&strings(&["AB", "CDEF"])), 256);
    assert_eq!(expected_attempts(&strings(&["ABCD", "EF", "123", "45"])), 128);
    assert_eq!(shortest_prefixes(&strings(&["ABCD", "EF", "123", "45"])), (2, 2));
}

#[test]
fn prefixes_are_packed_in_words() {
    assert_eq!(
        pack_prefixes(&strings(&["ABC", "12", "DEADBEEF"])),
        vec![
            3, 0, 0, 0, // number of prefixes
            3, 0, 0, 0, 0xAB, 0xC0, 0, 0, // three digits, padded
            2, 0, 0, 0, 0x12, 0, 0, 0, // two digits, padded
            8, 0, 0, 0, 0xDE, 0xAD, 0xBE, 0xEF, // eight digits, no padding
        ]
    );
    assert_eq!(pack_prefixes(&[]), vec![0, 0, 0, 0]);
}

#[test]
fn packed_prefixes_read_back() {
    let data = pack_prefixes(&strings(&["ABC", "12"]));
    assert_eq!(data.len() % 4, 0);
    assert_eq!(read_word(&data, 0), 2);
    assert_eq!(read_word(&data, 4), 3);
    assert_eq!(read_word(&data, 12), 2);
    assert_eq!(read_word(&[1, 2, 3, 4], 0), 0x0403_0201);
}

#[test]
fn hex_digits_have_values() {
    assert_eq!(hex_value('0'), Some(0));
    assert_eq!(hex_value('9'), Some(9));
    assert_eq!(hex_value('a'), Some(10));
    assert_eq!(hex_value('F'), Some(15));
    assert_eq!(hex_value('g'), None);
    assert_eq!(hex_value('é'), None);
}
