use hashcrack::hash::hash;
use hashcrack::search::{find_hash, generate_hash_pw, search, search_chunk, search_word, validate_target};
use std::sync::atomic::AtomicBool;

#[test]
fn digest_of_empty_string_is_the_reference_value() {
    assert_eq!(hash(""), "da39a3ee5e6b4b0d3255bfef95601890afd80709");
}

#[test]
fn digest_matches_known_test_vector() {
    assert_eq!(hash("abc"), "a9993e364706816aba3e25717850c26c9cd0d89d");
}

#[test]
fn digest_is_pure_across_repeated_calls() {
    let first = hash("C4t");
    let second = hash("C4t");
    let third = hash("C4t");
    assert_eq!(first, second);
    assert_eq!(second, third);
    assert_eq!(first.len(), 40);
}

#[test]
fn search_recovers_the_generated_candidate() {
    // End to end: the target is the digest of "C4t", which is reachable from
    // "cat" via c -> C and a -> 4, and is returned exactly as generated.
    let target = hash("C4t");
    let dictionary = vec!["cat".to_string()];
    assert_eq!(search(&dictionary, &target, 1), Some("C4t".to_string()));
}

#[test]
fn search_returns_none_when_no_expansion_matches() {
    let target = hash("qqq");
    let dictionary = vec!["zzz".to_string()];
    assert_eq!(search(&dictionary, &target, 100), None);
}

#[test]
fn search_result_is_independent_of_chunk_size() {
    let target = hash("C4t");
    let dictionary = vec![
        "dog".to_string(),
        "fish".to_string(),
        "cat".to_string(),
        "bird".to_string(),
    ];
    let expected = Some("C4t".to_string());
    for chunk_size in [1, 2, 3, 4, 100] {
        assert_eq!(search(&dictionary, &target, chunk_size), expected);
    }
}

#[test]
fn search_word_finds_first_matching_candidate() {
    let target = hash("C4t");
    assert_eq!(search_word("cat", &target), Some("C4t".to_string()));
    assert_eq!(search_word("dog", &target), None);
}

#[test]
fn find_hash_scans_when_flag_is_clear() {
    let target = hash("C4t");
    let is_found = AtomicBool::new(false);
    assert_eq!(
        find_hash(&"cat".to_string(), &is_found, &target),
        Some("C4t".to_string())
    );
    assert_eq!(find_hash(&"dog".to_string(), &is_found, &target), None);
}

#[test]
fn find_hash_abandons_scan_when_flag_is_set() {
    let target = hash("C4t");
    let is_found = AtomicBool::new(true);
    assert_eq!(find_hash(&"cat".to_string(), &is_found, &target), None);
}

#[test]
fn search_chunk_reports_a_match_from_its_words() {
    let target = hash("C4t");
    let chunk = vec!["dog".to_string(), "cat".to_string()];
    let is_found = AtomicBool::new(false);
    assert_eq!(
        search_chunk(&chunk, &is_found, &target),
        Some("C4t".to_string())
    );
    let no_match = vec!["zzz".to_string()];
    assert_eq!(search_chunk(&no_match, &is_found, &target), None);
}

#[test]
fn generate_hash_pw_pairs_every_candidate_with_its_digest() {
    let pairs = generate_hash_pw("c");
    assert_eq!(
        pairs,
        vec![
            (hash("c"), "c".to_string()),
            (hash("C"), "C".to_string()),
        ]
    );
    assert_eq!(generate_hash_pw("ab").len(), 9);
}

#[test]
fn validate_target_accepts_digests_and_rejects_malformed_ones() {
    assert!(validate_target(&hash("anything")));
    assert!(validate_target("da39a3ee5e6b4b0d3255bfef95601890afd80709"));
    assert!(!validate_target("da39a3ee"));
    assert!(!validate_target("DA39A3EE5E6B4B0D3255BFEF95601890AFD80709"));
    assert!(!validate_target("zz39a3ee5e6b4b0d3255bfef95601890afd80709"));
    assert!(!validate_target(""));
}
