use hashcrack::combinations::{generate_combinaton_catesian_product, variants, CandidateGenerator};

#[test]
fn generate_two_letter_word_full_product() {
    // variants('a') = [a, A, 4], variants('b') = [b, B, 8]: nine candidates,
    // rightmost position cycling fastest.
    let got = generate_combinaton_catesian_product("ab");
    let expected = vec!["ab", "aB", "a8", "Ab", "AB", "A8", "4b", "4B", "48"];
    assert_eq!(got, expected);
}

#[test]
fn generate_empty_word_yields_empty_string() {
    let got = generate_combinaton_catesian_product("");
    assert_eq!(got, vec![String::new()]);
}

#[test]
fn generate_count_is_product_of_variant_counts() {
    // c -> 2, a -> 3, t -> 3: 18 candidates.
    let got = generate_combinaton_catesian_product("cat");
    assert_eq!(got.len(), 2 * 3 * 3);
    // f -> 2, x -> 2, '!' -> 1: 4 candidates.
    let got = generate_combinaton_catesian_product("fx!");
    assert_eq!(got.len(), 2 * 2 * 1);
}

#[test]
fn generate_uppercase_input_is_lowercase_normalized() {
    // The table is looked up under the lowercased letter, so "Ab" and "ab"
    // expand identically.
    assert_eq!(
        generate_combinaton_catesian_product("Ab"),
        generate_combinaton_catesian_product("ab")
    );
}

#[test]
fn generate_non_table_character_kept_verbatim() {
    let got = generate_combinaton_catesian_product("a!");
    assert_eq!(got, vec!["a!", "A!", "4!"]);
}

#[test]
fn variants_of_table_letters() {
    assert_eq!(variants('a'), vec!['a', 'A', '4']);
    assert_eq!(variants('A'), vec!['a', 'A', '4']);
    assert_eq!(variants('c'), vec!['c', 'C']);
    assert_eq!(variants('t'), vec!['t', 'T', '7']);
    assert_eq!(variants('z'), vec!['z', 'Z', '2']);
}

#[test]
fn variants_of_absent_characters_are_singletons() {
    assert_eq!(variants('!'), vec!['!']);
    assert_eq!(variants('5'), vec!['5']);
    assert_eq!(variants(' '), vec![' ']);
    assert_eq!(variants('é'), vec!['é']);
}

#[test]
fn generate_twice_produces_identical_sequences() {
    let first = generate_combinaton_catesian_product("cat");
    let second = generate_combinaton_catesian_product("cat");
    assert_eq!(first, second);
}

#[test]
fn generator_restarts_from_the_beginning() {
    let mut g1 = CandidateGenerator::new("ok");
    let mut partial = Vec::new();
    for _ in 0..3 {
        partial.push(g1.next().unwrap());
    }
    let mut g2 = CandidateGenerator::new("ok");
    for expected in &partial {
        assert_eq!(g2.next().as_ref(), Some(expected));
    }
}

#[test]
fn generator_is_lazy_on_astronomical_products() {
    // 40 characters with 3 variants each: ~1.2e19 combinations. Taking a few
    // items must not materialize the rest.
    let word: String = std::iter::repeat('a').take(40).collect();
    let mut g = CandidateGenerator::new(&word);
    let mut prefix = Vec::new();
    for _ in 0..4 {
        prefix.push(g.next().unwrap());
    }
    let all_a: String = std::iter::repeat('a').take(40).collect();
    let mut last_upper = String::from(&word[..39]);
    last_upper.push('A');
    let mut last_digit = String::from(&word[..39]);
    last_digit.push('4');
    let mut second_last_upper = String::from(&word[..38]);
    second_last_upper.push('A');
    second_last_upper.push('a');
    assert_eq!(prefix, vec![all_a, last_upper, last_digit, second_last_upper]);
}

#[test]
fn generator_reports_exhaustion() {
    let mut g = CandidateGenerator::new("c");
    assert_eq!(g.next(), Some("c".to_string()));
    assert_eq!(g.next(), Some("C".to_string()));
    assert_eq!(g.next(), None);
    assert_eq!(g.next(), None);
}
