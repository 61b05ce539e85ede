use textgen::{
    capitalized_keys, create_weighted_adjacency_matrix, flatten_adjacency_matrix, gen_sentence,
    gen_token_stream, generate, get_rand_value, normalize_corpus, GenOutput, RandomSource,
    TextGenError,
};

fn cv(s: &str) -> Vec<char> {
    s.chars().collect()
}

#[test]
fn it_works() {
    assert_eq!(2 + 2, 4);
}

#[test]
fn normalizer_collapses_newlines_and_spaces() {
    assert_eq!(normalize_corpus(&cv("Hello\n\nworld  today")), cv("Hello world today"));
}

#[test]
fn normalizer_replaces_soft_hyphen_and_trims() {
    assert_eq!(normalize_corpus(&cv(" a\u{ad}b ")), cv("a b"));
    assert_eq!(normalize_corpus(&cv("a\u{ad}\nb")), cv("a b"));
    assert_eq!(normalize_corpus(&cv("\n \n")), cv(""));
}

#[test]
fn empty_corpus_is_rejected() {
    let mut rng = RandomSource::Fixed(0);
    let r = generate(&cv(""), 3, 2, 5, false, false, &mut rng);
    match r {
        Err(e) => assert_eq!(e, TextGenError::EmptyCorpusError),
        Ok(_) => panic!("expected an error"),
    }
}

#[test]
fn short_corpus_is_rejected_with_minimum() {
    let mut rng = RandomSource::Fixed(0);
    let r = generate(&cv("ab"), 3, 2, 5, false, false, &mut rng);
    match r {
        Err(e) => assert_eq!(e, TextGenError::CorpusTooShortError(5)),
        Ok(_) => panic!("expected an error"),
    }
}

#[test]
fn matrix_of_aaaa_counts_three_windows() {
    let m = create_weighted_adjacency_matrix(&cv("aaaa"), 1, 1);
    assert_eq!(m.num_keys(), 1);
    assert_eq!(m.count_of(&cv("a"), &cv("a")), 3);
    assert_eq!(m.num_vals_of(&cv("a")), 1);
}

#[test]
fn matrix_counts_every_window_exactly() {
    let m = create_weighted_adjacency_matrix(&cv("abab"), 1, 1);
    assert_eq!(m.num_keys(), 2);
    assert_eq!(m.count_of(&cv("a"), &cv("b")), 2);
    assert_eq!(m.count_of(&cv("b"), &cv("a")), 1);
    assert_eq!(m.count_of(&cv("a"), &cv("a")), 0);
    assert_eq!(m.count_of(&cv("c"), &cv("a")), 0);
}

#[test]
fn matrix_with_wide_windows() {
    let m = create_weighted_adjacency_matrix(&cv("abcde"), 3, 2);
    assert_eq!(m.num_keys(), 1);
    assert_eq!(m.count_of(&cv("abc"), &cv("de")), 1);
}

#[test]
fn flattening_preserves_weights() {
    let m = create_weighted_adjacency_matrix(&cv("abab"), 1, 1);
    let flat = flatten_adjacency_matrix(&m);
    assert_eq!(flat.entries.len(), 2);
    let mut seen_a = false;
    let mut seen_b = false;
    for e in &flat.entries {
        if e.key == cv("a") {
            seen_a = true;
            // the count of 'a' -> 'b' is 2, so the list holds "b" twice
            assert_eq!(e.values.len(), 2);
            for v in &e.values {
                assert_eq!(*v, cv("b"));
            }
        }
        if e.key == cv("b") {
            seen_b = true;
            assert_eq!(e.values.len(), 1);
            assert_eq!(e.values[0], cv("a"));
        }
    }
    assert!(seen_a && seen_b);
}

#[test]
fn stub_source_selects_first_element() {
    let m = create_weighted_adjacency_matrix(&cv("abac"), 1, 1);
    let flat = flatten_adjacency_matrix(&m);
    let mut rng = RandomSource::Fixed(0);
    let v = get_rand_value(&mut rng, &flat, 1, &cv("xa")).unwrap();
    // 'a' maps to ["b", "c"] in insertion order; the stub picks position 0
    assert_eq!(v, cv("b"));
}

#[test]
fn unknown_suffix_is_a_lookup_error() {
    let m = create_weighted_adjacency_matrix(&cv("abac"), 1, 1);
    let flat = flatten_adjacency_matrix(&m);
    let mut rng = RandomSource::Fixed(0);
    let r = get_rand_value(&mut rng, &flat, 1, &cv("z"));
    assert_eq!(r, Err(TextGenError::LookupError));
}

#[test]
fn token_stream_appends_exactly_count_values() {
    let m = create_weighted_adjacency_matrix(&cv("aaaa"), 1, 1);
    let flat = flatten_adjacency_matrix(&m);
    let mut rng = RandomSource::Fixed(0);
    let s = gen_token_stream(&mut rng, &flat, 1, 5).unwrap();
    // seed of 1 character plus exactly 5 values of 1 character each
    assert_eq!(s, cv("aaaaaa"));
    assert_eq!(s.len(), 6);
}

#[test]
fn sentence_terminates_on_period() {
    let m = create_weighted_adjacency_matrix(&cv("ab."), 1, 1);
    let flat = flatten_adjacency_matrix(&m);
    let cap = capitalized_keys(&flat);
    let mut rng = RandomSource::Fixed(0);
    let s = gen_sentence(&mut rng, &flat, &cap, 1, 1000).unwrap();
    assert_eq!(s, cv("ab."));
    assert_eq!(*s.last().unwrap(), '.');
}

#[test]
fn ceiling_returns_the_partial_sentence() {
    // with the stub source the walk cycles between 'a' and 'b' and never
    // reaches the period, so the ceiling fires and hands back the partial
    // sentence grown so far
    let m = create_weighted_adjacency_matrix(&cv("abab."), 1, 1);
    let flat = flatten_adjacency_matrix(&m);
    let cap = capitalized_keys(&flat);
    assert!(cap.is_empty());
    let mut rng = RandomSource::Fixed(0);
    let s = gen_sentence(&mut rng, &flat, &cap, 1, 4).unwrap();
    assert_eq!(s, cv("ababa"));
}

#[test]
fn capitalized_keys_filters_uppercase_starts() {
    let m = create_weighted_adjacency_matrix(&cv("AbAc"), 1, 1);
    let flat = flatten_adjacency_matrix(&m);
    let cap = capitalized_keys(&flat);
    assert_eq!(cap, vec![cv("A")]);
}

#[test]
fn sentences_seed_capitalized_and_join_with_spaces() {
    let mut rng = RandomSource::Fixed(0);
    let r = generate(&cv("Ab."), 1, 1, 2, false, false, &mut rng);
    match r {
        Ok(GenOutput::Text(t)) => assert_eq!(t, cv("Ab. Ab.")),
        _ => panic!("expected generated text"),
    }
}

#[test]
fn token_mode_is_forced_without_periods() {
    let mut rng = RandomSource::Fixed(0);
    // sentence mode requested, but the corpus has no period
    let r = generate(&cv("aaaa"), 1, 1, 2, false, false, &mut rng);
    match r {
        Ok(GenOutput::Text(t)) => assert_eq!(t, cv("aaa")),
        _ => panic!("expected generated text"),
    }
}

#[test]
fn dead_end_key_fails_generation() {
    let mut rng = RandomSource::Fixed(0);
    let r = generate(&cv("ab"), 1, 1, 2, true, false, &mut rng);
    match r {
        Err(e) => assert_eq!(e, TextGenError::LookupError),
        Ok(_) => panic!("expected an error"),
    }
}

#[test]
fn source_mode_returns_the_matrix() {
    let mut rng = RandomSource::Fixed(7);
    let r = generate(&cv("aaaa"), 1, 1, 1, false, true, &mut rng);
    match r {
        Ok(GenOutput::Matrix(m)) => {
            assert_eq!(m.num_keys(), 1);
            assert_eq!(m.count_of(&cv("a"), &cv("a")), 3);
        },
        _ => panic!("expected the matrix dump"),
    }
}

#[test]
fn fixed_source_reduces_modulo_bound() {
    let mut rng = RandomSource::Fixed(7);
    assert_eq!(rng.next_index(3), 1);
    assert_eq!(rng.next_index(3), 1);
    assert_eq!(RandomSource::Fixed(0).next_index(5), 0);
}

#[test]
fn pseudo_source_is_deterministic_and_bounded() {
    let mut r1 = RandomSource::Pseudo(42);
    let mut r2 = RandomSource::Pseudo(42);
    for _ in 0..100 {
        let a = r1.next_index(10);
        let b = r2.next_index(10);
        assert_eq!(a, b);
        assert!(a < 10);
    }
    let mut r3 = RandomSource::Pseudo(43);
    let mut differs = false;
    for _ in 0..100 {
        if r1.next_index(10) != r3.next_index(10) {
            differs = true;
        }
    }
    assert!(differs);
}
