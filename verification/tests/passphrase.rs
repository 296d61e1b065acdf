use passgen::passphrase::{generate_passphrase, join_picked};
use passgen::wordlist::{WordList, WordListTexts};

#[test]
fn test_generate_passphrase_basic() {
    let custom_words = vec![
        "apple".to_string(),
        "banana".to_string(),
        "cherry".to_string(),
    ];
    let wordlist = WordList::from_custom(custom_words);

    let passphrase = generate_passphrase(3, "-", &wordlist, &WordListTexts::default());

    assert!(!passphrase.value.is_empty());
    assert_eq!(passphrase.value.matches('-').count(), 2); // 3 words = 2 separators

    // Check that all parts are valid words
    let parts: Vec<&str> = passphrase.value.split('-').collect();
    assert_eq!(parts.len(), 3);
    for part in parts {
        assert!(["apple", "banana", "cherry"].contains(&part));
    }
}

#[test]
fn test_generate_passphrase_custom_separator() {
    let custom_words = vec!["word1".to_string(), "word2".to_string()];
    let wordlist = WordList::from_custom(custom_words);

    let passphrase = generate_passphrase(2, "_", &wordlist, &WordListTexts::default());

    assert!(passphrase.value.contains('_'));
    assert!(!passphrase.value.contains('-'));
}

#[test]
fn test_generate_passphrase_single_word() {
    let custom_words = vec!["single".to_string()];
    let wordlist = WordList::from_custom(custom_words);

    let passphrase = generate_passphrase(1, "-", &wordlist, &WordListTexts::default());

    assert_eq!(passphrase.value.as_ref(), "single");
    assert!(!passphrase.value.contains('-'));
}

#[test]
fn test_generate_passphrase_empty_wordlist() {
    let empty_words = vec![];
    let wordlist = WordList::from_custom(empty_words);

    let passphrase = generate_passphrase(3, "-", &wordlist, &WordListTexts::default());

    assert!(passphrase.value.is_empty());
}

#[test]
fn test_generate_passphrase_zero_words() {
    let custom_words = vec!["test".to_string()];
    let wordlist = WordList::from_custom(custom_words);

    let passphrase = generate_passphrase(0, "-", &wordlist, &WordListTexts::default());

    assert!(passphrase.value.is_empty());
}

#[test]
fn test_generate_passphrase_randomness() {
    let custom_words = vec![
        "word1".to_string(),
        "word2".to_string(),
        "word3".to_string(),
        "word4".to_string(),
        "word5".to_string(),
        "word6".to_string(),
    ];
    let wordlist = WordList::from_custom(custom_words);

    // Generate multiple passphrases and check they're not all identical
    let passphrases: Vec<String> = (0..10)
        .map(|_| {
            generate_passphrase(3, "-", &wordlist, &WordListTexts::default())
                .value
                .into_owned()
        })
        .collect();

    // With 6 words choosing 3, we should get some variation
    let unique_passphrases: std::collections::HashSet<_> = passphrases.into_iter().collect();
    assert!(
        unique_passphrases.len() > 1,
        "Generated passphrases should show randomness"
    );
}

#[test]
fn passphrase_from_a_built_in_list() {
    let texts = WordListTexts {
        eff_large: "1\talpha\n2\tbeta\n3\tgamma\n".to_string(),
        eff_short1: String::new(),
        eff_short2: String::new(),
    };
    let passphrase = generate_passphrase(4, " ", &WordList::EffLarge, &texts);
    let parts: Vec<&str> = passphrase.value.split(' ').collect();
    assert_eq!(parts.len(), 4);
    for part in parts {
        assert!(["alpha", "beta", "gamma"].contains(&part));
    }
    assert!(generate_passphrase(4, " ", &WordList::EffShort1, &texts).value.is_empty());
}

#[test]
fn passphrase_with_a_long_separator() {
    let wordlist = WordList::from_custom(vec!["one".to_string()]);
    let passphrase = generate_passphrase(3, "<->", &wordlist, &WordListTexts::default());
    assert_eq!(passphrase.value, "one<->one<->one");
}

#[test]
fn passphrase_with_an_empty_separator() {
    let wordlist = WordList::from_custom(vec!["ab".to_string()]);
    let passphrase = generate_passphrase(3, "", &wordlist, &WordListTexts::default());
    assert_eq!(passphrase.value, "ababab");
}

#[test]
fn join_picked_joins_in_order() {
    let words = vec!["apple".to_string(), "banana".to_string(), "cherry".to_string()];
    assert_eq!(
        join_picked(&words, &vec![2, 0, 0, 1], "-"),
        Some("cherry-apple-apple-banana".to_string())
    );
    assert_eq!(join_picked(&words, &vec![1], "-"), Some("banana".to_string()));
    assert_eq!(join_picked(&words, &vec![], "-"), Some(String::new()));
    assert_eq!(join_picked(&words, &vec![0, 2], ""), Some("applecherry".to_string()));
}

#[test]
fn join_picked_agrees_with_join() {
    let words = vec!["a".to_string(), "".to_string(), "çé".to_string(), "🎉".to_string()];
    let picks = vec![vec![], vec![1], vec![1, 1], vec![0, 1, 2, 3], vec![3, 3, 0, 1, 1, 2]];
    for indices in picks {
        for separator in ["", "-", ", ", "→"] {
            let parts: Vec<&str> = indices.iter().map(|&i: &usize| words[i].as_str()).collect();
            assert_eq!(join_picked(&words, &indices, separator), Some(parts.join(separator)));
        }
    }
}

#[test]
fn join_picked_refuses_a_position_outside() {
    let words = vec!["apple".to_string(), "banana".to_string()];
    assert_eq!(join_picked(&words, &vec![0, 2], "-"), None);
    assert_eq!(join_picked(&vec![], &vec![0], "-"), None);
}
