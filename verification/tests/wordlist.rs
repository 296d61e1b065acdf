use passgen::wordlist::{parse_eff_line, parse_wordlist, WordList, WordListTexts};

const SAMPLE_LARGE: &str = "11111\tabacus\n11112\tabdomen\n11113\tabdominal\n11114\tabide\n";
const SAMPLE_SHORT1: &str = "1111\tacid\n1112\tacorn\n1113\tacre\n";
const SAMPLE_SHORT2: &str = "1111\taardvark\n1112\tabandoned\n";

fn sample_texts() -> WordListTexts {
    WordListTexts {
        eff_large: SAMPLE_LARGE.to_string(),
        eff_short1: SAMPLE_SHORT1.to_string(),
        eff_short2: SAMPLE_SHORT2.to_string(),
    }
}

#[test]
fn test_eff_line_parsing() {
    assert_eq!(parse_eff_line("11111\tabacus"), Some("abacus"));
    assert_eq!(parse_eff_line("11112\tabdomen"), Some("abdomen"));
    assert_eq!(parse_eff_line("invalid line"), None);
    assert_eq!(parse_eff_line(""), None);
}

#[test]
fn test_eff_line_parsing_edge_cases() {
    // Test with multiple tabs
    assert_eq!(parse_eff_line("11111\tabacus\textra"), Some("abacus"));
    // Test with no tab
    assert_eq!(parse_eff_line("11111abacus"), None);
    // Test with only tab
    assert_eq!(parse_eff_line("\t"), Some(""));
    // Test with tab at beginning
    assert_eq!(parse_eff_line("\tabacus"), Some("abacus"));
    // Test with whitespace
    assert_eq!(parse_eff_line("11111\t abacus "), Some(" abacus "));
}

#[test]
fn test_wordlist_default() {
    let default_wordlist = WordList::default();
    assert!(matches!(default_wordlist, WordList::EffLarge));
}

#[test]
fn test_custom_wordlist_creation() {
    let custom_words = vec![
        "apple".to_string(),
        "banana".to_string(),
        "cherry".to_string(),
    ];
    let wordlist = WordList::from_custom(custom_words.clone());

    if let WordList::Custom(words) = wordlist {
        assert_eq!(words, custom_words);
    } else {
        panic!("Expected Custom wordlist");
    }
}

#[test]
fn test_custom_wordlist_empty() {
    let empty_words = vec![];
    let wordlist = WordList::from_custom(empty_words);
    let words = wordlist.words(&WordListTexts::default());
    assert!(words.is_empty());
}

#[test]
fn test_custom_wordlist_single_word() {
    let single_word = vec!["hello".to_string()];
    let wordlist = WordList::from_custom(single_word);
    let words = wordlist.words(&WordListTexts::default());
    assert_eq!(words.len(), 1);
    assert_eq!(words[0], "hello");
}

#[test]
fn test_custom_wordlist_special_characters() {
    let special_words = vec![
        "hello-world".to_string(),
        "test@email.com".to_string(),
        "unicode_測試".to_string(),
        "emoji🎉".to_string(),
    ];
    let wordlist = WordList::from_custom(special_words.clone());
    let words = wordlist.words(&WordListTexts::default());
    assert_eq!(words.len(), 4);
    assert_eq!(words[0], "hello-world");
    assert_eq!(words[1], "test@email.com");
    assert_eq!(words[2], "unicode_測試");
    assert_eq!(words[3], "emoji🎉");
}

#[test]
fn test_wordlist_clone() {
    let original = WordList::EffLarge;
    let cloned = original.clone();
    assert!(matches!(cloned, WordList::EffLarge));

    let custom_original = WordList::from_custom(vec!["test".to_string()]);
    let custom_cloned = custom_original.clone();
    if let (WordList::Custom(orig), WordList::Custom(cloned)) =
        (&custom_original, &custom_cloned)
    {
        assert_eq!(orig, cloned);
    } else {
        panic!("Expected both to be Custom variants");
    }
}

#[test]
fn test_wordlist_debug() {
    let wordlist = WordList::EffLarge;
    let debug_str = format!("{:?}", wordlist);
    assert!(debug_str.contains("EffLarge"));

    let custom = WordList::from_custom(vec!["test".to_string()]);
    let custom_debug = format!("{:?}", custom);
    assert!(custom_debug.contains("Custom"));
}

#[test]
fn parse_eff_line_handles_unicode_and_empty_fields() {
    assert_eq!(parse_eff_line("1\t測試\tx"), Some("測試"));
    assert_eq!(parse_eff_line("é\tü"), Some("ü"));
    assert_eq!(parse_eff_line("a\t\tb"), Some(""));
    assert_eq!(parse_eff_line("abc\t"), Some(""));
    assert_eq!(parse_eff_line("\t\t"), Some(""));
    assert_eq!(parse_eff_line("no tabs here"), None);
}

#[test]
fn parse_eff_line_agrees_with_split() {
    let lines = [
        "11111\tabacus",
        "",
        "\t",
        "a\tb\tc\td",
        "plain",
        "x\t y \t",
        "\tq",
        "ß\tÄpfel\t🎉",
    ];
    for line in lines {
        assert_eq!(parse_eff_line(line), line.split('\t').nth(1), "line {:?}", line);
    }
}

#[test]
fn parse_wordlist_takes_the_word_of_each_line() {
    let words = parse_wordlist(SAMPLE_LARGE);
    assert_eq!(words, vec!["abacus", "abdomen", "abdominal", "abide"]);
}

#[test]
fn parse_wordlist_skips_lines_without_a_tab() {
    let words = parse_wordlist("1\tone\nheader line\n\n2\ttwo\r\n3\t\n4\tfour");
    assert_eq!(words, vec!["one", "two", "", "four"]);
}

#[test]
fn parse_wordlist_of_empty_text_is_empty() {
    assert!(parse_wordlist("").is_empty());
    assert!(parse_wordlist("\n\n").is_empty());
}

#[test]
fn built_in_lists_come_from_their_texts() {
    let texts = sample_texts();
    let large = WordList::EffLarge.words(&texts);
    assert!(!large.is_empty());
    assert!(large.contains(&"abacus".to_string()));
    assert!(large.contains(&"abdomen".to_string()));
    assert_eq!(WordList::EffShort1.words(&texts), vec!["acid", "acorn", "acre"]);
    assert_eq!(WordList::EffShort2.words(&texts), vec!["aardvark", "abandoned"]);
    assert_ne!(WordList::EffShort1.words(&texts), WordList::EffShort2.words(&texts));
}

#[test]
fn built_in_lists_are_the_same_on_every_call() {
    let texts = sample_texts();
    for list in [WordList::EffLarge, WordList::EffShort1, WordList::EffShort2] {
        let first = list.words(&texts);
        let second = list.words(&texts);
        assert_eq!(first.len(), second.len());
        assert_eq!(first, second);
    }
}

#[test]
fn custom_list_ignores_the_texts() {
    let list = WordList::from_custom(vec!["x".to_string(), "y".to_string()]);
    assert_eq!(list.words(&sample_texts()), vec!["x", "y"]);
}

#[test]
fn default_texts_are_empty() {
    let texts = WordListTexts::default();
    assert!(texts.eff_large.is_empty());
    assert!(texts.eff_short1.is_empty());
    assert!(texts.eff_short2.is_empty());
    assert!(WordList::EffLarge.words(&texts).is_empty());
}
