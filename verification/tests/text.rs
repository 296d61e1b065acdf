use passgen::text::{chars_of, find_char, split_lines, string_of};

#[test]
fn split_lines_splits_at_line_feeds() {
    assert_eq!(split_lines("alpha\nbeta\ngamma"), vec!["alpha", "beta", "gamma"]);
    assert_eq!(split_lines("alpha\nbeta\n"), vec!["alpha", "beta"]);
    assert_eq!(split_lines("alpha"), vec!["alpha"]);
}

#[test]
fn split_lines_of_empty_text_is_empty() {
    assert!(split_lines("").is_empty());
}

#[test]
fn split_lines_keeps_empty_lines() {
    assert_eq!(split_lines("\n"), vec![""]);
    assert_eq!(split_lines("\n\n"), vec!["", ""]);
    assert_eq!(split_lines("a\n\nb"), vec!["a", "", "b"]);
    assert_eq!(split_lines("\na"), vec!["", "a"]);
}

#[test]
fn split_lines_drops_a_carriage_return_before_a_line_feed() {
    assert_eq!(split_lines("a\r\nb\r\n"), vec!["a", "b"]);
    assert_eq!(split_lines("a\r\n\r\nb"), vec!["a", "", "b"]);
    assert_eq!(split_lines("a\r\r\nb"), vec!["a\r", "b"]);
}

#[test]
fn split_lines_keeps_other_carriage_returns() {
    assert_eq!(split_lines("a\rb\nc"), vec!["a\rb", "c"]);
    assert_eq!(split_lines("a\nb\r"), vec!["a", "b\r"]);
    assert_eq!(split_lines("\r"), vec!["\r"]);
}

#[test]
fn split_lines_agrees_with_lines() {
    let texts = [
        "",
        "\n",
        "\r\n",
        "\r",
        "one",
        "one\n",
        "one\ntwo",
        "one\r\ntwo\r\n",
        "one\n\n\ntwo\n\n",
        "\n\none",
        "a\rb\r\nc\r",
        "\r\r\n\r\n\r",
        "ünï\ncödé\r\n測試\n🎉",
        "tab\tseparated\nline\n",
    ];
    for text in texts {
        let expected: Vec<&str> = text.lines().collect();
        assert_eq!(split_lines(text), expected, "text {:?}", text);
    }
}

#[test]
fn chars_of_gives_the_characters() {
    assert_eq!(chars_of("aé🎉"), vec!['a', 'é', '🎉']);
    assert!(chars_of("").is_empty());
}

#[test]
fn string_of_takes_a_range_of_characters() {
    let chars = chars_of("héllo wörld");
    assert_eq!(string_of(&chars, 0, 5), "héllo");
    assert_eq!(string_of(&chars, 6, 11), "wörld");
    assert_eq!(string_of(&chars, 3, 3), "");
    assert_eq!(string_of(&chars, 0, 11), "héllo wörld");
}

#[test]
fn find_char_finds_the_first_from_a_position() {
    let chars = chars_of("a-b-c");
    assert_eq!(find_char(&chars, '-', 0), 1);
    assert_eq!(find_char(&chars, '-', 1), 1);
    assert_eq!(find_char(&chars, '-', 2), 3);
    assert_eq!(find_char(&chars, '-', 4), 5);
    assert_eq!(find_char(&chars, '-', 5), 5);
    assert_eq!(find_char(&chars, 'x', 0), 5);
}
