use doc_cli::text::{
    char_is_digit, char_is_space, chars_of, find_from, lines_of, same_text, split_on, trimmed,
};

fn every_char() -> Vec<char> {
    (0u32..=0x10FFFF).filter_map(char::from_u32).collect()
}

#[test]
fn white_space_is_the_unicode_property() {
    for c in every_char() {
        assert_eq!(char_is_space(c), c.is_whitespace(), "U+{:04X}", c as u32);
    }
}

#[test]
fn digits_are_the_ten_decimal_digits() {
    for c in every_char() {
        assert_eq!(char_is_digit(c), c.is_digit(10), "U+{:04X}", c as u32);
    }
    assert!(char_is_digit('0'));
    assert!(char_is_digit('9'));
    assert!(!char_is_digit('a'));
    assert!(!char_is_digit('\u{0661}'));
}

#[test]
fn chars_of_lists_every_character() {
    assert_eq!(chars_of(""), Vec::<char>::new());
    assert_eq!(chars_of("abc"), vec!['a', 'b', 'c']);
    assert_eq!(chars_of("v1.2é"), vec!['v', '1', '.', '2', 'é']);
}

#[test]
fn trimmed_removes_white_space_at_both_ends_only() {
    assert_eq!(trimmed("  v1.0.0\n"), "v1.0.0");
    assert_eq!(trimmed("a b"), "a b");
    assert_eq!(trimmed("\t a b \r\n"), "a b");
    assert_eq!(trimmed(""), "");
    assert_eq!(trimmed(" \n\t "), "");
    assert_eq!(trimmed("\u{a0}x\u{3000}"), "x");
    assert_eq!(trimmed("\u{200b}x"), "\u{200b}x");
}

#[test]
fn trimmed_agrees_with_std() {
    let samples = [
        "",
        " ",
        "main",
        " main",
        "main ",
        "  feature/x  \n",
        "\r\n",
        "é \u{2003}",
        "\u{85}v1\u{85}",
        " a  b ",
        "\u{feff}x ",
    ];
    for s in samples {
        assert_eq!(trimmed(s), s.trim(), "{:?}", s);
    }
}

#[test]
fn split_on_keeps_empty_pieces() {
    assert_eq!(split_on("", '.'), vec![""]);
    assert_eq!(split_on("1.2.3", '.'), vec!["1", "2", "3"]);
    assert_eq!(split_on(".1..2.", '.'), vec!["", "1", "", "2", ""]);
    assert_eq!(split_on("abc", '.'), vec!["abc"]);
    assert_eq!(split_on("...", '.'), vec!["", "", "", ""]);
}

#[test]
fn split_on_agrees_with_std() {
    let samples = ["", "a", ".", "a.b", "a..b", ".a", "a.", "1.2.3.4.5", "é.ü", "..\n.."];
    for s in samples {
        let expected: Vec<&str> = s.split('.').collect();
        assert_eq!(split_on(s, '.'), expected, "{:?}", s);
    }
}

#[test]
fn lines_of_ends_lines_at_line_feeds() {
    assert_eq!(lines_of(""), Vec::<&str>::new());
    assert_eq!(lines_of("a"), vec!["a"]);
    assert_eq!(lines_of("a\n"), vec!["a"]);
    assert_eq!(lines_of("a\nb"), vec!["a", "b"]);
    assert_eq!(lines_of("a\n\nb\n"), vec!["a", "", "b"]);
    assert_eq!(lines_of("\n"), vec![""]);
    assert_eq!(lines_of("\n\n"), vec!["", ""]);
}

#[test]
fn lines_of_takes_a_carriage_return_before_a_line_feed_as_part_of_the_ending() {
    assert_eq!(lines_of("foo\nbar\n\r\nbaz\r"), vec!["foo", "bar", "", "baz\r"]);
    assert_eq!(lines_of("a\r\nb\r\n"), vec!["a", "b"]);
    assert_eq!(lines_of("a\r\r\n"), vec!["a\r"]);
    assert_eq!(lines_of("a\rb\n"), vec!["a\rb"]);
    assert_eq!(lines_of("\r"), vec!["\r"]);
    assert_eq!(lines_of("\r\n"), vec![""]);
}

#[test]
fn lines_of_agrees_with_std() {
    let samples = [
        "",
        "\n",
        "\r",
        "\r\n",
        "a",
        "a\n",
        "a\r",
        "a\r\n",
        "a\nb",
        "a\r\nb\r",
        "a\n\n\nb\n\n",
        "\n\na",
        "x\r\r\ny\n\r",
        "é\nü\r\n",
    ];
    for s in samples {
        let expected: Vec<&str> = s.lines().collect();
        assert_eq!(lines_of(s), expected, "{:?}", s);
    }
}

#[test]
fn find_from_gives_the_first_occurrence() {
    let hay = chars_of("abcabc");
    assert_eq!(find_from(&hay, &chars_of("bc"), 0), Some(1));
    assert_eq!(find_from(&hay, &chars_of("bc"), 1), Some(1));
    assert_eq!(find_from(&hay, &chars_of("bc"), 2), Some(4));
    assert_eq!(find_from(&hay, &chars_of("bc"), 5), None);
    assert_eq!(find_from(&hay, &chars_of("bc"), 60), None);
    assert_eq!(find_from(&hay, &chars_of("abcabc"), 0), Some(0));
    assert_eq!(find_from(&hay, &chars_of("abcabca"), 0), None);
    assert_eq!(find_from(&hay, &chars_of("x"), 0), None);
    assert_eq!(find_from(&chars_of(""), &chars_of("a"), 0), None);
}

#[test]
fn find_from_finds_the_empty_text_where_it_starts() {
    let hay = chars_of("abc");
    assert_eq!(find_from(&hay, &chars_of(""), 0), Some(0));
    assert_eq!(find_from(&hay, &chars_of(""), 3), Some(3));
    assert_eq!(find_from(&hay, &chars_of(""), 4), None);
}

#[test]
fn find_from_counts_characters_not_bytes() {
    let hay = chars_of("éé\"x");
    assert_eq!(find_from(&hay, &chars_of("\""), 0), Some(2));
    assert_eq!("éé\"x".find('"'), Some(4));
}

#[test]
fn same_text_compares_character_by_character() {
    assert!(same_text("", ""));
    assert!(same_text("deploy", "deploy"));
    assert!(!same_text("deploy", "deploy "));
    assert!(!same_text("deploy", "deploX"));
    assert!(!same_text("Y", "y"));
    assert!(!same_text("", "a"));
}
