use i2c_int_monitor::number::{digit, parse_number};
use i2c_int_monitor::text::{
    after_prefix, append_str, chars_of, contains, contains_char, has_prefix, is_whitespace,
    matches_at, same_text, split_fields, split_lines, split_words, string_of,
    sub_vec, trimmed, without_trailing,
};

fn cs(s: &str) -> Vec<char> {
    s.chars().collect()
}

fn strings(v: &Vec<Vec<char>>) -> Vec<String> {
    v.iter().map(|w| w.iter().collect()).collect()
}

#[test]
fn chars_and_strings_round_trip() {
    assert_eq!(chars_of("a\u{e9}\u{2514}z"), vec!['a', '\u{e9}', '\u{2514}', 'z']);
    assert_eq!(string_of(&cs("h\u{e9}llo")), "h\u{e9}llo");
    assert_eq!(string_of(&Vec::new()), "");
    assert_eq!(sub_vec(&cs("abcdef"), 2, 4), cs("cd"));
    let mut buf = cs("ab");
    append_str(&mut buf, "cd");
    assert_eq!(buf, cs("abcd"));
}

#[test]
fn whitespace_is_what_the_standard_library_says() {
    let mut c = 0u32;
    while c <= 0x3100 {
        if let Some(ch) = char::from_u32(c) {
            assert_eq!(is_whitespace(ch), ch.is_whitespace(), "code point {:x}", c);
        }
        c += 1;
    }
    assert!(!is_whitespace('\u{feff}'));
    assert!(!is_whitespace('\u{200b}'));
}

#[test]
fn words_are_split_like_the_standard_library() {
    for text in [
        "",
        "   ",
        "a",
        " a ",
        "  12:   3 4\tfoo  bar\n",
        "x\u{a0}y\u{3000}z",
        "tail   ",
    ] {
        let expected: Vec<String> = text.split_whitespace().map(|w| w.to_string()).collect();
        assert_eq!(strings(&split_words(&cs(text))), expected, "text {:?}", text);
    }
}

#[test]
fn lines_are_split_like_the_standard_library() {
    for text in [
        "",
        "\n",
        "a",
        "a\n",
        "a\nb",
        "a\r\nb\r\n",
        "a\n\nb\n",
        "a\r",
        "a\r\r\nb",
        "\r\n",
        "x\ry\n",
    ] {
        let expected: Vec<String> = text.lines().map(|w| w.to_string()).collect();
        assert_eq!(strings(&split_lines(&cs(text))), expected, "text {:?}", text);
    }
}

#[test]
fn fields_are_split_like_the_standard_library() {
    for text in ["", ":", "a", "a:b", ":a::b:", "0018:093A:0255.0001"] {
        let expected: Vec<String> = text.split(':').map(|w| w.to_string()).collect();
        assert_eq!(strings(&split_fields(&cs(text), &vec![':'])), expected, "text {:?}", text);
    }
    let text = "idma64.0, i2c_designware.0 x";
    let expected: Vec<String> = text.split(&[' ', ','][..]).map(|w| w.to_string()).collect();
    assert_eq!(strings(&split_fields(&cs(text), &vec![' ', ','])), expected);
    // Without delimiters nothing is cut.
    assert_eq!(strings(&split_fields(&cs("a:b"), &Vec::new())), vec!["a:b"]);
}

#[test]
fn trimming_is_like_the_standard_library() {
    for text in ["", "   ", "a", "  a b  ", "\t\r\nx\u{a0}", "\u{2003}y z\u{3000}"] {
        assert_eq!(string_of(&trimmed(&cs(text))), text.trim(), "text {:?}", text);
    }
    assert_eq!(string_of(&without_trailing(&cs("42:"), ':')), "42");
    assert_eq!(string_of(&without_trailing(&cs("a:b::"), ':')), "a:b");
    assert_eq!(string_of(&without_trailing(&cs(":::"), ':')), "");
    assert_eq!(string_of(&without_trailing(&cs("abc"), ':')), "abc");
}

#[test]
fn searching_is_like_the_standard_library() {
    let cases = [
        ("", ""),
        ("abc", ""),
        ("", "a"),
        ("abc", "abc"),
        ("abc", "abcd"),
        ("xxabxabc", "abc"),
        ("aaa", "aa"),
        ("hello world", "o w"),
        ("hello", "lo"),
        ("hello", "ol"),
    ];
    for (text, pattern) in cases {
        assert_eq!(contains(&cs(text), &cs(pattern)), text.contains(pattern), "{:?}", (text, pattern));
        assert_eq!(
            has_prefix(&cs(text), &cs(pattern)),
            text.starts_with(pattern),
            "{:?}",
            (text, pattern)
        );
        let expected: Option<Vec<char>> = text.strip_prefix(pattern).map(|r| cs(r));
        assert_eq!(after_prefix(&cs(text), &cs(pattern)), expected);
    }
    assert!(matches_at(&cs("xxabc"), &cs("abc"), 2));
    assert!(!matches_at(&cs("xxabc"), &cs("abc"), 3));
    assert!(!matches_at(&cs("abc"), &cs("abc"), usize::MAX));
    assert!(matches_at(&cs("abc"), &cs(""), 3));
    assert!(!matches_at(&cs("abc"), &cs(""), 4));
    assert!(contains_char(&cs("a:b"), ':'));
    assert!(!contains_char(&cs("ab"), ':'));
    assert!(same_text(&cs("ab"), &cs("ab")));
    assert!(!same_text(&cs("ab"), &cs("abc")));
    assert!(!same_text(&cs("ab"), &cs("ac")));
}

#[test]
fn digits_have_their_values() {
    assert_eq!(digit('0', 10), Some(0));
    assert_eq!(digit('9', 10), Some(9));
    assert_eq!(digit('a', 10), None);
    assert_eq!(digit('a', 16), Some(10));
    assert_eq!(digit('F', 16), Some(15));
    assert_eq!(digit('g', 16), None);
    assert_eq!(digit('z', 36), Some(35));
    assert_eq!(digit(' ', 36), None);
    assert_eq!(digit('\u{663}', 10), None);
}

#[test]
fn decimal_numbers_are_read_like_the_standard_library() {
    for text in [
        "", "+", "-", "0", "7", "+7", "-7", "++7", "007", "12a", " 12", "12 ", "255", "256",
        "18446744073709551615", "18446744073709551616", "99999999999999999999999999",
        "\u{661}\u{662}",
    ] {
        let chars = cs(text);
        assert_eq!(parse_number(&chars, 10, u64::MAX), text.parse::<u64>().ok(), "{:?}", text);
        assert_eq!(
            parse_number(&chars, 10, 255),
            text.parse::<u8>().ok().map(|n| n as u64),
            "{:?}",
            text
        );
    }
}

#[test]
fn hexadecimal_numbers_are_read_like_the_standard_library() {
    for text in ["", "0", "093A", "093a", "ffff", "FFFF", "10000", "+1f", "-1", "0x10", "g", "+"] {
        assert_eq!(
            parse_number(&cs(text), 16, 0xFFFF),
            u16::from_str_radix(text, 16).ok().map(|n| n as u64),
            "{:?}",
            text
        );
    }
}
