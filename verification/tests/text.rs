use contract_conformance_guard::text::{
    begins_with, chars_of, contains_text, decimal_of, find_in, join, parse_index, same_text, split,
    string_of, strip_prefix, text_before, trim, trim_start, white,
};

#[test]
fn white_space_is_that_of_unicode() {
    for u in 0..=0x10ffffu32 {
        if let Some(c) = char::from_u32(u) {
            assert_eq!(white(c), c.is_whitespace(), "{u:x}");
        }
    }
}

#[test]
fn trimming_takes_off_white_space_alone() {
    for s in ["", " ", " a b ", "\u{a0}x\u{3000}", "\r\n\tdata: \u{85}", "\u{200b}x", "x"] {
        assert_eq!(trim(s), s.trim());
        assert_eq!(trim_start(s), s.trim_start());
    }
}

#[test]
fn texts_are_searched_by_character() {
    for (hay, needle) in
        [("", ""), ("abc", ""), ("abcabd", "abd"), ("aab", "ab"), ("é€", "€"), ("a", "ab"), ("ab", "c")]
    {
        assert_eq!(contains_text(hay, needle), hay.contains(needle), "{hay} {needle}");
        assert_eq!(begins_with(hay, needle), hay.starts_with(needle), "{hay} {needle}");
        assert_eq!(strip_prefix(hay, needle).as_deref(), hay.strip_prefix(needle));
        assert_eq!(same_text(hay, needle), hay == needle);
    }
    assert_eq!(find_in(&chars_of("xabab"), &chars_of("ab")), Some(1));
    assert_eq!(find_in(&chars_of("xabab"), &chars_of("ba")), Some(2));
    assert_eq!(find_in(&chars_of("x"), &chars_of("xx")), None);
    assert_eq!(string_of(&chars_of("aé€b"), 1, 3), "é€");
}

#[test]
fn splitting_and_joining_undo_each_other() {
    for s in ["", "/", "a", "a/b", "/a//b/", "é/€"] {
        let parts = split(s, '/');
        assert_eq!(parts, s.split('/').collect::<Vec<_>>());
        assert_eq!(join(&parts, '/'), s);
    }
    assert_eq!(join(&Vec::new(), ','), "");
}

#[test]
fn an_index_is_a_plain_number() {
    for s in [
        "0",
        "7",
        "007",
        "+7",
        "",
        "+",
        "-1",
        "-0",
        "++1",
        " 1",
        "1 ",
        "1_0",
        "\u{664}",
        "18446744073709551615",
        "18446744073709551616",
        "99999999999999999999999",
    ] {
        assert_eq!(parse_index(s), s.parse::<usize>().ok(), "{s}");
    }
}

#[test]
fn numbers_are_written_in_decimal() {
    for n in [0u128, 9, 10, 99, 100, 1_700_000_000_123_456_789, u128::MAX] {
        assert_eq!(decimal_of(n), n.to_string());
    }
}

#[test]
fn texts_are_ordered_as_strings_are() {
    let texts = ["", "a", "aa", "ab", "b", "B", "\u{ffee}", "\u{10000}", "é"];
    for a in texts {
        for b in texts {
            assert_eq!(text_before(a, b), a < b, "{a} {b}");
        }
    }
}
