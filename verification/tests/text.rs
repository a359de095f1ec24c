use kanji_kana::text::{normalize_answer, parse_usize, trim, to_lowercase, is_white_space, chars_of, string_of};

#[test]
fn trim_removes_surrounding_whitespace_only() {
    assert_eq!(trim("  a b \t\n"), "a b");
    assert_eq!(trim(""), "");
    assert_eq!(trim(" \n\t "), "");
    assert_eq!(trim("\u{3000}か\u{3000}"), "か");
    assert_eq!(trim("x"), "x");
}

#[test]
fn trim_twice_is_trim_once() {
    for s in ["  a ", "\t\tb\r\n", "", "   ", "c", " \u{a0}d e\u{2003}"] {
        let once = trim(s);
        assert_eq!(trim(&once), once);
    }
}

#[test]
fn normalize_answer_trims_and_lowers() {
    assert_eq!(normalize_answer("  KA \n"), "ka");
    assert_eq!(normalize_answer("Shi"), "shi");
    assert_eq!(normalize_answer("あ"), "あ");
    assert_eq!(normalize_answer(""), "");
}

#[test]
fn lowercase_follows_std() {
    assert_eq!(to_lowercase("ÀBC"), "àbc");
    assert_eq!(to_lowercase("abc"), "abc");
}

#[test]
fn whitespace_follows_std() {
    assert!(is_white_space(' '));
    assert!(is_white_space('\n'));
    assert!(is_white_space('\u{3000}'));
    assert!(!is_white_space('a'));
    assert!(!is_white_space('越'));
}

#[test]
fn chars_round_trip() {
    let cs = chars_of("きゃa");
    assert_eq!(cs, vec!['き', 'ゃ', 'a']);
    assert_eq!(string_of(&cs), "きゃa");
}

#[test]
fn parse_usize_accepts_plain_decimal() {
    assert_eq!(parse_usize("0"), Some(0));
    assert_eq!(parse_usize("42"), Some(42));
    assert_eq!(parse_usize("+7"), Some(7));
    assert_eq!(parse_usize("007"), Some(7));
    assert_eq!(parse_usize(&usize::MAX.to_string()), Some(usize::MAX));
}

#[test]
fn parse_usize_refuses_what_std_refuses() {
    for s in ["", "+", "-", "-1", "1a", " 1", "1 ", "++1", "x", "1.0"] {
        assert_eq!(parse_usize(s), None, "{:?}", s);
        assert_eq!(parse_usize(s), s.parse::<usize>().ok(), "{:?}", s);
    }
    let too_big = format!("{}0", usize::MAX);
    assert_eq!(parse_usize(&too_big), None);
}

#[test]
fn parse_usize_agrees_with_std() {
    for s in ["0", "1", "99", "+0", "18446744073709551615", "18446744073709551616", "4294967296"] {
        assert_eq!(parse_usize(s), s.parse::<usize>().ok(), "{:?}", s);
    }
}

#[test]
fn trim_of_a_padded_letter() {
    assert_eq!(trim(" a "), "a");
    assert_eq!(trim("\u{85}\u{1680}b\u{205f}"), "b");
    // not White_Space: zero width space, Mongolian vowel separator
    assert_eq!(trim("\u{200b}c\u{180e}"), "\u{200b}c\u{180e}");
}

#[test]
fn white_space_is_the_unicode_list() {
    let listed = |u: u32| {
        (0x09..=0x0D).contains(&u)
            || u == 0x20
            || u == 0x85
            || u == 0xA0
            || u == 0x1680
            || (0x2000..=0x200A).contains(&u)
            || u == 0x2028
            || u == 0x2029
            || u == 0x202F
            || u == 0x205F
            || u == 0x3000
    };
    for u in 0..=0x10FFFFu32 {
        if let Some(c) = char::from_u32(u) {
            assert_eq!(is_white_space(c), listed(u), "U+{:04X}", u);
        }
    }
}
