use job_mailer::text::{
    chars_of, contains_in, ends_with_in, find_char_in, first_line_str, folds_to_in,
    is_white_space_char, rfind_char_in, starts_with_in, trim_end_char_str, trim_end_str,
    trim_str, truncate_str, utf8_len_at_most,
};

fn all_chars() -> impl Iterator<Item = char> {
    (0u32..=0x10FFFF).filter_map(char::from_u32)
}

#[test]
fn white_space_is_unicode_white_space() {
    for c in all_chars() {
        assert_eq!(is_white_space_char(c), c.is_whitespace(), "{:?}", c);
    }
}

#[test]
fn trim_matches_std_trim() {
    let samples = [
        "",
        "   ",
        "abc",
        "  abc  ",
        "\t\n a b \r\n",
        "\u{3000}全角空格\u{3000}",
        "\u{a0}x\u{2029}",
        "\u{200b}zero width\u{200b}",
        " 中 文 ",
    ];
    for s in samples {
        assert_eq!(trim_str(s), s.trim(), "{:?}", s);
        assert_eq!(trim_end_str(s), s.trim_end(), "{:?}", s);
    }
}

#[test]
fn truncate_keeps_short_text() {
    assert_eq!(truncate_str("abc", 5), "abc");
    assert_eq!(truncate_str("abc", 3), "abc");
    assert_eq!(truncate_str("", 0), "");
}

#[test]
fn truncate_marks_the_cut() {
    assert_eq!(truncate_str("abcdef", 4), "abc…");
    assert_eq!(truncate_str("中文字符串", 3), "中文…");
    assert_eq!(truncate_str("abc", 1), "…");
    assert_eq!(truncate_str("abc", 0), "…");
}

#[test]
fn truncate_twice_is_truncate_once() {
    for (s, n) in [("abcdef", 4), ("abc", 0), ("中文字符串", 2), ("xy", 5)] {
        let once = truncate_str(s, n);
        assert_eq!(truncate_str(&once, n), once);
        assert!(once.chars().count() <= n.max(1));
    }
}

#[test]
fn trim_twice_is_trim_once() {
    for s in ["  a  ", "\u{3000}b\n", "", " \t "] {
        let once = trim_str(s).to_string();
        assert_eq!(trim_str(&once), once);
    }
}

#[test]
fn trailing_slashes_are_dropped() {
    assert_eq!(trim_end_char_str("http://x/v1///", '/'), "http://x/v1");
    assert_eq!(trim_end_char_str("///", '/'), "");
    assert_eq!(trim_end_char_str("a/b", '/'), "a/b");
}

#[test]
fn first_line_stops_at_newline() {
    assert_eq!(first_line_str("one\ntwo"), "one");
    assert_eq!(first_line_str("one\r\ntwo"), "one\r");
    assert_eq!(first_line_str("single"), "single");
    assert_eq!(first_line_str("\nlater"), "");
}

#[test]
fn search_functions_match_std() {
    let hay = chars_of("尊敬的张老师：{x}");
    assert!(contains_in(&hay, &chars_of("老师")));
    assert!(!contains_in(&hay, &chars_of("律师")));
    assert!(contains_in(&hay, &chars_of("")));
    assert!(starts_with_in(&hay, &chars_of("尊敬")));
    assert!(!starts_with_in(&hay, &chars_of("敬")));
    assert!(ends_with_in(&hay, &chars_of("x}")));
    assert_eq!(find_char_in(&hay, '{'), Some(7));
    assert_eq!(rfind_char_in(&hay, '}'), Some(9));
    assert_eq!(find_char_in(&hay, '#'), None);
    assert_eq!(rfind_char_in(&hay, '#'), None);
}

#[test]
fn ascii_folding() {
    assert!(folds_to_in(&chars_of("LoW"), &chars_of("low")));
    assert!(!folds_to_in(&chars_of("lowe"), &chars_of("low")));
    assert!(!folds_to_in(&chars_of("lów"), &chars_of("low")));
}

#[test]
fn utf8_length_matches_str_len() {
    for s in ["", "abc", "律师", "王律师事务所的合伙人律师先生您好啊", "😀x"] {
        for limit in [0usize, 3, 9, 48] {
            assert_eq!(utf8_len_at_most(&chars_of(s), limit), s.len() <= limit, "{:?} {}", s, limit);
        }
    }
}
