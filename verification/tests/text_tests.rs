use opencrab::text::{
    fmt_i64, fmt_u64, pad_left, pad_right, parse_i64, remove_all, split_char, starts_with,
    str_eq, trim,
};

#[test]
fn trimming_matches_std() {
    for s in ["  a b  ", "\u{3000}x\u{a0}", "", "   ", "\tz\n", "\u{85}q"] {
        assert_eq!(trim(s), s.trim());
    }
}

#[test]
fn removal_matches_replace() {
    for (s, p) in [("@_user_1 hi @_user_1", "@_user_1"), ("aaa", "aa"), ("abc", ""), ("", "x")] {
        assert_eq!(remove_all(s, p), s.replace(p, ""));
    }
}

#[test]
fn splitting_matches_std() {
    for s in ["a.b.c", "", ".", "a..b", "abc."] {
        let ours = split_char(s, '.');
        let std_parts: Vec<String> = s.split('.').map(|x| x.to_string()).collect();
        assert_eq!(ours, std_parts);
    }
}

#[test]
fn integers_format_and_parse() {
    assert_eq!(fmt_u64(0), "0");
    assert_eq!(fmt_u64(u64::MAX), u64::MAX.to_string());
    assert_eq!(fmt_i64(i64::MIN), i64::MIN.to_string());
    assert_eq!(fmt_i64(-32601), "-32601");
    assert_eq!(pad_left("7", 4), "   7");
    assert_eq!(pad_left("12345", 4), "12345");
    assert_eq!(pad_right("ab", 4), "ab  ");
    for s in ["0", "+5", "-0", "1700000000123", "9223372036854775807", "-9223372036854775808",
              "9223372036854775808", "", "-", "+", "12a", " 1", "00042"] {
        assert_eq!(parse_i64(s), s.parse::<i64>().ok(), "input {s:?}");
    }
}

#[test]
fn comparisons() {
    assert!(str_eq("feishu", "feishu"));
    assert!(!str_eq("feishu", "lark"));
    assert!(starts_with("https://x", "http"));
    assert!(!starts_with("ht", "http"));
}
