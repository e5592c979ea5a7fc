use transbot::strutil::{
    count_leading_newline, count_tailing_newline, is_blank, parse_usize, restore_triming_newlines,
    split_char, trim_end_matches, trim_start_matches, usize_to_decimal,
};

#[test]
fn leading_newlines_are_counted() {
    assert_eq!(count_leading_newline("\n\nabc\n"), 2);
    assert_eq!(count_leading_newline("abc"), 0);
    assert_eq!(count_leading_newline(""), 0);
    assert_eq!(count_leading_newline("\n\n\n"), 3);
}

#[test]
fn trailing_newlines_are_counted() {
    assert_eq!(count_tailing_newline("\nabc\n\n"), 2);
    assert_eq!(count_tailing_newline("abc"), 0);
    assert_eq!(count_tailing_newline("\n\n"), 2);
    assert_eq!(count_tailing_newline("a\nb"), 0);
}

#[test]
fn newlines_are_restored_around_translation() {
    let mut dest = String::from("你好");
    restore_triming_newlines(&mut dest, "\nHello\n\n");
    assert_eq!(dest, "\n你好\n\n");
    let mut plain = String::from("x");
    restore_triming_newlines(&mut plain, "y");
    assert_eq!(plain, "x");
}

#[test]
fn blank_text_is_white_space_only() {
    assert!(is_blank(""));
    assert!(is_blank(" \t\n\r\u{3000}\u{a0}"));
    assert!(!is_blank("  a "));
    assert!(!is_blank("\u{200b}"));
}

#[test]
fn repeated_prefixes_and_suffixes_are_trimmed() {
    assert_eq!(trim_start_matches("```html\n```html\nabc", "```html\n"), "abc");
    assert_eq!(trim_end_matches("abc\n```\n```", "\n```"), "abc");
    assert_eq!(trim_start_matches("abc", "x"), "abc");
    assert_eq!(trim_end_matches("abc", ""), "abc");
}

#[test]
fn unsigned_numbers_are_read_as_std_does() {
    assert_eq!(parse_usize("42"), Some(42));
    assert_eq!(parse_usize("+7"), Some(7));
    assert_eq!(parse_usize("007"), Some(7));
    assert_eq!(parse_usize(""), None);
    assert_eq!(parse_usize("+"), None);
    assert_eq!(parse_usize("-1"), None);
    assert_eq!(parse_usize("1a"), None);
    assert_eq!(parse_usize(" 1"), None);
    assert_eq!(parse_usize("99999999999999999999999999"), None);
    for s in ["0", "12", "+3", "", "x", "18446744073709551615", "18446744073709551616"] {
        assert_eq!(parse_usize(s), s.parse::<usize>().ok());
    }
}

#[test]
fn numbers_are_written_in_decimal() {
    assert_eq!(usize_to_decimal(0), "0");
    assert_eq!(usize_to_decimal(7), "7");
    assert_eq!(usize_to_decimal(1203), "1203");
    assert_eq!(usize_to_decimal(usize::MAX), usize::MAX.to_string());
}

#[test]
fn split_matches_std_split() {
    for s in ["ollama;http://x", "custom;openai;http://a;b", ";;", "", "plain"] {
        let expected: Vec<String> = s.split(';').map(String::from).collect();
        assert_eq!(split_char(s, ';'), expected);
    }
}

#[test]
fn written_numbers_read_back() {
    for n in [0usize, 9, 10, 99, 100, 4096, usize::MAX / 10, usize::MAX] {
        assert_eq!(parse_usize(&usize_to_decimal(n)), Some(n));
    }
}
